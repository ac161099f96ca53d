use vstd::prelude::*;
use vstd::arithmetic::power2::pow2;
use crate::interval::Interval;
use crate::scalar::Scalar;
use crate::vec3::Vec3;

verus! {

/// Red, green and blue.
pub type Color = Vec3;

/// The number of fractions that one exponent of a binary64 number spans: two
/// to the power 52.
pub const FRACTION_SPAN: u64 = 0x10_0000_0000_0000;

/// The pattern of `0.999`, the greatest intensity that is written.
pub const FULL_INTENSITY_BITS: u64 = 0x3fef_f7ce_d916_872b;

/// The least exponent field of a number that is one 256th or more.
pub const LEAST_VISIBLE_EXPONENT: u64 = 1015;

/// The least exponent field of a number that, times 256, no longer fits 32 bits.
pub const LEAST_SATURATED_EXPONENT: u64 = 1047;

/// The exponent field of a number whose fraction, times 256, is a whole number
/// with nothing to cut off.
pub const WHOLE_EXPONENT: u64 = 1067;

/// The range of intensities that are written: `[0, 0.999]`.
pub open spec fn spec_intensity() -> Interval {
    Interval { min: Scalar { bits: 0 }, max: Scalar { bits: FULL_INTENSITY_BITS } }
}

/// The gamma-encoded value of a linear component whose square root is
/// `root`: the root if the component is positive, zero if it is not.
pub open spec fn spec_linear_to_gamma(linear_component: Scalar, root: Scalar) -> Scalar {
    if linear_component.spec_gt(Scalar { bits: 0 }) {
        root
    } else {
        Scalar { bits: 0 }
    }
}

/// The byte of an intensity: the number times 256, cut down to a whole
/// number of 32 bits, of which the lowest eight are kept.
///
/// A NaN and every number with a set sign give 0. A number from
/// two to the power 24 on, which times 256 no longer fits, gives 255. Of any
/// other number, with exponent field `e` and fraction `f`, the value times
/// 256 is `(2^52 + f) / 2^(1067 - e)`, and its whole part is taken.
pub open spec fn spec_quantize(x: Scalar) -> u8 {
    let e = x.bits / FRACTION_SPAN;
    let f = x.bits % FRACTION_SPAN;
    if x.nan() || x.negative() {
        0
    } else if e >= LEAST_SATURATED_EXPONENT {
        255
    } else if e < LEAST_VISIBLE_EXPONENT {
        0
    } else {
        (((FRACTION_SPAN + f) as nat / pow2((WHOLE_EXPONENT - e) as nat)) % 256) as u8
    }
}

/// The byte of one component of a pixel, given its square root.
pub open spec fn spec_channel(linear_component: Scalar, root: Scalar) -> u8 {
    spec_quantize(spec_intensity().spec_clamp(spec_linear_to_gamma(linear_component, root)))
}

/// Gamma-encodes a linear component. `root` is its square root; a component
/// that is not positive encodes as zero.
pub fn linear_to_gamma(linear_component: Scalar, root: Scalar) -> (r: Scalar)
    ensures
        r == spec_linear_to_gamma(linear_component, root),
{
    if linear_component.gt(Scalar::zero()) {
        return root;
    }
    Scalar::zero()
}

/// Turns an intensity into a byte: times 256, cut down to a whole number.
pub fn quantize(x: Scalar) -> (r: u8)
    ensures
        r == spec_quantize(x),
{
    if x.is_nan() || x.to_bits() >= crate::scalar::SIGN_BIT {
        return 0;
    }
    let e: u64 = x.to_bits() / FRACTION_SPAN;
    let f: u64 = x.to_bits() % FRACTION_SPAN;
    if e >= LEAST_SATURATED_EXPONENT {
        255
    } else if e < LEAST_VISIBLE_EXPONENT {
        0
    } else {
        let shift: u64 = WHOLE_EXPONENT - e;
        let whole: u64 = (FRACTION_SPAN + f) >> shift;
        proof {
            vstd::bits::lemma_u64_shr_is_div((FRACTION_SPAN + f) as u64, shift);
        }
        (whole % 256) as u8
    }
}

/// The three bytes of a pixel. `roots` holds the square roots of the
/// components of `pixel_color`. Each component is gamma-encoded, moved into
/// `[0, 0.999]` and turned into a byte.
pub fn map_color(pixel_color: &Color, roots: &Color) -> (r: [u8; 3])
    ensures
        r[0] == spec_channel(pixel_color.x, roots.x),
        r[1] == spec_channel(pixel_color.y, roots.y),
        r[2] == spec_channel(pixel_color.z, roots.z),
{
    let r = linear_to_gamma(pixel_color.x(), roots.x());
    let g = linear_to_gamma(pixel_color.y(), roots.y());
    let b = linear_to_gamma(pixel_color.z(), roots.z());

    let intensity: Interval = Interval::new(
        Scalar::zero(),
        Scalar::from_bits(FULL_INTENSITY_BITS),
    );
    let r_normalized = quantize(intensity.clamp(r));
    let g_normalized = quantize(intensity.clamp(g));
    let b_normalized = quantize(intensity.clamp(b));

    [r_normalized, g_normalized, b_normalized]
}

/// An intensity that has been moved into `[0, 0.999]` and is a number turns
/// into the whole part of the number times 256, with nothing wrapped around
/// and nothing capped. Negative zero, the one such number with a set sign,
/// turns into 0.
pub proof fn lemma_quantize_clamped(x: Scalar)
    requires
        !x.nan(),
    ensures
        ({
            let c = spec_intensity().spec_clamp(x);
            let e = c.magnitude() / FRACTION_SPAN as int;
            let f = c.magnitude() % FRACTION_SPAN as int;
            &&& !c.nan() && c.magnitude() <= FULL_INTENSITY_BITS
            &&& c.negative() ==> c.magnitude() == 0
            &&& e < LEAST_VISIBLE_EXPONENT ==> spec_quantize(c) == 0
            &&& e >= LEAST_VISIBLE_EXPONENT ==> spec_quantize(c) == (FRACTION_SPAN + f) as nat / pow2(
                (WHOLE_EXPONENT - e) as nat,
            )
        }),
{
    let c = spec_intensity().spec_clamp(x);
    let e = c.magnitude() / FRACTION_SPAN as int;
    let f = c.magnitude() % FRACTION_SPAN as int;
    assert(c.magnitude() <= FULL_INTENSITY_BITS);
    if e >= LEAST_VISIBLE_EXPONENT {
        assert(!c.negative());
        let s = (WHOLE_EXPONENT - e) as nat;
        assert(s >= 45);
        vstd::arithmetic::power2::lemma2_to64();
        vstd::arithmetic::power2::lemma2_to64_rest();
        if s > 45 {
            vstd::arithmetic::power2::lemma_pow2_strictly_increases(45, s);
        }
        assert(pow2(45) == 0x2000_0000_0000);
        let m = (FRACTION_SPAN + f) as nat;
        assert(m < 0x20_0000_0000_0000);
        assert(m / pow2(s) < 256) by {
            vstd::arithmetic::div_mod::lemma_div_is_ordered_by_denominator(
                m as int,
                pow2(45) as int,
                pow2(s) as int,
            );
            assert(m / 0x2000_0000_0000nat < 256);
        }
    }
}

} // verus!
