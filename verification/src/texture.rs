use vstd::prelude::*;
use vstd::arithmetic::power2::pow2;
use crate::color::{Color, FRACTION_SPAN};
use crate::scalar::{Scalar, SIGN_BIT};
use crate::vec3::Point3;

verus! {

/// The exponent field of one: numbers with a smaller field are less than one
/// in magnitude.
pub const UNIT_EXPONENT: u64 = 1023;

/// The least exponent field of a number whose magnitude no longer fits 32
/// bits with a sign.
pub const LEAST_WIDE_EXPONENT: u64 = 1054;

/// The exponent field of a number whose fraction counts whole units.
pub const INTEGER_EXPONENT: u64 = 1075;

/// A texture that is one colour everywhere.
#[derive(Clone, Copy, Debug)]
pub struct ConstantTexture {
    pub color: Color,
}

/// A texture of cubes that alternate between two textures.
#[derive(Debug)]
pub struct CheckerTexture {
    pub odd: Box<Texture>,
    pub even: Box<Texture>,
    /// One over the edge of a cube.
    pub scale: Scalar,
}

/// The colour of a surface at each of its points.
#[derive(Debug)]
pub enum Texture {
    Constant(ConstantTexture),
    Checker(CheckerTexture),
}

/// The cube in which a coordinate lies: the greatest whole number that is not
/// above it, as a 32-bit number.
///
/// A NaN lies in cube 0. A number from two to the power 31 on lies in the
/// last cube, a number below minus that in the first. Any other number, with
/// exponent field `e` and fraction `f`, has the magnitude
/// `(2^52 + f) / 2^(1075 - e)`: a positive number lies in the cube of the
/// whole part of that, a negative number in the cube below unless it is whole.
pub open spec fn spec_cell(x: Scalar) -> int {
    let e = x.magnitude() / FRACTION_SPAN as int;
    let f = x.magnitude() % FRACTION_SPAN as int;
    let m = (FRACTION_SPAN + f) as nat;
    if x.nan() {
        0
    } else if e >= LEAST_WIDE_EXPONENT {
        if x.negative() {
            i32::MIN as int
        } else {
            i32::MAX as int
        }
    } else if e < UNIT_EXPONENT {
        if x.negative() && x.magnitude() > 0 {
            -1
        } else {
            0
        }
    } else {
        let d = pow2((INTEGER_EXPONENT - e) as nat);
        if !x.negative() {
            (m / d) as int
        } else if m % d == 0 {
            -((m / d) as int)
        } else {
            -((m / d) as int) - 1
        }
    }
}

/// Whether the cube of a point is an even one: the numbers of its cube on
/// the three axes add up to an even number.
pub open spec fn spec_even_cell(scaled: Point3) -> bool {
    (spec_cell(scaled.x) + spec_cell(scaled.y) + spec_cell(scaled.z)) % 2 == 0
}

/// The cube in which a coordinate lies.
pub fn cell(x: Scalar) -> (r: i32)
    ensures
        r == spec_cell(x),
{
    if x.is_nan() {
        return 0;
    }
    let negative = x.to_bits() >= SIGN_BIT;
    let magnitude: u64 = x.abs().to_bits();
    let e: u64 = magnitude / FRACTION_SPAN;
    let f: u64 = magnitude % FRACTION_SPAN;
    if e >= LEAST_WIDE_EXPONENT {
        if negative {
            i32::MIN
        } else {
            i32::MAX
        }
    } else if e < UNIT_EXPONENT {
        if negative && magnitude > 0 {
            -1
        } else {
            0
        }
    } else {
        let m: u64 = FRACTION_SPAN + f;
        let shift: u64 = INTEGER_EXPONENT - e;
        let whole: u64 = m >> shift;
        proof {
            lemma_whole_part(m, shift);
        }
        let exact = (whole << shift) == m;
        if !negative {
            whole as i32
        } else if exact {
            -(whole as i32)
        } else {
            -(whole as i32) - 1
        }
    }
}

/// Shifting the digits of a magnitude out gives its whole part, which fits
/// 31 bits, and shifting them back in gives the magnitude exactly when
/// nothing was lost.
pub proof fn lemma_whole_part(m: u64, shift: u64)
    requires
        FRACTION_SPAN <= m < 2 * FRACTION_SPAN,
        22 <= shift <= 52,
    ensures
        m >> shift == m as nat / pow2(shift as nat),
        (m >> shift) < 0x8000_0000,
        ((m >> shift) << shift) == m <==> (m as nat) % pow2(shift as nat) == 0,
{
    let d = pow2(shift as nat);
    let q = m >> shift;
    vstd::bits::lemma_u64_shr_is_div(m, shift);
    vstd::arithmetic::power2::lemma2_to64();
    vstd::arithmetic::power2::lemma_pow2_pos(shift as nat);
    if shift > 22 {
        vstd::arithmetic::power2::lemma_pow2_strictly_increases(22, shift as nat);
    }
    assert(pow2(22) == 0x40_0000);
    assert(q < 0x8000_0000) by {
        vstd::arithmetic::div_mod::lemma_div_is_ordered_by_denominator(
            m as int,
            pow2(22) as int,
            d as int,
        );
        assert(m as nat / 0x40_0000nat < 0x8000_0000);
    }
    vstd::arithmetic::div_mod::lemma_fundamental_div_mod(m as int, d as int);
    assert(q * d <= m) by (nonlinear_arith)
        requires
            m == d * (m as int / d as int) + (m as int % d as int),
            q == m as int / d as int,
            0 <= m as int % d as int,
    ;
    vstd::bits::lemma_u64_shl_is_mul(q, shift);
    assert(q << shift == q * d);
    assert(d * (m as int / d as int) == q * d) by (nonlinear_arith)
        requires
            q == m as int / d as int,
    ;
}

impl ConstantTexture {
    pub fn new(color: Color) -> (r: ConstantTexture)
        ensures
            r == (ConstantTexture { color }),
    {
        ConstantTexture { color }
    }

    /// The colour at a point: the one colour, wherever the point lies.
    pub fn value(&self, u: Scalar, v: Scalar, p: &Point3) -> (r: Color)
        ensures
            r == self.color,
    {
        self.color
    }
}

impl CheckerTexture {
    /// A texture of cubes. `inverse` is one over the edge of a cube.
    pub fn new(odd: Box<Texture>, even: Box<Texture>, inverse: Scalar) -> (r: CheckerTexture)
        ensures
            r == (CheckerTexture { odd, even, scale: inverse }),
    {
        CheckerTexture { odd, even, scale: inverse }
    }

    /// The texture that colours a point. `scaled` is the point with each
    /// coordinate multiplied by the scale of the texture: in an even cube the
    /// even texture colours it, in an odd cube the odd one.
    pub fn value(&self, u: Scalar, v: Scalar, p: &Point3, scaled: &Point3) -> (r: &Texture)
        ensures
            *r == (if spec_even_cell(*scaled) {
                *self.even
            } else {
                *self.odd
            }),
    {
        let x = cell(scaled.x());
        let y = cell(scaled.y());
        let z = cell(scaled.z());
        let is_even = (x as i64 + y as i64 + z as i64) % 2 == 0;
        if is_even {
            &*self.even
        } else {
            &*self.odd
        }
    }
}

} // verus!
