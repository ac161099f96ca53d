use vstd::prelude::*;

verus! {

/// The remainder of a division by a positive number that rounds towards
/// zero: it has the sign of the dividend.
pub open spec fn truncated_rem(a: int, d: int) -> int {
    if a >= 0 {
        a % d
    } else {
        -((-a) % d)
    }
}

/// A raw draw brought into a range: its remainder by the width of the range,
/// moved up by the lower end.
pub open spec fn spec_random_int(raw: i64, min: i64, max: i64) -> int {
    truncated_rem(raw as int, max - min) + min
}

/// The range is not empty, and the computation of `spec_random_int` fits the
/// machine for every draw: the width fits, and so does the lower end moved
/// down by anything short of the width.
pub open spec fn range_fits(min: i64, max: i64) -> bool {
    &&& min < max
    &&& max - min <= i64::MAX
    &&& i64::MIN < 2 * min - max + 1
}

/// A uniform draw from all 64-bit integers. `rand::random` promises nothing
/// of a single draw, and nothing is claimed here.
#[verifier::external_body]
fn random_i64() -> (r: i64) {
    rand::random::<i64>()
}

/// Brings a raw draw into a range. A draw that is not negative lands in
/// `[min, max)`; a negative one lands below `min`, by less than the width.
pub fn random_int_from(raw: i64, min: i64, max: i64) -> (r: i64)
    requires
        range_fits(min, max),
    ensures
        r == spec_random_int(raw, min, max),
        2 * min - max < r < max,
        raw >= 0 ==> min <= r,
        raw < 0 ==> r <= min,
{
    let width = max - min;
    let rest = raw % width;
    rest + min
}

/// A random integer: a uniform draw from all 64-bit integers, brought into
/// the range by `random_int_from`.
pub fn random_int(min: i64, max: i64) -> (r: i64)
    requires
        range_fits(min, max),
    ensures
        exists|raw: i64| r == spec_random_int(raw, min, max),
        2 * min - max < r < max,
{
    let raw = random_i64();
    random_int_from(raw, min, max)
}

} // verus!
