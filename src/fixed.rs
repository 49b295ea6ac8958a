use vstd::prelude::*;

verus! {

/// The fixed-point unit: a field value or a colormap position of `ONE`
/// stands for the real number `1.0`.
pub const ONE: i64 = 65536;

/// Remaps a value of the nominal range `[-ONE, ONE]` onto `[0, ONE]`, that is
/// `(v + 1) / 2`, rounding down; values below `-ONE` go to `0`.
pub open spec fn unit_to_t(v: int) -> int {
    if v + ONE <= 0 {
        0
    } else {
        (v + ONE) / 2
    }
}

/// Executable form of `unit_to_t` on a sample.
pub fn remap_unit(v: i32) -> (t: i64)
    ensures
        t == unit_to_t(v as int),
        0 <= t,
{
    let s: i64 = v as i64 + ONE;
    if s <= 0 {
        0
    } else {
        ((s as u64) / 2) as i64
    }
}

} // verus!
