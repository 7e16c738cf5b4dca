use vstd::prelude::*;

verus! {

/// The largest multiple of `step` that is not above `value`.
pub open spec fn spec_trunc_towards_neg_inf(value: int, step: int) -> int {
    (value / step) * step
}

/// Rounds `value` down to a multiple of `step` (towards negative infinity, also for negative
/// values).
pub fn trunc_towards_neg_inf(value: i32, step: i32) -> (result: i32)
    requires
        step > 0,
        spec_trunc_towards_neg_inf(value as int, step as int) >= i32::MIN,
    ensures
        result == spec_trunc_towards_neg_inf(value as int, step as int),
        result <= value < result + step,
{
    let v: i64 = value as i64;
    let s: i64 = step as i64;
    let shift: i64 = 2147483648;
    let shifted: i64 = v + shift * s;
    let q: i64 = shifted / s;
    assert(q - shift == v / s) by (nonlinear_arith)
        requires
            s > 0,
            shifted == v + shift * s,
            shifted >= 0,
            q == shifted / s,
    ;
    assert(0 <= v - (v / s) * s < s) by (nonlinear_arith)
        requires
            s > 0,
    ;
    assert((v / s) * s <= v);
    let quotient: i64 = q - shift;
    assert(-2147483648 <= quotient <= 2147483647) by (nonlinear_arith)
        requires
            s >= 1,
            quotient == v / s,
            -2147483648 <= v <= 2147483647,
    ;
    assert(quotient * s <= v) by (nonlinear_arith)
        requires
            s > 0,
            quotient == v / s,
            0 <= v - (v / s) * s,
    ;
    (quotient * s) as i32
}

} // verus!
