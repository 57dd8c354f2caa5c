use vstd::prelude::*;

verus! {

/// The fixed-point value of 1.0: every fractional quantity of the model is
/// stored as an `i32` holding its value times `FIXED_ONE` (16.16 format).
pub const FIXED_ONE: i32 = 65536;

/// Floor division of a (possibly negative) integer by a positive divisor.
pub open spec fn floor_div(a: int, d: int) -> int
    recommends
        d > 0,
{
    a / d
}

/// Exact floor division of an `i64` by a positive `i64`.
pub fn div_floor(a: i64, d: i64) -> (r: i64)
    requires
        d > 0,
    ensures
        r == floor_div(a as int, d as int),
{
    if a >= 0 {
        a / d
    } else {
        let na: i64 = -(a + 1);
        let q: i64 = na / d;
        proof {
            let ai = a as int;
            let di = d as int;
            let qi = q as int;
            assert(na as int == -ai - 1);
            assert(qi == (-ai - 1) / di);
            vstd::arithmetic::div_mod::lemma_fundamental_div_mod(-ai - 1, di);
            assert(0 <= (-ai - 1) % di < di);
            assert(ai == (-qi - 1) * di + (di - 1 - (-ai - 1) % di)) by (nonlinear_arith)
                requires
                    (-ai - 1) == di * qi + (-ai - 1) % di,
            ;
            vstd::arithmetic::div_mod::lemma_fundamental_div_mod_converse(
                ai,
                di,
                -qi - 1,
                di - 1 - (-ai - 1) % di,
            );
        }
        -q - 1
    }
}

} // verus!
