use vstd::prelude::*;

verus! {

/// The quotient rounded towards minus infinity.
pub open spec fn floor_div(a: int, b: int) -> int
    recommends
        b > 0,
{
    a / b
}

/// The quotient of `a` by a positive `b`, rounded towards minus infinity.
pub fn floor_div_i128(a: i128, b: i128) -> (q: i128)
    requires
        b > 0,
        -0x4000_0000_0000_0000_0000_0000_0000_0000 <= a <= 0x4000_0000_0000_0000_0000_0000_0000_0000,
    ensures
        q == floor_div(a as int, b as int),
        q * b <= a < q * b + b,
{
    if a >= 0 {
        let q = a / b;
        proof {
            lemma_floor_div_bounds(a as int, b as int);
        }
        q
    } else {
        let m: i128 = -a;
        let up = m / b;
        let rest = m % b;
        proof {
            lemma_floor_div_bounds(a as int, b as int);
            lemma_floor_div_bounds(m as int, b as int);
            assert((-up) * b == -(up * b) && (-up - 1) * b == -(up * b) - b) by (nonlinear_arith);
            lemma_floor_div_unique(a as int, b as int, if rest == 0 { -up } else { -up - 1 });
        }
        if rest == 0 {
            -up
        } else {
            -up - 1
        }
    }
}

/// The floor quotient lies within one divisor below the dividend.
pub proof fn lemma_floor_div_bounds(a: int, b: int)
    requires
        b > 0,
    ensures
        floor_div(a, b) * b <= a < floor_div(a, b) * b + b,
        a == floor_div(a, b) * b + a % b,
        0 <= a % b < b,
        a >= 0 ==> 0 <= floor_div(a, b) <= a,
{
    vstd::arithmetic::div_mod::lemma_fundamental_div_mod(a, b);
    vstd::arithmetic::div_mod::lemma_mod_bound(a, b);
    assert(b * (a / b) == (a / b) * b) by (nonlinear_arith);
    if a >= 0 {
        vstd::arithmetic::div_mod::lemma_div_pos_is_pos(a, b);
        vstd::arithmetic::div_mod::lemma_div_is_ordered_by_denominator(a, 1, b);
        vstd::arithmetic::div_mod::lemma_div_basics(a);
    }
}

/// Only one quotient lies within one divisor below the dividend.
pub proof fn lemma_floor_div_unique(a: int, b: int, q: int)
    requires
        b > 0,
        q * b <= a < q * b + b,
    ensures
        q == floor_div(a, b),
{
    lemma_floor_div_bounds(a, b);
    let p = floor_div(a, b);
    assert(p == q) by (nonlinear_arith)
        requires
            b > 0,
            q * b <= a < q * b + b,
            p * b <= a < p * b + b,
    ;
}

} // verus!
