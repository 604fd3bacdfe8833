//! Powers of ten and Rust's truncating division, stated over `int`.
use vstd::prelude::*;

verus! {

/// `10^n`.
pub open spec fn pow10(n: nat) -> int
    decreases n,
{
    if n == 0 {
        1
    } else {
        10 * pow10((n - 1) as nat)
    }
}

/// The quotient of `a` by `b` rounded toward zero, as Rust's `/` computes it.
pub open spec fn div_toward_zero(a: int, b: int) -> int {
    if a >= 0 {
        a / b
    } else {
        -((-a) / b)
    }
}

/// The remainder that goes with `div_toward_zero`: it has the sign of `a`.
pub open spec fn rem_toward_zero(a: int, b: int) -> int {
    a - b * div_toward_zero(a, b)
}

/// `rem_toward_zero` in terms of the Euclidean `%`.
pub proof fn lemma_rem_toward_zero(a: int, b: int)
    requires
        b != 0,
    ensures
        rem_toward_zero(a, b) == if a >= 0 {
            a % b
        } else {
            -((-a) % b)
        },
{
    if a >= 0 {
        vstd::arithmetic::div_mod::lemma_fundamental_div_mod(a, b);
    } else {
        let q = (-a) / b;
        vstd::arithmetic::div_mod::lemma_fundamental_div_mod(-a, b);
        assert(b * (-q) == -(b * q)) by (nonlinear_arith);
    }
}

/// The multiple of `b` that `div_toward_zero` takes lies between zero and `a`,
/// and so does the quotient itself.
pub proof fn lemma_div_toward_zero_bounds(a: int, b: int)
    requires
        b != 0,
    ensures
        a >= 0 ==> 0 <= b * div_toward_zero(a, b) <= a,
        a < 0 ==> a <= b * div_toward_zero(a, b) <= 0,
        a >= 0 ==> -a <= div_toward_zero(a, b) <= a,
        a < 0 ==> a <= div_toward_zero(a, b) <= -a,
{
    let m = if a >= 0 { a } else { -a };
    let q = m / b;
    let r = m % b;
    let c = if b > 0 { b } else { -b };
    vstd::arithmetic::div_mod::lemma_fundamental_div_mod(m, b);
    assert(0 <= r < c);
    assert(0 <= b * q <= m) by (nonlinear_arith)
        requires
            m == b * q + r,
            0 <= r < c,
            c == b || c == -b,
            c > 0,
            m >= 0,
    ;
    assert(-m <= q <= m) by (nonlinear_arith)
        requires
            0 <= b * q <= m,
            b != 0,
    ;
    if a < 0 {
        assert(b * (-q) == -(b * q)) by (nonlinear_arith);
    }
}

pub proof fn lemma_pow10_positive(n: nat)
    ensures
        pow10(n) >= 1,
    decreases n,
{
    if n > 0 {
        lemma_pow10_positive((n - 1) as nat);
    }
}

pub proof fn lemma_pow10_add(m: nat, n: nat)
    ensures
        pow10(m + n) == pow10(m) * pow10(n),
    decreases n,
{
    if n > 0 {
        lemma_pow10_add(m, (n - 1) as nat);
        assert(pow10(m + n) == 10 * pow10((m + n - 1) as nat));
        assert(pow10(m) * (10 * pow10((n - 1) as nat)) == 10 * (pow10(m) * pow10((n - 1) as nat)))
            by (nonlinear_arith);
    }
}

/// A larger power of ten is a multiple of a smaller one, so it is at least as large.
pub proof fn lemma_pow10_monotonic(m: nat, n: nat)
    requires
        m <= n,
    ensures
        pow10(m) <= pow10(n),
{
    lemma_pow10_add(m, (n - m) as nat);
    lemma_pow10_positive(m);
    lemma_pow10_positive((n - m) as nat);
    assert(pow10(m) * pow10((n - m) as nat) >= pow10(m) * 1) by (nonlinear_arith)
        requires
            pow10(m) >= 1,
            pow10((n - m) as nat) >= 1,
    ;
}

/// Dividing toward zero twice is dividing once by the product.
pub proof fn lemma_div_toward_zero_twice(a: int, p: int, q: int)
    requires
        p > 0,
        q > 0,
    ensures
        div_toward_zero(div_toward_zero(a, p), q) == div_toward_zero(a, p * q),
{
    vstd::arithmetic::div_mod::lemma_div_pos_is_pos(if a >= 0 { a } else { -a }, p);
    if a >= 0 {
        vstd::arithmetic::div_mod::lemma_div_denominator(a, p, q);
    } else {
        vstd::arithmetic::div_mod::lemma_div_denominator(-a, p, q);
        if (-a) / p == 0 {
            assert(0int / q == 0);
        }
    }
}

/// Dividing toward zero never moves away from zero.
pub proof fn lemma_div_toward_zero_shrinks(a: int, p: int)
    requires
        p >= 1,
    ensures
        a >= 0 ==> 0 <= div_toward_zero(a, p) <= a,
        a < 0 ==> a <= div_toward_zero(a, p) <= 0,
{
    let m = if a >= 0 { a } else { -a };
    vstd::arithmetic::div_mod::lemma_div_pos_is_pos(m, p);
    vstd::arithmetic::div_mod::lemma_div_is_ordered_by_denominator(m, 1, p);
}

} // verus!
