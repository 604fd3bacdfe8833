//! The `Decimal` value type: an unscaled `i64` over a power of ten given by a
//! `u32` scale, and the change of scale on which all arithmetic rests.
use vstd::prelude::*;

use crate::math::{
    div_toward_zero, lemma_div_toward_zero_shrinks, lemma_div_toward_zero_twice, lemma_pow10_add,
    lemma_pow10_monotonic, lemma_pow10_positive, pow10,
};

verus! {

/// A decimal number `unscaled / 10^scale`.
///
/// `==` compares the two fields: `1.0` written as `(10, 1)` and as `(100, 2)`
/// are different values that compare as equal under `partial_cmp`.
#[derive(Debug, Clone, Copy, PartialEq, Eq, Structural)]
pub struct Decimal {
    pub unscaled: i64,
    pub scale: u32,
}

/// `n` fits in an `i64`.
pub open spec fn in_i64(n: int) -> bool {
    i64::MIN <= n <= i64::MAX
}

impl Decimal {
    /// The unscaled value that stands for `self` at scale `new_scale`:
    /// multiplied up exactly, or divided down toward zero.
    pub open spec fn rescaled(self, new_scale: u32) -> int {
        if new_scale >= self.scale {
            self.unscaled * pow10((new_scale - self.scale) as nat)
        } else {
            div_toward_zero(self.unscaled as int, pow10((self.scale - new_scale) as nat))
        }
    }

    /// `self` can be written at scale `new_scale` without overflow.
    pub open spec fn can_rescale(self, new_scale: u32) -> bool {
        in_i64(self.rescaled(new_scale))
    }

    /// `self` written at scale `new_scale`.
    pub open spec fn spec_adjust_scale(self, new_scale: u32) -> Decimal {
        Decimal { unscaled: self.rescaled(new_scale) as i64, scale: new_scale }
    }

    /// The decimal `unscaled / 10^scale`.
    pub fn new(unscaled: i64, scale: u32) -> (r: Decimal)
        ensures
            r.unscaled == unscaled,
            r.scale == scale,
    {
        Decimal { unscaled: unscaled, scale: scale }
    }

    /// `self` at scale `new_scale`, or `None` where the unscaled value would
    /// leave the range of `i64`. Digits dropped by a smaller scale are
    /// truncated, not rounded.
    pub fn checked_adjust_scale(&self, new_scale: u32) -> (r: Option<Decimal>)
        ensures
            self.can_rescale(new_scale) ==> r == Some(self.spec_adjust_scale(new_scale)),
            !self.can_rescale(new_scale) ==> r is None,
    {
        if self.scale == new_scale {
            assert(pow10(0) == 1);
            Some(*self)
        } else if self.scale > new_scale {
            let unscaled = downscale(self.unscaled, self.scale - new_scale);
            Some(Decimal::new(unscaled, new_scale))
        } else {
            match upscale(self.unscaled, new_scale - self.scale) {
                Some(unscaled) => Some(Decimal::new(unscaled, new_scale)),
                None => None,
            }
        }
    }

    /// `self` at scale `new_scale`: digits are added on the right, or those
    /// beyond the new scale are dropped (truncated toward zero).
    pub fn adjust_scale(&self, new_scale: u32) -> (r: Decimal)
        requires
            self.can_rescale(new_scale),
        ensures
            r == self.spec_adjust_scale(new_scale),
    {
        self.checked_adjust_scale(new_scale).unwrap()
    }
}

/// `n` divided by `10^down_by`, rounded toward zero.
fn downscale(n: i64, down_by: u32) -> (r: i64)
    ensures
        r == div_toward_zero(n as int, pow10(down_by as nat)),
{
    let mut result: i64 = n;
    let mut i: u32 = 0;
    proof {
        lemma_div_toward_zero_shrinks(n as int, 1);
    }
    while i < down_by && result != 0
        invariant
            i <= down_by,
            result == div_toward_zero(n as int, pow10(i as nat)),
        decreases down_by - i,
    {
        proof {
            lemma_pow10_positive(i as nat);
            lemma_div_toward_zero_twice(n as int, pow10(i as nat), 10);
            lemma_pow10_add(i as nat, 1);
            lemma_div_toward_zero_shrinks(result as int, 10);
            assert(pow10(0) == 1);
            assert(pow10(1) == 10);
        }
        result = result / 10;
        i = i + 1;
    }
    proof {
        if i < down_by {
            let rest = (down_by - i) as nat;
            lemma_pow10_positive(i as nat);
            lemma_pow10_positive(rest);
            lemma_div_toward_zero_twice(n as int, pow10(i as nat), pow10(rest));
            lemma_pow10_add(i as nat, rest);
            assert(div_toward_zero(0, pow10(rest)) == 0);
        }
    }
    result
}

/// `n` multiplied by `10^up_by`, or `None` where that leaves the range of `i64`.
fn upscale(n: i64, up_by: u32) -> (r: Option<i64>)
    ensures
        in_i64(n * pow10(up_by as nat)) ==> r == Some((n * pow10(up_by as nat)) as i64),
        !in_i64(n * pow10(up_by as nat)) ==> r is None,
{
    let mut result: i64 = n;
    let mut i: u32 = 0;
    while i < up_by && result != 0
        invariant
            i <= up_by,
            result == n * pow10(i as nat),
        decreases up_by - i,
    {
        proof {
            lemma_pow10_add(i as nat, 1);
            assert(pow10(0) == 1);
            assert(pow10(1) == 10);
            assert(n * (pow10(i as nat) * 10) == (n * pow10(i as nat)) * 10) by (nonlinear_arith);
        }
        match result.checked_mul(10) {
            Some(next) => {
                result = next;
            },
            None => {
                proof {
                    lemma_scaled_out_of_range(n as int, (i + 1) as nat, up_by as nat);
                }
                return None;
            },
        }
        i = i + 1;
    }
    proof {
        if i < up_by {
            lemma_pow10_positive(i as nat);
            assert(n == 0) by (nonlinear_arith)
                requires
                    n * pow10(i as nat) == 0,
                    pow10(i as nat) >= 1,
            ;
            assert(n * pow10(up_by as nat) == 0) by (nonlinear_arith)
                requires
                    n == 0,
            ;
        }
    }
    Some(result)
}

/// Once `n * 10^i` is out of range, so is `n * 10^j` for every larger `j`.
proof fn lemma_scaled_out_of_range(n: int, i: nat, j: nat)
    requires
        i <= j,
        !in_i64(n * pow10(i)),
    ensures
        !in_i64(n * pow10(j)),
{
    lemma_pow10_monotonic(i, j);
    lemma_pow10_positive(i);
    if n >= 0 {
        assert(0 <= n * pow10(i) <= n * pow10(j)) by (nonlinear_arith)
            requires
                n >= 0,
                1 <= pow10(i) <= pow10(j),
        ;
    } else {
        assert(0 > n * pow10(i) >= n * pow10(j)) by (nonlinear_arith)
            requires
                n < 0,
                1 <= pow10(i) <= pow10(j),
        ;
    }
}

} // verus!
