//! Ordering of decimals by the number they stand for, whatever their scales.
use vstd::prelude::*;

use core::cmp::Ordering;

use crate::math::{lemma_pow10_add, lemma_pow10_positive, pow10};
use crate::value::Decimal;

verus! {

/// The order of two integers.
pub open spec fn compare_int(a: int, b: int) -> Ordering {
    if a < b {
        Ordering::Less
    } else if a > b {
        Ordering::Greater
    } else {
        Ordering::Equal
    }
}

impl Decimal {
    /// The order of the numbers that `self` and `other` stand for:
    /// `self.unscaled / 10^self.scale` against `other.unscaled / 10^other.scale`,
    /// both sides multiplied by `10^(self.scale + other.scale)`.
    pub open spec fn compare(self, other: Decimal) -> Ordering {
        compare_int(self.unscaled * pow10(other.scale as nat), other.unscaled * pow10(self.scale as nat))
    }
}

fn compare_i64(a: i64, b: i64) -> (r: Ordering)
    ensures
        r == compare_int(a as int, b as int),
{
    if a < b {
        Ordering::Less
    } else if a > b {
        Ordering::Greater
    } else {
        Ordering::Equal
    }
}

/// Multiplying both sides by the same power of ten keeps their order.
proof fn lemma_compare_scaled(x: int, y: int, d: nat, base: nat)
    ensures
        compare_int(x, y * pow10(d)) == compare_int(x * pow10(base), y * pow10(base + d)),
{
    let p = pow10(base);
    let z = y * pow10(d);
    lemma_pow10_positive(base);
    lemma_pow10_add(base, d);
    assert(y * pow10(base + d) == z * p) by (nonlinear_arith)
        requires
            pow10(base + d) == p * pow10(d),
            z == y * pow10(d),
    ;
    assert(x < z <==> x * p < z * p) by (nonlinear_arith)
        requires
            p >= 1,
    ;
    assert(x > z <==> x * p > z * p) by (nonlinear_arith)
        requires
            p >= 1,
    ;
}

/// Where `smaller` (the operand of smaller scale) cannot be raised to the
/// other's scale, it lies beyond every `i64`, on the side of its sign.
fn compare_raised(larger: i64, smaller: &Decimal, scale: u32) -> (r: Ordering)
    requires
        smaller.scale < scale,
    ensures
        r == compare_int(larger as int, smaller.rescaled(scale)),
{
    match smaller.checked_adjust_scale(scale) {
        Some(raised) => compare_i64(larger, raised.unscaled),
        None => {
            if smaller.unscaled > 0 {
                proof {
                    lemma_pow10_positive((scale - smaller.scale) as nat);
                    assert(smaller.unscaled * pow10((scale - smaller.scale) as nat) > 0)
                        by (nonlinear_arith)
                        requires
                            smaller.unscaled > 0,
                            pow10((scale - smaller.scale) as nat) >= 1,
                    ;
                }
                Ordering::Less
            } else {
                proof {
                    lemma_pow10_positive((scale - smaller.scale) as nat);
                    assert(smaller.unscaled * pow10((scale - smaller.scale) as nat) <= 0)
                        by (nonlinear_arith)
                        requires
                            smaller.unscaled <= 0,
                            pow10((scale - smaller.scale) as nat) >= 1,
                    ;
                }
                Ordering::Greater
            }
        },
    }
}

/// Decimals are ordered by the numbers they stand for, so `(1, 0)` and
/// `(10, 1)` compare `Equal` though they are not `==`. Every two decimals are
/// comparable: `partial_cmp` never returns `None`.
impl PartialOrd for Decimal {
    fn partial_cmp(&self, other: &Decimal) -> Option<Ordering> {
        if self.scale == other.scale {
            proof {
                lemma_compare_scaled(self.unscaled as int, other.unscaled as int, 0, self.scale as nat);
                assert(pow10(0) == 1);
            }
            Some(compare_i64(self.unscaled, other.unscaled))
        } else if self.scale > other.scale {
            proof {
                lemma_compare_scaled(
                    self.unscaled as int,
                    other.unscaled as int,
                    (self.scale - other.scale) as nat,
                    other.scale as nat,
                );
            }
            Some(compare_raised(self.unscaled, other, self.scale))
        } else {
            let r = compare_raised(other.unscaled, self, other.scale);
            proof {
                lemma_compare_scaled(
                    other.unscaled as int,
                    self.unscaled as int,
                    (other.scale - self.scale) as nat,
                    self.scale as nat,
                );
            }
            Some(
                match r {
                    Ordering::Less => Ordering::Greater,
                    Ordering::Greater => Ordering::Less,
                    Ordering::Equal => Ordering::Equal,
                },
            )
        }
    }
}

impl vstd::std_specs::cmp::PartialOrdSpecImpl for Decimal {
    open spec fn obeys_partial_cmp_spec() -> bool {
        true
    }

    open spec fn partial_cmp_spec(&self, other: &Decimal) -> Option<Ordering> {
        Some(self.compare(*other))
    }
}

} // verus!
