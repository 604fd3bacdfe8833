//! `+ - * / %` on decimals. Each operator first brings its operands to a
//! common scale (the larger of the two), except `*`, which adds the scales.
use vstd::prelude::*;

use crate::math::{div_toward_zero, lemma_rem_toward_zero, rem_toward_zero};
use crate::value::{in_i64, Decimal};

verus! {

impl Decimal {
    /// The larger of the two scales: the one that `+`, `-`, `/` and `%` work at.
    pub open spec fn common_scale(self, other: Decimal) -> u32 {
        if self.scale >= other.scale {
            self.scale
        } else {
            other.scale
        }
    }
}

impl core::ops::Add for Decimal {
    type Output = Decimal;

    fn add(self, other: Decimal) -> Decimal {
        let s = if self.scale >= other.scale { self.scale } else { other.scale };
        let a = self.adjust_scale(s);
        let b = other.adjust_scale(s);
        Decimal::new(a.unscaled + b.unscaled, s)
    }
}

impl vstd::std_specs::ops::AddSpecImpl for Decimal {
    open spec fn obeys_add_spec() -> bool {
        true
    }

    /// Both operands fit at the common scale, and so does their sum.
    open spec fn add_req(self, other: Decimal) -> bool {
        let s = self.common_scale(other);
        &&& self.can_rescale(s)
        &&& other.can_rescale(s)
        &&& in_i64(self.rescaled(s) + other.rescaled(s))
    }

    open spec fn add_spec(self, other: Decimal) -> Decimal {
        let s = self.common_scale(other);
        Decimal { unscaled: (self.rescaled(s) + other.rescaled(s)) as i64, scale: s }
    }
}

impl core::ops::Sub for Decimal {
    type Output = Decimal;

    fn sub(self, other: Decimal) -> Decimal {
        let s = if self.scale >= other.scale { self.scale } else { other.scale };
        let a = self.adjust_scale(s);
        let b = other.adjust_scale(s);
        Decimal::new(a.unscaled - b.unscaled, s)
    }
}

impl vstd::std_specs::ops::SubSpecImpl for Decimal {
    open spec fn obeys_sub_spec() -> bool {
        true
    }

    /// Both operands fit at the common scale, and so does their difference.
    open spec fn sub_req(self, other: Decimal) -> bool {
        let s = self.common_scale(other);
        &&& self.can_rescale(s)
        &&& other.can_rescale(s)
        &&& in_i64(self.rescaled(s) - other.rescaled(s))
    }

    open spec fn sub_spec(self, other: Decimal) -> Decimal {
        let s = self.common_scale(other);
        Decimal { unscaled: (self.rescaled(s) - other.rescaled(s)) as i64, scale: s }
    }
}

impl core::ops::Mul for Decimal {
    type Output = Decimal;

    fn mul(self, other: Decimal) -> Decimal {
        Decimal::new(self.unscaled * other.unscaled, self.scale + other.scale)
    }
}

impl vstd::std_specs::ops::MulSpecImpl for Decimal {
    open spec fn obeys_mul_spec() -> bool {
        true
    }

    /// The product of the unscaled values fits in `i64`, the sum of the
    /// scales in `u32`.
    open spec fn mul_req(self, other: Decimal) -> bool {
        &&& in_i64(self.unscaled * other.unscaled)
        &&& self.scale + other.scale <= u32::MAX
    }

    open spec fn mul_spec(self, other: Decimal) -> Decimal {
        Decimal {
            unscaled: (self.unscaled * other.unscaled) as i64,
            scale: (self.scale + other.scale) as u32,
        }
    }
}

impl core::ops::Mul<i64> for Decimal {
    type Output = Decimal;

    fn mul(self, i: i64) -> Decimal {
        Decimal::new(self.unscaled * i, self.scale)
    }
}

impl vstd::std_specs::ops::MulSpecImpl<i64> for Decimal {
    open spec fn obeys_mul_spec() -> bool {
        true
    }

    open spec fn mul_req(self, i: i64) -> bool {
        in_i64(self.unscaled * i)
    }

    open spec fn mul_spec(self, i: i64) -> Decimal {
        Decimal { unscaled: (self.unscaled * i) as i64, scale: self.scale }
    }
}

impl core::ops::Mul<Decimal> for i64 {
    type Output = Decimal;

    fn mul(self, d: Decimal) -> Decimal {
        Decimal::new(self * d.unscaled, d.scale)
    }
}

impl vstd::std_specs::ops::MulSpecImpl<Decimal> for i64 {
    open spec fn obeys_mul_spec() -> bool {
        true
    }

    open spec fn mul_req(self, d: Decimal) -> bool {
        in_i64(self * d.unscaled)
    }

    open spec fn mul_spec(self, d: Decimal) -> Decimal {
        Decimal { unscaled: (self * d.unscaled) as i64, scale: d.scale }
    }
}

impl core::ops::Div for Decimal {
    type Output = Decimal;

    fn div(self, other: Decimal) -> Decimal {
        let s = if other.scale > self.scale {
            self.adjust_scale(other.scale)
        } else {
            self
        };
        Decimal::new(s.unscaled / other.unscaled, s.scale - other.scale)
    }
}

impl vstd::std_specs::ops::DivSpecImpl for Decimal {
    open spec fn obeys_div_spec() -> bool {
        true
    }

    /// The divisor is not zero, the dividend fits at the common scale, and
    /// the quotient fits in `i64`.
    open spec fn div_req(self, other: Decimal) -> bool {
        let s = self.common_scale(other);
        &&& other.unscaled != 0
        &&& self.can_rescale(s)
        &&& !(self.rescaled(s) == i64::MIN && other.unscaled == -1)
    }

    /// The dividend is never scaled down: the quotient's scale is the
    /// dividend's (raised to the divisor's) less the divisor's.
    open spec fn div_spec(self, other: Decimal) -> Decimal {
        let s = self.common_scale(other);
        Decimal {
            unscaled: div_toward_zero(self.rescaled(s), other.unscaled as int) as i64,
            scale: (s - other.scale) as u32,
        }
    }
}

impl core::ops::Rem for Decimal {
    type Output = Decimal;

    fn rem(self, other: Decimal) -> Decimal {
        let s = if other.scale > self.scale {
            self.adjust_scale(other.scale)
        } else {
            self
        };
        proof {
            lemma_rem_toward_zero(s.unscaled as int, other.unscaled as int);
        }
        Decimal::new(s.unscaled % other.unscaled, s.scale)
    }
}

impl vstd::std_specs::ops::RemSpecImpl for Decimal {
    open spec fn obeys_rem_spec() -> bool {
        true
    }

    /// As for `/`: the divisor is not zero, the dividend fits at the common
    /// scale, and the quotient that goes with the remainder fits in `i64`.
    open spec fn rem_req(self, other: Decimal) -> bool {
        let s = self.common_scale(other);
        &&& other.unscaled != 0
        &&& self.can_rescale(s)
        &&& !(self.rescaled(s) == i64::MIN && other.unscaled == -1)
    }

    /// Unlike the quotient, the remainder keeps the dividend's scale (raised
    /// to the divisor's), so that `q * divisor + r` is at the dividend's.
    open spec fn rem_spec(self, other: Decimal) -> Decimal {
        let s = self.common_scale(other);
        Decimal {
            unscaled: rem_toward_zero(self.rescaled(s), other.unscaled as int) as i64,
            scale: s,
        }
    }
}

} // verus!
