//! Reading a decimal literal: an optional leading `-`, then digits with at
//! most one meaningful `.` among them.
use vstd::prelude::*;

use crate::value::{in_i64, Decimal};

verus! {

/// Why a string is not a decimal literal.
#[derive(Debug, Clone, Copy, PartialEq, Eq, Structural)]
pub enum DecimalErrorKind {
    /// The string has no characters.
    Empty,
    /// A character is neither a digit, nor `.`, nor a `-` in first place.
    InvalidDigit,
    /// The digits stand for an unscaled value beyond `i64`, or there are more
    /// digits after the point than a `u32` scale can count.
    Overflow,
}

/// The error of `Decimal::from_str`.
#[derive(Debug, Clone, Copy, PartialEq, Eq, Structural)]
pub struct ParseDecimalError {
    pub kind: DecimalErrorKind,
}

/// The text that `ParseDecimalError::description` gives for each kind.
pub open spec fn kind_description(kind: DecimalErrorKind) -> Seq<char> {
    match kind {
        DecimalErrorKind::Empty => "cannot parse decimal from empty string"@,
        DecimalErrorKind::InvalidDigit => "invalid character found in string"@,
        DecimalErrorKind::Overflow => "number too large to fit in a decimal"@,
    }
}

impl ParseDecimalError {
    /// A sentence that says what went wrong.
    pub fn description(&self) -> (r: &'static str)
        ensures
            r@ == kind_description(self.kind),
    {
        match self.kind {
            DecimalErrorKind::Empty => "cannot parse decimal from empty string",
            DecimalErrorKind::InvalidDigit => "invalid character found in string",
            DecimalErrorKind::Overflow => "number too large to fit in a decimal",
        }
    }
}

/// An ASCII decimal digit.
pub open spec fn is_digit(c: char) -> bool {
    '0' <= c <= '9'
}

/// The value of an ASCII decimal digit.
pub open spec fn digit_value(c: char) -> nat {
    (c as u32 - '0' as u32) as nat
}

/// `c`, at position `i`, may stand in a decimal literal: a digit, a `.`, or a
/// `-` in first place.
pub open spec fn is_literal_char(c: char, i: int) -> bool {
    is_digit(c) || c == '.' || (c == '-' && i == 0)
}

/// Every character of `s` may stand where it is.
pub open spec fn all_literal_chars(s: Seq<char>) -> bool {
    forall|i: int| 0 <= i < s.len() ==> is_literal_char(#[trigger] s[i], i)
}

/// The number that the digits of `s` spell, read left to right; other
/// characters are passed over.
pub open spec fn digits_value(s: Seq<char>) -> nat
    decreases s.len(),
{
    if s.len() == 0 {
        0
    } else if is_digit(s.last()) {
        10 * digits_value(s.drop_last()) + digit_value(s.last())
    } else {
        digits_value(s.drop_last())
    }
}

/// The number of digits of `s` that follow a `.`.
pub open spec fn fraction_digits(s: Seq<char>) -> nat
    decreases s.len(),
{
    if s.len() == 0 {
        0
    } else if is_digit(s.last()) && s.drop_last().contains('.') {
        fraction_digits(s.drop_last()) + 1
    } else {
        fraction_digits(s.drop_last())
    }
}

/// `s` starts with `-`.
pub open spec fn is_negative_literal(s: Seq<char>) -> bool {
    s.len() > 0 && s[0] == '-'
}

/// The unscaled value that `s` spells, with its sign.
pub open spec fn literal_unscaled(s: Seq<char>) -> int {
    if is_negative_literal(s) {
        -digits_value(s)
    } else {
        digits_value(s) as int
    }
}

/// The unscaled value of `s` fits in `i64` and its scale in `u32`.
pub open spec fn literal_in_range(s: Seq<char>) -> bool {
    in_i64(literal_unscaled(s)) && fraction_digits(s) <= u32::MAX
}

/// What reading `s` gives: `Empty` for no characters, `InvalidDigit` where a
/// character may not stand where it is, `Overflow` where the value is out of
/// range, and otherwise the decimal spelled, its scale being the number of
/// digits after the point. Degenerate literals such as `"-"`, `"."`, `"-."`
/// and `"1."` are accepted.
pub open spec fn spec_parse(s: Seq<char>) -> Result<Decimal, ParseDecimalError> {
    if s.len() == 0 {
        Err(ParseDecimalError { kind: DecimalErrorKind::Empty })
    } else if !all_literal_chars(s) {
        Err(ParseDecimalError { kind: DecimalErrorKind::InvalidDigit })
    } else if !literal_in_range(s) {
        Err(ParseDecimalError { kind: DecimalErrorKind::Overflow })
    } else {
        Ok(Decimal { unscaled: literal_unscaled(s) as i64, scale: fraction_digits(s) as u32 })
    }
}

/// Adding one more character to a literal keeps the sign it had and never
/// shrinks its digits or its scale.
proof fn lemma_literal_grows(p: Seq<char>, c: char)
    requires
        p.len() > 0,
    ensures
        is_negative_literal(p.push(c)) == is_negative_literal(p),
        digits_value(p.push(c)) >= digits_value(p),
        fraction_digits(p.push(c)) >= fraction_digits(p),
{
    assert(p.push(c).drop_last() =~= p);
    assert(p.push(c)[0] == p[0]);
}

impl Decimal {
    /// Reads a decimal literal in one pass from left to right: digits build
    /// the unscaled value, a `-` in first place makes it negative, and each
    /// digit after a `.` adds one to the scale.
    pub fn parse(s: &str) -> (r: Result<Decimal, ParseDecimalError>)
        ensures
            r == spec_parse(s@),
    {
        let mut unscaled: i64 = 0;
        let mut scale: u32 = 0;
        let mut at_start = true;
        let mut negative = false;
        let mut seen_decimal = false;
        let mut too_large = false;
        let ghost mut read: int = 0;
        for c in it: s.chars()
            invariant
                it.seq() == s@,
                read == it.index(),
                at_start == (it.index() == 0),
                all_literal_chars(s@.subrange(0, it.index())),
                negative == is_negative_literal(s@.subrange(0, it.index())),
                seen_decimal == s@.subrange(0, it.index()).contains('.'),
                too_large == !literal_in_range(s@.subrange(0, it.index())),
                !too_large ==> unscaled == literal_unscaled(s@.subrange(0, it.index())),
                !too_large ==> scale == fraction_digits(s@.subrange(0, it.index())),
        {
            let ghost p = s@.subrange(0, it.index());
            let ghost q = s@.subrange(0, it.index() + 1);
            assert(q =~= p.push(c));
            assert(q.drop_last() =~= p);
            if c == '-' && at_start {
                negative = true;
            } else if c == '.' {
                seen_decimal = true;
            } else if '0' <= c && c <= '9' {
                if !too_large {
                    let d = (c as u32 - '0' as u32) as i64;
                    let step = if negative {
                        match unscaled.checked_mul(10) {
                            Some(t) => t.checked_sub(d),
                            None => None,
                        }
                    } else {
                        match unscaled.checked_mul(10) {
                            Some(t) => t.checked_add(d),
                            None => None,
                        }
                    };
                    match step {
                        Some(u) => {
                            unscaled = u;
                            if seen_decimal {
                                if scale < u32::MAX {
                                    scale = scale + 1;
                                } else {
                                    too_large = true;
                                }
                            }
                        },
                        None => {
                            too_large = true;
                        },
                    }
                }
            } else {
                proof {
                    assert(!is_literal_char(s@[it.index()], it.index()));
                }
                return Err(ParseDecimalError { kind: DecimalErrorKind::InvalidDigit });
            }
            proof {
                if it.index() > 0 {
                    lemma_literal_grows(p, c);
                }
                assert forall|i: int| 0 <= i < q.len() implies is_literal_char(#[trigger] q[i], i) by {
                    if i < p.len() {
                        assert(q[i] == p[i]);
                    }
                }
            }
            at_start = false;
            proof {
                read = read + 1;
            }
        }
        assert(s@.subrange(0, read) =~= s@);
        if at_start {
            Err(ParseDecimalError { kind: DecimalErrorKind::Empty })
        } else if too_large {
            Err(ParseDecimalError { kind: DecimalErrorKind::Overflow })
        } else {
            Ok(Decimal::new(unscaled, scale))
        }
    }
}

/// `"1.25".parse::<Decimal>()` reads as `Decimal::parse` does.
impl core::str::FromStr for Decimal {
    type Err = ParseDecimalError;

    fn from_str(s: &str) -> (r: Result<Decimal, ParseDecimalError>)
        ensures
            r == spec_parse(s@),
    {
        Decimal::parse(s)
    }
}

} // verus!
