//! Laws that relate several operations of `Decimal`.
use vstd::prelude::*;

use vstd::std_specs::ops::{AddSpec, DivSpec, MulSpec, RemSpec};

use crate::math::{
    div_toward_zero, lemma_div_toward_zero_bounds, lemma_pow10_add, pow10, rem_toward_zero,
};
use crate::parse::{
    all_literal_chars, digit_value, digits_value, fraction_digits, is_digit, is_literal_char,
    is_negative_literal, literal_in_range, literal_unscaled, spec_parse, ParseDecimalError,
};
use crate::render::{digit_char, digits_of, lemma_digits_are_digits, magnitude, render, zeros};
use crate::value::Decimal;

verus! {

/// Division and remainder rebuild the dividend: for a dividend and a nonzero
/// divisor at one scale `s`, `(dividend / divisor) * divisor + dividend % divisor`
/// is defined and, brought to scale `s`, equals the dividend exactly. The one
/// pair left out is `i64::MIN` over `-1`, whose quotient overflows.
pub proof fn lemma_div_rem_rebuilds(dividend: Decimal, divisor: Decimal)
    requires
        dividend.scale == divisor.scale,
        divisor.unscaled != 0,
        !(dividend.unscaled == i64::MIN && divisor.unscaled == -1),
    ensures
        dividend.div_req(divisor),
        dividend.rem_req(divisor),
        dividend.div_spec(divisor).mul_req(divisor),
        dividend.div_spec(divisor).mul_spec(divisor).add_req(dividend.rem_spec(divisor)),
        dividend.div_spec(divisor).mul_spec(divisor).add_spec(dividend.rem_spec(divisor)).can_rescale(
            dividend.scale,
        ),
        dividend.div_spec(divisor).mul_spec(divisor).add_spec(
            dividend.rem_spec(divisor),
        ).spec_adjust_scale(dividend.scale) == dividend,
{
    let a = dividend.unscaled as int;
    let b = divisor.unscaled as int;
    assert(pow10(0) == 1);
    assert(dividend.rescaled(dividend.scale) == a);
    lemma_div_toward_zero_bounds(a, b);
    let qi = div_toward_zero(a, b);
    assert(i64::MIN <= qi <= i64::MAX) by (nonlinear_arith)
        requires
            a >= 0 ==> 0 <= b * qi <= a && -a <= qi <= a,
            a < 0 ==> a <= b * qi <= 0 && a <= qi <= -a,
            i64::MIN <= a <= i64::MAX,
            b != 0,
            !(a == i64::MIN && b == -1),
    ;
    let q = dividend.div_spec(divisor);
    let r = dividend.rem_spec(divisor);
    assert(q.unscaled == qi);
    assert(q.unscaled * divisor.unscaled == b * qi) by (nonlinear_arith)
        requires
            q.unscaled == qi,
            divisor.unscaled == b,
    ;
    let m = q.mul_spec(divisor);
    assert(r.unscaled == rem_toward_zero(a, b));
    assert(m.rescaled(dividend.scale) == m.unscaled);
    assert(r.rescaled(dividend.scale) == r.unscaled);
}

/// The number of digits in `s`.
spec fn digit_count(s: Seq<char>) -> nat
    decreases s.len(),
{
    if s.len() == 0 {
        0
    } else if is_digit(s.last()) {
        digit_count(s.drop_last()) + 1
    } else {
        digit_count(s.drop_last())
    }
}

/// The digits of `s + t` spell those of `s` shifted left past those of `t`.
proof fn lemma_digits_value_concat(s: Seq<char>, t: Seq<char>)
    ensures
        digits_value(s + t) == digits_value(s) * pow10(digit_count(t)) + digits_value(t),
        digit_count(s + t) == digit_count(s) + digit_count(t),
    decreases t.len(),
{
    if t.len() == 0 {
        assert(s + t =~= s);
        assert(pow10(0) == 1);
    } else {
        let t0 = t.drop_last();
        assert((s + t).drop_last() =~= s + t0);
        assert((s + t).last() == t.last());
        lemma_digits_value_concat(s, t0);
        if is_digit(t.last()) {
            lemma_pow10_add(digit_count(t0), 1);
            assert(pow10(0) == 1);
            assert(pow10(1) == 10);
            let v = digits_value(s);
            let p = pow10(digit_count(t0));
            let dl = digit_value(t.last());
            assert(digits_value(s + t) == 10 * digits_value(s + t0) + dl);
            assert(digits_value(t) == 10 * digits_value(t0) + dl);
            assert(digit_count(t) == digit_count(t0) + 1);
            assert(pow10(digit_count(t)) == p * 10);
            assert(10 * (v * p + digits_value(t0)) + dl == v * (p * 10) + (10 * digits_value(t0)
                + dl)) by (nonlinear_arith);
        } else {
            assert(digits_value(s + t) == digits_value(s + t0));
            assert(digits_value(t) == digits_value(t0));
            assert(digit_count(t) == digit_count(t0));
        }
    }
}

/// Digits after the first `.` of `s + t`: where `s` has a point, all the
/// digits of `t` count; where it has none, only those that `t` itself puts
/// after a point.
proof fn lemma_fraction_digits_concat(s: Seq<char>, t: Seq<char>)
    ensures
        s.contains('.') ==> fraction_digits(s + t) == fraction_digits(s) + digit_count(t),
        !s.contains('.') ==> fraction_digits(s + t) == fraction_digits(t) + fraction_digits(s),
        !s.contains('.') ==> ((s + t).contains('.') <==> t.contains('.')),
    decreases t.len(),
{
    if t.len() == 0 {
        assert(s + t =~= s);
        assert(fraction_digits(t) == 0);
    } else {
        let t0 = t.drop_last();
        assert((s + t).drop_last() =~= s + t0);
        assert((s + t).last() == t.last());
        lemma_fraction_digits_concat(s, t0);
        if s.contains('.') {
            let i = choose|i: int| 0 <= i < s.len() && s[i] == '.';
            assert((s + t0)[i] == '.');
        }
        if !s.contains('.') {
            if (s + t).contains('.') {
                let i = choose|i: int| 0 <= i < (s + t).len() && (s + t)[i] == '.';
                assert(t[i - s.len()] == '.');
            }
            if t.contains('.') {
                let i = choose|i: int| 0 <= i < t.len() && t[i] == '.';
                assert((s + t)[i + s.len()] == '.');
            }
            if (s + t0).contains('.') {
                let i = choose|i: int| 0 <= i < (s + t0).len() && (s + t0)[i] == '.';
                assert(t0[i - s.len()] == '.');
            }
            if t0.contains('.') {
                let i = choose|i: int| 0 <= i < t0.len() && t0[i] == '.';
                assert((s + t0)[i + s.len()] == '.');
            }
            lemma_no_point_no_fraction(s);
        }
    }
}

/// Without a point there are no digits after one.
proof fn lemma_no_point_no_fraction(s: Seq<char>)
    requires
        !s.contains('.'),
    ensures
        fraction_digits(s) == 0,
    decreases s.len(),
{
    if s.len() > 0 {
        let s0 = s.drop_last();
        if s0.contains('.') {
            let i = choose|i: int| 0 <= i < s0.len() && s0[i] == '.';
            assert(s[i] == '.');
        }
        lemma_no_point_no_fraction(s0);
    }
}

/// A run of digits alone: each is counted, and none follows a point.
proof fn lemma_all_digits(s: Seq<char>)
    requires
        forall|i: int| 0 <= i < s.len() ==> is_digit(#[trigger] s[i]),
    ensures
        digit_count(s) == s.len(),
        !s.contains('.'),
        all_literal_chars(s),
    decreases s.len(),
{
    if s.len() > 0 {
        let s0 = s.drop_last();
        assert(forall|i: int| 0 <= i < s0.len() ==> #[trigger] s0[i] == s[i]);
        lemma_all_digits(s0);
        assert(s.last() == s[s.len() - 1]);
    }
    if s.contains('.') {
        let i = choose|i: int| 0 <= i < s.len() && s[i] == '.';
        assert(is_digit(s[i]));
    }
}

/// `digits_of(n)` spells `n`.
proof fn lemma_digits_of(n: nat)
    ensures
        digits_value(digits_of(n)) == n,
        digits_of(n).len() >= 1,
        n == 0 ==> digits_of(n) == seq!['0'],
    decreases n,
{
    let d = digit_char(n % 10);
    assert(is_digit(d) && digit_value(d) == n % 10);
    if n < 10 {
        assert(seq![d].drop_last() =~= Seq::<char>::empty());
        assert(seq![d].last() == d);
        assert(digits_value(seq![d]) == 10 * digits_value(Seq::<char>::empty()) + digit_value(d));
    } else {
        vstd::arithmetic::div_mod::lemma_fundamental_div_mod(n as int, 10);
        lemma_digits_of(n / 10);
        assert(digits_of(n).drop_last() =~= digits_of(n / 10));
    }
}

/// `k` zeros are `k` digits.
proof fn lemma_zeros(k: nat)
    ensures
        forall|i: int| 0 <= i < zeros(k).len() ==> is_digit(#[trigger] zeros(k)[i]),
        digits_value(zeros(k)) == 0,
    decreases k,
{
    if k > 0 {
        assert(zeros(k).drop_last() =~= zeros((k - 1) as nat));
        lemma_zeros((k - 1) as nat);
    } else {
        assert(zeros(k) =~= Seq::<char>::empty());
    }
}

/// Reading back the text of a decimal gives the same decimal: its unscaled
/// value and its scale, not only the number they stand for.
pub proof fn lemma_render_parse_round_trip(d: Decimal)
    ensures
        spec_parse(render(d)) == Ok::<Decimal, ParseDecimalError>(d),
{
    let m = magnitude(d.unscaled as int);
    let digits = digits_of(m);
    let sign: Seq<char> = if d.unscaled < 0 {
        seq!['-']
    } else {
        Seq::empty()
    };
    let text = render(d);
    lemma_digits_of(m);
    lemma_digits_are_digits(m);
    lemma_all_digits(digits);
    lemma_digits_value_concat(sign, digits);
    assert(digits_value(sign) == 0) by {
        if d.unscaled < 0 {
            assert(sign.drop_last() =~= Seq::<char>::empty());
            assert(sign.last() == '-');
            assert(digits_value(sign) == digits_value(Seq::<char>::empty()));
        }
    }
    assert(!sign.contains('.'));
    if d.scale == 0 {
        lemma_fraction_digits_concat(sign, digits);
        lemma_no_point_no_fraction(sign);
        lemma_no_point_no_fraction(digits);
        assert(text == sign + digits);
        assert(digits_value(text) == m) by {
            assert(0 * pow10(digit_count(digits)) == 0);
        }
        assert(all_literal_chars(text)) by {
            assert forall|i: int| 0 <= i < text.len() implies is_literal_char(#[trigger] text[i], i) by {
                if i >= sign.len() {
                    assert(text[i] == digits[i - sign.len()]);
                }
            }
        }
        assert(is_negative_literal(text) == (d.unscaled < 0)) by {
            if d.unscaled >= 0 {
                assert(text[0] == digits[0]);
            }
        }
    } else if d.scale >= digits.len() {
        let k = (d.scale - digits.len()) as nat;
        let head = sign + seq!['0', '.'];
        let tail = zeros(k) + digits;
        assert(text =~= head + tail);
        lemma_zeros(k);
        lemma_all_digits(zeros(k));
        assert forall|i: int| 0 <= i < tail.len() implies is_digit(#[trigger] tail[i]) by {
            if i < k {
                assert(tail[i] == zeros(k)[i]);
            } else {
                assert(tail[i] == digits[i - k]);
            }
        }
        lemma_all_digits(tail);
        lemma_digits_value_concat(zeros(k), digits);
        lemma_digits_value_concat(head, tail);
        lemma_digits_value_concat(sign, seq!['0', '.']);
        assert(digits_value(seq!['0', '.']) == 0) by {
            assert(seq!['0', '.'].drop_last() =~= seq!['0']);
            assert(seq!['0', '.'].last() == '.');
            assert(seq!['0'].drop_last() =~= Seq::<char>::empty());
            assert(seq!['0'].last() == '0');
            assert(digits_value(seq!['0']) == 10 * digits_value(Seq::<char>::empty()) + digit_value('0'));
            assert(digits_value(seq!['0', '.']) == digits_value(seq!['0']));
        }
        assert(head.contains('.')) by {
            assert(head[head.len() - 1] == '.');
        }
        lemma_fraction_digits_concat(head, tail);
        assert(fraction_digits(head) == 0) by {
            let h0 = sign + seq!['0'];
            assert(head.drop_last() =~= h0);
            assert(!h0.contains('.')) by {
                if h0.contains('.') {
                    let i = choose|i: int| 0 <= i < h0.len() && h0[i] == '.';
                    assert(false);
                }
            }
            lemma_no_point_no_fraction(h0);
        }
        assert(digits_value(text) == m) by {
            assert(0 * pow10(digit_count(digits)) == 0);
            assert(0 * pow10(digit_count(seq!['0', '.'])) == 0);
            assert(0 * pow10(digit_count(tail)) == 0);
        }
        assert(text.len() > 0);
        assert(all_literal_chars(text)) by {
            assert forall|i: int| 0 <= i < text.len() implies is_literal_char(#[trigger] text[i], i) by {
                if i >= head.len() {
                    assert(text[i] == tail[i - head.len()]);
                }
            }
        }
    } else {
        let k = digits.len() - d.scale;
        let front = digits.subrange(0, k);
        let back = digits.subrange(k, digits.len() as int);
        let head = sign + front + seq!['.'];
        assert(text =~= head + back);
        assert(digits =~= front + back);
        lemma_all_digits(front);
        lemma_all_digits(back);
        lemma_digits_value_concat(front, back);
        lemma_digits_value_concat(sign + front, seq!['.']);
        lemma_digits_value_concat(sign, front);
        lemma_digits_value_concat(head, back);
        assert(digits_value(seq!['.']) == 0 && digit_count(seq!['.']) == 0) by {
            assert(seq!['.'].drop_last() =~= Seq::<char>::empty());
            assert(seq!['.'].last() == '.');
            assert(digits_value(seq!['.']) == digits_value(Seq::<char>::empty()));
            assert(digit_count(seq!['.']) == digit_count(Seq::<char>::empty()));
        }
        assert(pow10(0) == 1);
        assert(head.contains('.')) by {
            assert(head[head.len() - 1] == '.');
        }
        lemma_fraction_digits_concat(head, back);
        assert(fraction_digits(head) == 0) by {
            let h0 = sign + front;
            assert(head.drop_last() =~= h0);
            lemma_fraction_digits_concat(sign, front);
            lemma_no_point_no_fraction(sign);
            lemma_no_point_no_fraction(front);
            assert(!h0.contains('.'));
            lemma_no_point_no_fraction(h0);
        }
        assert(digits_value(text) == m) by {
            assert(0 * pow10(digit_count(front)) == 0);
            assert(digits_value(sign + front) == digits_value(front));
            assert(digits_value(head) == digits_value(sign + front));
        }
        assert(all_literal_chars(text)) by {
            assert forall|i: int| 0 <= i < text.len() implies is_literal_char(#[trigger] text[i], i) by {
                if i >= sign.len() && i < sign.len() + front.len() {
                    assert(text[i] == front[i - sign.len()]);
                } else if i >= head.len() {
                    assert(text[i] == back[i - head.len()]);
                }
            }
        }
        assert(is_negative_literal(text) == (d.unscaled < 0)) by {
            if d.unscaled >= 0 {
                assert(text[0] == front[0]);
            }
        }
    }
    assert(fraction_digits(text) == d.scale);
    assert(literal_unscaled(text) == d.unscaled);
}

} // verus!
