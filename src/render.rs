//! Writing a decimal in plain positional notation, every digit of its scale
//! shown: `(150, 2)` is `1.50`, `(10, 4)` is `0.0010`, `(-1, 1)` is `-0.1`.
use vstd::prelude::*;

use crate::value::Decimal;

verus! {

/// The character of a decimal digit `d < 10`.
pub open spec fn digit_char(d: nat) -> char {
    if d == 0 {
        '0'
    } else if d == 1 {
        '1'
    } else if d == 2 {
        '2'
    } else if d == 3 {
        '3'
    } else if d == 4 {
        '4'
    } else if d == 5 {
        '5'
    } else if d == 6 {
        '6'
    } else if d == 7 {
        '7'
    } else if d == 8 {
        '8'
    } else {
        '9'
    }
}

/// The decimal digits of `n`, most significant first, with no leading zero
/// (`0` is the single digit `0`).
pub open spec fn digits_of(n: nat) -> Seq<char>
    decreases n,
{
    if n < 10 {
        seq![digit_char(n)]
    } else {
        digits_of(n / 10).push(digit_char(n % 10))
    }
}

/// The absolute value of `n`.
pub open spec fn magnitude(n: int) -> nat {
    if n < 0 {
        (-n) as nat
    } else {
        n as nat
    }
}

/// `k` zeros.
pub open spec fn zeros(k: nat) -> Seq<char> {
    Seq::new(k, |i: int| '0')
}

/// The text of `d`: its sign, then the digits of its unscaled value with a
/// point placed `scale` digits from the right; where there are no more digits
/// than that, `0.` and as many zeros as are missing come first. A scale of
/// zero shows no point.
pub open spec fn render(d: Decimal) -> Seq<char> {
    let digits = digits_of(magnitude(d.unscaled as int));
    let sign: Seq<char> = if d.unscaled < 0 {
        seq!['-']
    } else {
        Seq::empty()
    };
    if d.scale == 0 {
        sign + digits
    } else if d.scale >= digits.len() {
        sign + seq!['0', '.'] + zeros((d.scale - digits.len()) as nat) + digits
    } else {
        let k = digits.len() - d.scale;
        sign + digits.subrange(0, k) + seq!['.'] + digits.subrange(k, digits.len() as int)
    }
}

fn digit_to_char(d: u64) -> (c: char)
    requires
        d < 10,
    ensures
        c == digit_char(d as nat),
{
    if d == 0 {
        '0'
    } else if d == 1 {
        '1'
    } else if d == 2 {
        '2'
    } else if d == 3 {
        '3'
    } else if d == 4 {
        '4'
    } else if d == 5 {
        '5'
    } else if d == 6 {
        '6'
    } else if d == 7 {
        '7'
    } else if d == 8 {
        '8'
    } else {
        '9'
    }
}

/// Appends the digits of `n` to `out`.
fn push_digits(out: &mut Vec<char>, n: u64)
    ensures
        final(out)@ == old(out)@ + digits_of(n as nat),
    decreases n,
{
    if n >= 10 {
        push_digits(out, n / 10);
    }
    out.push(digit_to_char(n % 10));
    assert(final(out)@ =~= old(out)@ + digits_of(n as nat));
}

/// A one-character string for each character that a rendered decimal holds.
fn char_str(c: char) -> (r: &'static str)
    requires
        ('0' <= c <= '9') || c == '-' || c == '.',
    ensures
        r@ == seq![c],
{
    proof {
        reveal_strlit("0");
        reveal_strlit("1");
        reveal_strlit("2");
        reveal_strlit("3");
        reveal_strlit("4");
        reveal_strlit("5");
        reveal_strlit("6");
        reveal_strlit("7");
        reveal_strlit("8");
        reveal_strlit("9");
        reveal_strlit("-");
        reveal_strlit(".");
    }
    let r = if c == '0' {
        "0"
    } else if c == '1' {
        "1"
    } else if c == '2' {
        "2"
    } else if c == '3' {
        "3"
    } else if c == '4' {
        "4"
    } else if c == '5' {
        "5"
    } else if c == '6' {
        "6"
    } else if c == '7' {
        "7"
    } else if c == '8' {
        "8"
    } else if c == '9' {
        "9"
    } else if c == '-' {
        "-"
    } else {
        "."
    };
    assert(r@ =~= seq![c]);
    r
}

/// Every character of `digits_of(n)` is a decimal digit.
pub proof fn lemma_digits_are_digits(n: nat)
    ensures
        forall|i: int| 0 <= i < digits_of(n).len() ==> '0' <= #[trigger] digits_of(n)[i] <= '9',
    decreases n,
{
    if n >= 10 {
        lemma_digits_are_digits(n / 10);
        assert forall|i: int| 0 <= i < digits_of(n).len() implies '0' <= #[trigger] digits_of(n)[i]
            <= '9' by {
            if i < digits_of(n / 10).len() {
                assert(digits_of(n)[i] == digits_of(n / 10)[i]);
            }
        }
    }
}

/// Appends `src[from..to]` to `out`.
fn push_range(out: &mut Vec<char>, src: &Vec<char>, from: usize, to: usize)
    requires
        from <= to <= src.len(),
    ensures
        final(out)@ == old(out)@ + src@.subrange(from as int, to as int),
{
    let mut i = from;
    while i < to
        invariant
            from <= i <= to <= src.len(),
            out@ == old(out)@ + src@.subrange(from as int, i as int),
        decreases to - i,
    {
        out.push(src[i]);
        i = i + 1;
        assert(out@ =~= old(out)@ + src@.subrange(from as int, i as int));
    }
}

/// Appends `k` zeros to `out`.
fn push_zeros(out: &mut Vec<char>, k: u32)
    ensures
        final(out)@ == old(out)@ + zeros(k as nat),
{
    let mut i: u32 = 0;
    while i < k
        invariant
            i <= k,
            out@ == old(out)@ + zeros(i as nat),
        decreases k - i,
    {
        out.push('0');
        i = i + 1;
        assert(out@ =~= old(out)@ + zeros(i as nat));
    }
}

/// The string of the characters of `chars`.
fn chars_to_string(chars: &Vec<char>) -> (r: String)
    requires
        forall|i: int|
            0 <= i < chars.len() ==> ('0' <= #[trigger] chars@[i] <= '9') || chars@[i] == '-'
                || chars@[i] == '.',
    ensures
        r@ == chars@,
{
    let mut r = String::new();
    let mut i: usize = 0;
    while i < chars.len()
        invariant
            i <= chars.len(),
            r@ == chars@.subrange(0, i as int),
            forall|j: int|
                0 <= j < chars.len() ==> ('0' <= #[trigger] chars@[j] <= '9') || chars@[j] == '-'
                    || chars@[j] == '.',
        decreases chars.len() - i,
    {
        r.append(char_str(chars[i]));
        i = i + 1;
        assert(r@ =~= chars@.subrange(0, i as int));
    }
    assert(chars@.subrange(0, i as int) =~= chars@);
    r
}

impl Decimal {
    /// The text of `self` in positional notation, with exactly `scale`
    /// digits after the point (none, and no point, at scale zero).
    pub fn to_string(&self) -> (r: String)
        ensures
            r@ == render(*self),
    {
        let negative = self.unscaled < 0;
        let mag: u64 = if negative {
            (-(self.unscaled + 1)) as u64 + 1
        } else {
            self.unscaled as u64
        };
        let mut digits: Vec<char> = Vec::new();
        push_digits(&mut digits, mag);
        proof {
            assert(digits@ =~= digits_of(magnitude(self.unscaled as int)));
            lemma_digits_are_digits(mag as nat);
        }
        let len = digits.len();
        let mut out: Vec<char> = Vec::new();
        if negative {
            out.push('-');
        }
        let ghost sign = out@;
        if self.scale == 0 {
            push_range(&mut out, &digits, 0, len);
            assert(digits@.subrange(0, len as int) =~= digits@);
        } else if self.scale as u64 >= len as u64 {
            out.push('0');
            out.push('.');
            push_zeros(&mut out, self.scale - len as u32);
            push_range(&mut out, &digits, 0, len);
            assert(digits@.subrange(0, len as int) =~= digits@);
            assert(out@ =~= sign + seq!['0', '.'] + zeros((self.scale - len) as nat) + digits@);
        } else {
            let k = len - self.scale as usize;
            push_range(&mut out, &digits, 0, k);
            out.push('.');
            push_range(&mut out, &digits, k, len);
            assert(out@ =~= sign + digits@.subrange(0, k as int) + seq!['.'] + digits@.subrange(
                k as int,
                len as int,
            ));
        }
        assert(out@ =~= render(*self));
        proof {
            assert forall|i: int| 0 <= i < out.len() implies ('0' <= #[trigger] out@[i] <= '9')
                || out@[i] == '-' || out@[i] == '.' by {
                lemma_render_chars(*self, i);
            }
        }
        chars_to_string(&out)
    }
}

/// Each character of a rendered decimal is a digit, `-` or `.`.
proof fn lemma_render_chars(d: Decimal, i: int)
    requires
        0 <= i < render(d).len(),
    ensures
        ('0' <= render(d)[i] <= '9') || render(d)[i] == '-' || render(d)[i] == '.',
{
    lemma_digits_are_digits(magnitude(d.unscaled as int));
}

} // verus!
