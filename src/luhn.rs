//! The Luhn check digit of identification numbers such as card numbers.
use vstd::prelude::*;

use crate::parse::{digit_value, is_digit};

verus! {

/// The sum of the decimal digits of `n`.
pub open spec fn digit_sum(n: nat) -> nat
    decreases n,
{
    if n == 0 {
        0
    } else {
        n % 10 + digit_sum(n / 10)
    }
}

/// What the digit `c` adds to the Luhn sum at place `k` counted from the
/// right (the rightmost at place 0): the digit sum of its double at even
/// places, itself at odd ones.
pub open spec fn luhn_term(c: char, k: nat) -> nat {
    if k % 2 == 0 {
        digit_sum(2 * digit_value(c))
    } else {
        digit_value(c)
    }
}

/// The Luhn sum of the last `j` characters of `s`.
pub open spec fn luhn_sum_of_last(s: Seq<char>, j: nat) -> nat
    decreases j,
{
    if j == 0 {
        0
    } else {
        luhn_sum_of_last(s, (j - 1) as nat) + luhn_term(s[s.len() - j], (j - 1) as nat)
    }
}

/// Every character of `s` is a decimal digit.
pub open spec fn all_digits(s: Seq<char>) -> bool {
    forall|i: int| 0 <= i < s.len() ==> is_digit(#[trigger] s[i])
}

/// The digit that makes `s` followed by it pass the Luhn check: `10` less the
/// last digit of the Luhn sum (so `10` where that sum ends in `0`). `None`
/// where `s` is empty or holds a character that is not a digit.
pub open spec fn check_digit(s: Seq<char>) -> Option<u32> {
    if s.len() == 0 || !all_digits(s) {
        None
    } else {
        Some((10 - luhn_sum_of_last(s, s.len()) % 10) as u32)
    }
}

proof fn lemma_digit_sum_bounded(n: nat)
    ensures
        digit_sum(n) <= n,
    decreases n,
{
    if n > 0 {
        lemma_digit_sum_bounded(n / 10);
    }
}

/// The sum of the decimal digits of `i`.
pub fn sum_digits(i: u32) -> (r: u32)
    ensures
        r == digit_sum(i as nat),
{
    let mut rest = i;
    let mut result: u32 = 0;
    proof {
        lemma_digit_sum_bounded(i as nat);
    }
    while rest > 0
        invariant
            result + digit_sum(rest as nat) == digit_sum(i as nat),
            digit_sum(i as nat) <= u32::MAX,
        decreases rest,
    {
        result = result + rest % 10;
        rest = rest / 10;
    }
    result
}

/// The characters of `s`, in order.
fn chars_of(s: &str) -> (v: Vec<char>)
    ensures
        v@ == s@,
{
    let mut v: Vec<char> = Vec::new();
    for c in it: s.chars()
        invariant
            it.seq() == s@,
            v@ == s@.subrange(0, it.index()),
    {
        v.push(c);
        assert(v@ =~= s@.subrange(0, it.index() + 1));
    }
    assert(v@ =~= s@);
    v
}

/// The check digit of the first `len` characters of `chars`. The Luhn sum
/// is kept modulo 10, which is all of it that the check digit reads.
fn check_digit_of_prefix(chars: &Vec<char>, len: usize) -> (r: Option<u32>)
    requires
        len <= chars.len(),
    ensures
        r == check_digit(chars@.subrange(0, len as int)),
{
    let ghost p = chars@.subrange(0, len as int);
    if len == 0 {
        return None;
    }
    let mut sum: u32 = 0;
    let mut j: usize = 0;
    while j < len
        invariant
            p == chars@.subrange(0, len as int),
            j <= len <= chars.len(),
            sum == luhn_sum_of_last(p, j as nat) % 10,
            forall|k: int| len - j <= k < len ==> is_digit(#[trigger] p[k]),
        decreases len - j,
    {
        let c = chars[len - 1 - j];
        assert(c == p[len - 1 - j]);
        if !('0' <= c && c <= '9') {
            return None;
        }
        let d = c as u32 - '0' as u32;
        let term = if j % 2 == 0 {
            sum_digits(d * 2)
        } else {
            d
        };
        proof {
            lemma_digit_sum_bounded(2 * d as nat);
        }
        sum = (sum + term) % 10;
        assert(sum == luhn_sum_of_last(p, (j + 1) as nat) % 10) by {
            vstd::arithmetic::div_mod::lemma_add_mod_noop(
                luhn_sum_of_last(p, j as nat) as int,
                term as int,
                10,
            );
            vstd::arithmetic::div_mod::lemma_mod_twice(luhn_sum_of_last(p, j as nat) as int, 10);
            vstd::arithmetic::div_mod::lemma_add_mod_noop(
                (luhn_sum_of_last(p, j as nat) % 10) as int,
                term as int,
                10,
            );
        }
        j = j + 1;
    }
    Some(10 - sum)
}

/// The check digit to append to `partial_num` to make a number that passes
/// the Luhn check.
pub fn calculate_check_digit(partial_num: &str) -> (r: Option<u32>)
    ensures
        r == check_digit(partial_num@),
{
    let chars = chars_of(partial_num);
    assert(chars@.subrange(0, chars@.len() as int) =~= partial_num@);
    check_digit_of_prefix(&chars, chars.len())
}

/// `num` passes the Luhn check: its last character is a digit, and it is the
/// check digit of the characters before it.
pub fn valid_str(num: &str) -> (r: bool)
    ensures
        r == (num@.len() > 0 && is_digit(num@.last()) && check_digit(num@.drop_last()) == Some(
            digit_value(num@.last()) as u32,
        )),
{
    let chars = chars_of(num);
    let len = chars.len();
    if len == 0 {
        return false;
    }
    let last = chars[len - 1];
    if !('0' <= last && last <= '9') {
        return false;
    }
    let digit = last as u32 - '0' as u32;
    assert(chars@.subrange(0, len - 1) =~= num@.drop_last());
    match check_digit_of_prefix(&chars, len - 1) {
        Some(real_digit) => digit == real_digit,
        None => false,
    }
}

} // verus!
