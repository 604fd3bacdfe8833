//! The decisions of a number-guessing game: the secret is drawn from a random
//! byte, and each guess is answered by comparing it with the secret.
use vstd::prelude::*;

use core::cmp::Ordering;

use crate::order::compare_int;

verus! {

/// The secret lies in `1..=MAX_NUM`.
pub const MAX_NUM: u8 = 100;

/// One byte from the operating system's random source, or `None` where that
/// source fails. Relies on `RngCore::try_fill_bytes` of `rand::rngs::OsRng`,
/// which hands back the source's error instead of panicking; nothing can be
/// said of the byte drawn.
#[verifier::external_body]
fn draw_byte() -> (r: Option<u8>) {
    let mut buf = [0u8; 1];
    match rand::RngCore::try_fill_bytes(&mut rand::rngs::OsRng, &mut buf) {
        Ok(()) => Some(buf[0]),
        Err(_) => None,
    }
}

/// The order of `a` against `b`.
pub fn cmp(a: u8, b: u8) -> (r: Ordering)
    ensures
        r == compare_int(a as int, b as int),
{
    if a < b {
        Ordering::Less
    } else if a > b {
        Ordering::Greater
    } else {
        Ordering::Equal
    }
}

/// The secret that a random byte `draw` stands for: `draw % MAX_NUM + 1`.
pub fn secret_from_draw(draw: u8) -> (r: u8)
    ensures
        r == draw % MAX_NUM + 1,
        1 <= r <= MAX_NUM,
{
    draw % MAX_NUM + 1
}

/// A fresh secret in `1..=MAX_NUM`, drawn at random, or `None` where the
/// operating system's random source fails.
pub fn draw_secret() -> (r: Option<u8>)
    ensures
        r matches Some(s) ==> 1 <= s <= MAX_NUM,
{
    match draw_byte() {
        Some(draw) => Some(secret_from_draw(draw)),
        None => None,
    }
}

/// What the game answers to one line of input.
#[derive(Debug, Clone, Copy, PartialEq, Eq, Structural)]
pub enum Reply {
    /// The line is not a number from 0 to 255; ask again.
    NotANumber,
    /// The guess is below the secret; ask again.
    TooSmall,
    /// The guess is above the secret; ask again.
    TooBig,
    /// The guess is the secret; the game is over.
    Win,
}

/// The answer to a guess (`None` where the line held no number) against the
/// secret.
pub fn reply(guess: Option<u8>, secret: u8) -> (r: Reply)
    ensures
        guess is None ==> r == Reply::NotANumber,
        guess matches Some(g) && g < secret ==> r == Reply::TooSmall,
        guess matches Some(g) && g > secret ==> r == Reply::TooBig,
        guess matches Some(g) && g == secret ==> r == Reply::Win,
{
    match guess {
        None => Reply::NotANumber,
        Some(g) => match cmp(g, secret) {
            Ordering::Less => Reply::TooSmall,
            Ordering::Greater => Reply::TooBig,
            Ordering::Equal => Reply::Win,
        },
    }
}

} // verus!
