use decimal::guess::{cmp, draw_secret, reply, secret_from_draw, Reply, MAX_NUM};
use std::cmp::Ordering;

#[test]
fn when_first_is_less_than_second() {
    assert_eq!(Ordering::Less, cmp(0, 1));
}

#[test]
fn when_args_are_equal() {
    assert_eq!(Ordering::Equal, cmp(1, 1));
}

#[test]
fn when_first_is_greater_than_second() {
    assert_eq!(Ordering::Greater, cmp(1, 0));
}

#[test]
fn secret_stays_in_range() {
    assert_eq!(secret_from_draw(0), 1);
    assert_eq!(secret_from_draw(99), 100);
    assert_eq!(secret_from_draw(100), 1);
    assert_eq!(secret_from_draw(255), 56);
}

#[test]
fn replies_to_guesses() {
    assert_eq!(reply(None, 50), Reply::NotANumber);
    assert_eq!(reply(Some(10), 50), Reply::TooSmall);
    assert_eq!(reply(Some(60), 50), Reply::TooBig);
    assert_eq!(reply(Some(50), 50), Reply::Win);
}

#[test]
fn drawn_secret_is_in_range() {
    for _ in 0..50 {
        let secret = draw_secret().unwrap();
        assert!(1 <= secret && secret <= MAX_NUM);
    }
}
