use decimal::arith::{add_3, add_3_and_times_4, times_4};

#[test]
fn test_add_3() {
    assert_eq!(3, add_3(0));
}

#[test]
fn test_times_4() {
    assert_eq!(8, times_4(2));
}

#[test]
fn composes_add_then_multiply() {
    assert_eq!(20, add_3_and_times_4(2));
    assert_eq!(-4, add_3_and_times_4(-4));
}
