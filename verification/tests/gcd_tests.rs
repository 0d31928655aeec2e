use mandelbrot::gcd::{checked_gcd, gcd, gcd_all};

#[test]
fn test_gcd() {
    assert_eq!(gcd(4, 10), 2);
}

#[test]
fn main_test_gcd() {
    assert_eq!(gcd(4, 10), 2);
}

#[test]
fn gcd_of_coprime_numbers_is_one() {
    assert_eq!(gcd(7, 13), 1);
}

#[test]
fn gcd_is_symmetric_on_samples() {
    assert_eq!(gcd(48, 18), gcd(18, 48));
    assert_eq!(gcd(48, 18), 6);
}

#[test]
fn gcd_all_folds_over_the_whole_list() {
    assert_eq!(gcd_all(&vec![12, 18, 24]), 6);
    assert_eq!(gcd_all(&vec![5]), 5);
    assert_eq!(gcd_all(&vec![9, 27, 81, 3]), 3);
}

#[test]
fn checked_gcd_rejects_zero() {
    assert_eq!(checked_gcd(0, 5), None);
    assert_eq!(checked_gcd(5, 0), None);
    assert_eq!(checked_gcd(0, 0), None);
    assert_eq!(checked_gcd(4, 10), Some(2));
}
