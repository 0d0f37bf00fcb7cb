use primality::factor::{Factorizer, TrialDivision};

fn product_of(factors: &[i64]) -> i128 {
    factors.iter().fold(1i128, |acc, f| acc * (*f as i128))
}

fn is_prime(n: i64) -> bool {
    n >= 2 && (2..n).all(|d| n % d != 0)
}

#[test]
fn factorize_zero() {
    assert_eq!(TrialDivision().factorize(0), vec![0]);
}

#[test]
fn factorize_one() {
    assert_eq!(TrialDivision().factorize(1), vec![1]);
}

#[test]
fn factorize_minus_one() {
    assert_eq!(TrialDivision().factorize(-1), vec![-1, 1]);
}

#[test]
fn factorize_two() {
    assert_eq!(TrialDivision().factorize(2), vec![2]);
}

#[test]
fn factorize_minus_twelve() {
    assert_eq!(TrialDivision().factorize(-12), vec![-1, 2, 2, 3]);
}

#[test]
fn factorize_seventeen() {
    assert_eq!(TrialDivision().factorize(17), vec![17]);
}

#[test]
fn factorize_repeated_prime() {
    assert_eq!(TrialDivision().factorize(1024), vec![2; 10]);
    assert_eq!(TrialDivision().factorize(81), vec![3, 3, 3, 3]);
}

#[test]
fn factorize_mixed() {
    assert_eq!(TrialDivision().factorize(360), vec![2, 2, 2, 3, 3, 5]);
    assert_eq!(TrialDivision().factorize(-360), vec![-1, 2, 2, 2, 3, 3, 5]);
    assert_eq!(TrialDivision().factorize(9973 * 7), vec![7, 9973]);
    assert_eq!(TrialDivision().factorize(1_000_003), vec![1_000_003]);
}

#[test]
fn factorize_square_of_prime() {
    assert_eq!(TrialDivision().factorize(49), vec![7, 7]);
    assert_eq!(TrialDivision().factorize(10_007 * 10_007), vec![10_007, 10_007]);
}

#[test]
fn factorize_smallest_integer() {
    let mut expected = vec![-1i64];
    expected.extend(std::iter::repeat(2).take(63));
    assert_eq!(TrialDivision().factorize(i64::MIN), expected);
}

#[test]
fn factorize_large_power_of_two() {
    assert_eq!(TrialDivision().factorize(1i64 << 62), vec![2; 62]);
}

#[test]
fn factorize_largest_integer() {
    assert_eq!(
        TrialDivision().factorize(i64::MAX),
        vec![7, 7, 73, 127, 337, 92737, 649657]
    );
}

#[test]
fn product_round_trip() {
    for n in -2000i64..=2000 {
        let factors = TrialDivision().factorize(n);
        assert_eq!(product_of(&factors), n as i128, "n = {}", n);
    }
}

#[test]
fn factors_are_ascending_primes() {
    for n in 2i64..=2000 {
        let factors = TrialDivision().factorize(n);
        assert!(!factors.is_empty());
        assert!(factors.iter().all(|f| is_prime(*f)), "n = {}", n);
        assert!(factors.windows(2).all(|w| w[0] <= w[1]), "n = {}", n);
    }
}

#[test]
fn negative_numbers_lead_with_minus_one() {
    for n in 2i64..=500 {
        let positive = TrialDivision().factorize(n);
        let negative = TrialDivision().factorize(-n);
        assert_eq!(negative[0], -1);
        assert_eq!(&negative[1..], &positive[..]);
    }
}
