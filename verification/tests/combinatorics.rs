use mclib::math::combinatorics::{checked_binomial_coefficient, checked_binomial_coefficients};
use mclib::{binomial_coefficient, binomial_coefficients, factorial, factorial_n_to_r, permutation};

#[test]
fn binomial_coefficient_small_values() {
    assert_eq!(binomial_coefficient(5, 2), 10);
    assert_eq!(binomial_coefficient(5, 3), 10);
    assert_eq!(binomial_coefficient(10, 0), 1);
    assert_eq!(binomial_coefficient(10, 10), 1);
    assert_eq!(binomial_coefficient(0, 0), 1);
    assert_eq!(binomial_coefficient(52, 5), 2_598_960);
}

#[test]
fn binomial_coefficient_above_n_is_zero() {
    assert_eq!(binomial_coefficient(3, 4), 0);
    assert_eq!(binomial_coefficient(0, 1), 0);
}

#[test]
fn binomial_coefficient_is_symmetric() {
    for n in 0..30u64 {
        for k in 0..=n {
            assert_eq!(binomial_coefficient(n, k), binomial_coefficient(n, n - k));
        }
    }
}

#[test]
fn binomial_coefficient_follows_pascal() {
    for n in 0..30u64 {
        for k in 0..n {
            assert_eq!(
                binomial_coefficient(n + 1, k + 1),
                binomial_coefficient(n, k) + binomial_coefficient(n, k + 1)
            );
        }
    }
}

#[test]
fn binomial_coefficient_large_row() {
    assert_eq!(binomial_coefficient(60, 30), 118_264_581_564_861_424);
}

#[test]
fn binomial_coefficients_rows() {
    assert_eq!(binomial_coefficients(0), vec![1]);
    assert_eq!(binomial_coefficients(1), vec![1, 1]);
    assert_eq!(binomial_coefficients(4), vec![1, 4, 6, 4, 1]);
    assert_eq!(binomial_coefficients(6), vec![1, 6, 15, 20, 15, 6, 1]);
}

#[test]
fn binomial_coefficients_match_single_values() {
    for n in 0..40u64 {
        let row = binomial_coefficients(n);
        assert_eq!(row.len() as u64, n + 1);
        for k in 0..=n {
            assert_eq!(row[k as usize], binomial_coefficient(n, k));
        }
    }
}

#[test]
fn checked_binomial_coefficient_reports_overflow() {
    assert_eq!(checked_binomial_coefficient(5, 2), Some(10));
    assert_eq!(checked_binomial_coefficient(2, 5), Some(0));
    assert_eq!(checked_binomial_coefficient(u64::MAX, 2), None);
    assert_eq!(checked_binomial_coefficient(u64::MAX, 0), Some(1));
}

#[test]
fn checked_binomial_coefficients_reports_overflow() {
    assert_eq!(checked_binomial_coefficients(3), Some(vec![1, 3, 3, 1]));
    assert_eq!(checked_binomial_coefficients(200), None);
}

#[test]
fn factorial_values() {
    assert_eq!(factorial(0), 1);
    assert_eq!(factorial(1), 1);
    assert_eq!(factorial(5), 120);
    assert_eq!(factorial(10), 3_628_800);
    assert_eq!(factorial(20), 2_432_902_008_176_640_000);
}

#[test]
fn factorial_n_to_r_values() {
    assert_eq!(factorial_n_to_r(5, 2), 20);
    assert_eq!(factorial_n_to_r(5, 0), 1);
    assert_eq!(factorial_n_to_r(5, 1), 5);
    assert_eq!(factorial_n_to_r(4, 4), 24);
    assert_eq!(factorial_n_to_r(3, 5), 0);
}

#[test]
fn permutation_values() {
    assert_eq!(permutation(5, 2), 20);
    assert_eq!(permutation(5, 0), 1);
    assert_eq!(permutation(0, 0), 1);
    assert_eq!(permutation(6, 6), 720);
    assert_eq!(permutation(3, 5), 0);
}

#[test]
fn permutation_is_binomial_times_factorial() {
    for n in 0..15u64 {
        for r in 0..=n {
            assert_eq!(permutation(n, r), binomial_coefficient(n, r) * factorial(r));
            assert_eq!(permutation(n, r) * factorial(n - r), factorial(n));
            assert_eq!(factorial_n_to_r(n, r), permutation(n, r));
        }
    }
}
