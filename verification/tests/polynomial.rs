use mclib::Polynomial;

#[test]
fn polynomial_new_is_empty() {
    let p: Polynomial<f64> = Polynomial::new();
    assert!(p.0.is_empty());
}

#[test]
fn polynomial_zeros_has_degree_plus_one_zeros() {
    let p: Polynomial<f64> = Polynomial::zeros(3);
    assert_eq!(p.0, vec![0.0, 0.0, 0.0, 0.0]);
    let q: Polynomial<i64> = Polynomial::zeros(0);
    assert_eq!(q.0, vec![0]);
}

#[test]
fn polynomial_deref_reads_coefficients() {
    let p = Polynomial(vec![3.0, 2.0, 1.0]);
    assert_eq!(p.len(), 3);
    assert_eq!(p[0], 3.0);
    let mut q = Polynomial(vec![1, 2]);
    q[1] = 5;
    assert_eq!(q.0, vec![1, 5]);
}

#[test]
fn polynomial_add_aligns_by_degree() {
    // (x^2 + 2x + 3) + (4x + 5) = x^2 + 6x + 8
    let a = Polynomial(vec![1i64, 2, 3]);
    let b = Polynomial(vec![4i64, 5]);
    assert_eq!((&a + &b).0, vec![1, 6, 8]);
    assert_eq!((&b + &a).0, vec![1, 6, 8]);
}

#[test]
fn polynomial_add_with_empty() {
    let a = Polynomial(vec![1.5, -2.0]);
    let e: Polynomial<f64> = Polynomial::new();
    assert_eq!((&a + &e).0, vec![1.5, -2.0]);
    assert_eq!((&e + &e).0, Vec::<f64>::new());
}

#[test]
fn polynomial_add_assign_pads_in_front() {
    let mut a = Polynomial(vec![4i64, 5]);
    let b = Polynomial(vec![1i64, 2, 3]);
    a += &b;
    assert_eq!(a.0, vec![1, 6, 8]);
    let mut c = Polynomial(vec![1.0, 1.0, 1.0]);
    c += &Polynomial(vec![2.0]);
    assert_eq!(c.0, vec![1.0, 1.0, 3.0]);
}

#[test]
fn polynomial_product_is_convolution() {
    // (x + 1)(x - 1) = x^2 - 1
    let a = Polynomial(vec![1i64, 1]);
    let b = Polynomial(vec![1i64, -1]);
    assert_eq!((&a * &b).0, vec![1, 0, -1]);
    // (2x^2 + 3)(x + 4) = 2x^3 + 8x^2 + 3x + 12
    let c = Polynomial(vec![2.0, 0.0, 3.0]);
    let d = Polynomial(vec![1.0, 4.0]);
    assert_eq!((&c * &d).0, vec![2.0, 8.0, 3.0, 12.0]);
}

#[test]
fn polynomial_product_with_empty_is_zero() {
    let a = Polynomial(vec![1i64, 2]);
    let e: Polynomial<i64> = Polynomial::new();
    assert_eq!((&a * &e).0, vec![0]);
    assert_eq!((&e * &a).0, vec![0]);
}

#[test]
fn polynomial_scaling() {
    let a = Polynomial(vec![1.0, -2.0, 0.5]);
    assert_eq!((&a * 2.0).0, vec![2.0, -4.0, 1.0]);
    assert_eq!((a.clone() * -1.0).0, vec![-1.0, 2.0, -0.5]);
    let mut b = Polynomial(vec![3i64, 4]);
    b *= 3;
    assert_eq!(b.0, vec![9, 12]);
}

#[test]
fn polynomial_mul_assign_by_polynomial() {
    let mut a = Polynomial(vec![1i64, 2]);
    a *= &Polynomial(vec![1i64, 3]);
    assert_eq!(a.0, vec![1, 5, 6]);
}

#[test]
fn polynomial_binomial_expansion() {
    // (1 + x)^4 built by repeated products matches the binomial row
    let mut p = Polynomial(vec![1u64]);
    for _ in 0..4 {
        p *= &Polynomial(vec![1u64, 1]);
    }
    assert_eq!(p.0, mclib::binomial_coefficients(4));
}
