use vstd::prelude::*;

use std::ops::{Add, Mul};
use vstd::std_specs::ops::{AddSpec, MulSpec};

use super::{is_default, max_len, product_coeff, sum_assign_coeff, sum_coeff};
use crate::math::sums::{
    lemma_product_bound, lemma_sum_to_add, lemma_sum_to_bound, lemma_sum_to_ext,
    lemma_sum_to_point, sum_to,
};

verus! {

/// Every coefficient of `s` lies in `-m..=m`.
pub open spec fn bounded_by(s: Seq<i64>, m: int) -> bool {
    forall|i: int| 0 <= i < s.len() ==> -m <= #[trigger] s[i] <= m
}

/// The coefficient of `x^d` in `p` (coefficients highest degree first); 0 past the degree.
pub open spec fn degree_coeff(p: Seq<i64>, d: int) -> int {
    if 0 <= d < p.len() {
        p[p.len() - 1 - d] as int
    } else {
        0
    }
}

/// The term `a[i] * b[k - i]` of the convolution at index `k`, 0 where `b` has no entry.
pub open spec fn convolution_term(a: Seq<i64>, b: Seq<i64>, k: int) -> spec_fn(int) -> int {
    |i: int|
        if 0 <= k - i < b.len() {
            a[i] * b[k - i]
        } else {
            0
        }
}

/// `sum of a[i] * b[j] over all i + j == k`, `0 <= i < a.len()`, `0 <= j < b.len()`.
pub open spec fn convolution(a: Seq<i64>, b: Seq<i64>, k: int) -> int {
    sum_to(convolution_term(a, b, k), a.len() as int)
}

/// The zero (default) value of `i64` is 0.
pub proof fn lemma_default_i64_is_zero(z: i64)
    requires
        is_default(z),
    ensures
        z == 0,
{
}

/// Convolution is symmetric: the sum over `i + j == k` of `a[i] * b[j]` is the sum of
/// `b[j] * a[i]` over the same pairs.
pub proof fn law_convolution_commutes(a: Seq<i64>, b: Seq<i64>, k: int)
    ensures
        convolution(a, b, k) == convolution(b, a, k),
    decreases a.len(),
{
    if a.len() == 0 {
        lemma_sum_to_point(convolution_term(b, a, k), -1, b.len() as int);
    } else {
        let n = a.len() - 1;
        let a0 = a.drop_last();
        let c = a[n];
        law_convolution_commutes(a0, b, k);
        // the first `n` terms of `a * b` are those of `a0 * b`
        lemma_sum_to_ext(convolution_term(a, b, k), convolution_term(a0, b, k), n);
        // each term of `b * a` is the term of `b * a0` plus the one that meets `a[n]`
        let last = |j: int|
            if j == k - n {
                b[j] * c
            } else {
                0
            };
        assert forall|j: int| 0 <= j < b.len() implies #[trigger] convolution_term(b, a, k)(j)
            == convolution_term(b, a0, k)(j) + last(j) by {}
        lemma_sum_to_add(convolution_term(b, a0, k), last, convolution_term(b, a, k), b.len() as int);
        lemma_sum_to_point(last, k - n, b.len() as int);
        if 0 <= k - n < b.len() {
            assert(b[k - n] * c == c * b[k - n]) by (nonlinear_arith);
        }
    }
}

/// The first `r` steps of the product of `i64` coefficients, while no partial sum can
/// leave `i64`, are the exact partial sums of the convolution.
proof fn lemma_product_prefix(a: Seq<i64>, b: Seq<i64>, m: int, k: int, r: int)
    requires
        0 <= m,
        bounded_by(a, m),
        bounded_by(b, m),
        a.len() * (m * m) <= i64::MAX,
        0 <= r <= a.len(),
    ensures
        product_coeff(0i64, a, b, k, r) as int == sum_to(convolution_term(a, b, k), r),
    decreases r,
{
    if r > 0 {
        lemma_product_prefix(a, b, m, k, r - 1);
        let i = r - 1;
        let t = convolution_term(a, b, k);
        assert forall|j: int| 0 <= j < r implies -(m * m) <= #[trigger] t(j) <= m * m by {
            if 0 <= k - j < b.len() {
                lemma_product_bound(a[j] as int, b[k - j] as int, m);
            }
        }
        lemma_sum_to_bound(t, m * m, r);
        assert(r * (m * m) <= a.len() * (m * m)) by (nonlinear_arith)
            requires
                r <= a.len(),
                0 <= m * m,
        ;
        assert(m * m <= r * (m * m)) by (nonlinear_arith)
            requires
                1 <= r,
                0 <= m * m,
        ;
        if 0 <= k - i < b.len() {
            lemma_product_bound(a[i] as int, b[k - i] as int, m);
        }
    }
}

/// A coefficient of a product of `i64` polynomials is the full convolution of the
/// factors, when no partial sum can overflow (coefficients at most `m` in absolute value
/// and `len(a) * m * m` within `i64`).
pub proof fn law_product_is_convolution(a: Seq<i64>, b: Seq<i64>, m: int, k: int)
    requires
        0 <= m,
        bounded_by(a, m),
        bounded_by(b, m),
        a.len() * (m * m) <= i64::MAX,
    ensures
        product_coeff(0i64, a, b, k, a.len() as int) == convolution(a, b, k),
{
    lemma_product_prefix(a, b, m, k, a.len() as int);
}

/// Multiplication of `i64` polynomials is commutative, when no partial sum can overflow
/// either way round.
pub proof fn law_product_commutes(a: Seq<i64>, b: Seq<i64>, m: int, k: int)
    requires
        0 <= m,
        bounded_by(a, m),
        bounded_by(b, m),
        a.len() * (m * m) <= i64::MAX,
        b.len() * (m * m) <= i64::MAX,
    ensures
        product_coeff(0i64, a, b, k, a.len() as int) == product_coeff(
            0i64,
            b,
            a,
            k,
            b.len() as int,
        ),
{
    law_product_is_convolution(a, b, m, k);
    law_product_is_convolution(b, a, m, k);
    law_convolution_commutes(a, b, k);
}

/// Multiplying by the one-coefficient polynomial `[c]` multiplies every coefficient by
/// `c`, on either side.
pub proof fn law_product_by_constant<T: Add<Output = T> + Mul<Output = T>>(
    zero: T,
    c: T,
    b: Seq<T>,
    k: int,
)
    requires
        0 <= k < b.len(),
    ensures
        product_coeff(zero, seq![c], b, k, 1) == zero.add_spec(c.mul_spec(b[k])),
        product_coeff(zero, b, seq![c], k, b.len() as int) == product_coeff(zero, b, seq![c], k, k)
            .add_spec(b[k].mul_spec(c)),
        forall|r: int|
            0 <= r <= k ==> #[trigger] product_coeff(zero, b, seq![c], k, r) == zero,
{
    assert(product_coeff(zero, seq![c], b, k, 0) == zero);
    assert(seq![c][0] == c);
    assert(0 <= k - 0 < b.len());
    assert forall|r: int| 0 <= r <= k implies #[trigger] product_coeff(zero, b, seq![c], k, r)
        == zero by {
        lemma_product_below(zero, b, c, k, r);
    }
    lemma_product_after(zero, b, c, k, b.len() as int);
}

proof fn lemma_product_below<T: Add<Output = T> + Mul<Output = T>>(
    zero: T,
    b: Seq<T>,
    c: T,
    k: int,
    r: int,
)
    requires
        0 <= r <= k,
    ensures
        product_coeff(zero, b, seq![c], k, r) == zero,
    decreases r,
{
    if r > 0 {
        lemma_product_below(zero, b, c, k, r - 1);
    }
}

proof fn lemma_product_after<T: Add<Output = T> + Mul<Output = T>>(
    zero: T,
    b: Seq<T>,
    c: T,
    k: int,
    r: int,
)
    requires
        0 <= k < r,
    ensures
        product_coeff(zero, b, seq![c], k, r) == product_coeff(zero, b, seq![c], k, k).add_spec(
            b[k].mul_spec(c),
        ),
    decreases r,
{
    if r > k + 1 {
        lemma_product_after(zero, b, c, k, r - 1);
    }
}

/// Every coefficient of a sum of `i64` polynomials is the sum of the coefficients of the
/// same degree, when no sum can overflow (`2 * m` within `i64`).
pub proof fn law_sum_by_degree(a: Seq<i64>, b: Seq<i64>, m: int, d: int)
    requires
        0 <= m,
        2 * m <= i64::MAX,
        bounded_by(a, m),
        bounded_by(b, m),
        0 <= d < max_len(a.len(), b.len()),
    ensures
        sum_coeff(0i64, a, b, max_len(a.len(), b.len()) - 1 - d) == degree_coeff(a, d)
            + degree_coeff(b, d),
{
}

/// `a += b` leaves in every slot the sum of the coefficients of `a` and `b` of that
/// degree, when no sum can overflow.
pub proof fn law_sum_assign_by_degree(a: Seq<i64>, b: Seq<i64>, m: int, d: int)
    requires
        0 <= m,
        2 * m <= i64::MAX,
        bounded_by(a, m),
        bounded_by(b, m),
        0 <= d < max_len(a.len(), b.len()),
    ensures
        sum_assign_coeff(0i64, a, b, max_len(a.len(), b.len()) - 1 - d) == degree_coeff(a, d)
            + degree_coeff(b, d),
{
}

/// Addition of `i64` polynomials is commutative, and `a += b` gives `a + b`, when no sum
/// can overflow.
pub proof fn law_sum_commutes(a: Seq<i64>, b: Seq<i64>, m: int, i: int)
    requires
        0 <= m,
        2 * m <= i64::MAX,
        bounded_by(a, m),
        bounded_by(b, m),
        0 <= i < max_len(a.len(), b.len()),
    ensures
        sum_coeff(0i64, a, b, i) == sum_coeff(0i64, b, a, i),
        sum_assign_coeff(0i64, a, b, i) == sum_coeff(0i64, a, b, i),
{
    let d = max_len(a.len(), b.len()) - 1 - i;
    law_sum_by_degree(a, b, m, d);
    law_sum_by_degree(b, a, m, d);
    law_sum_assign_by_degree(a, b, m, d);
}

} // verus!
