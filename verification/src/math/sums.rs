use vstd::prelude::*;

verus! {

/// `f(0) + f(1) + ... + f(n - 1)`, and 0 when `n <= 0`.
pub open spec fn sum_to(f: spec_fn(int) -> int, n: int) -> int
    decreases n,
{
    if n <= 0 {
        0
    } else {
        sum_to(f, n - 1) + f(n - 1)
    }
}

/// Sums of functions that agree on `0..n` agree.
pub proof fn lemma_sum_to_ext(f: spec_fn(int) -> int, g: spec_fn(int) -> int, n: int)
    requires
        forall|i: int| 0 <= i < n ==> #[trigger] f(i) == g(i),
    ensures
        sum_to(f, n) == sum_to(g, n),
    decreases n,
{
    if n > 0 {
        lemma_sum_to_ext(f, g, n - 1);
    }
}

/// The sum of a pointwise sum is the sum of the sums.
pub proof fn lemma_sum_to_add(
    f: spec_fn(int) -> int,
    g: spec_fn(int) -> int,
    h: spec_fn(int) -> int,
    n: int,
)
    requires
        forall|i: int| 0 <= i < n ==> #[trigger] h(i) == f(i) + g(i),
    ensures
        sum_to(h, n) == sum_to(f, n) + sum_to(g, n),
    decreases n,
{
    if n > 0 {
        lemma_sum_to_add(f, g, h, n - 1);
    }
}

/// A function that is 0 on `0..n` except at `p` sums to its value at `p` (0 when `p` is
/// outside `0..n`).
pub proof fn lemma_sum_to_point(f: spec_fn(int) -> int, p: int, n: int)
    requires
        forall|i: int| 0 <= i < n && i != p ==> #[trigger] f(i) == 0,
    ensures
        sum_to(f, n) == (if 0 <= p < n {
            f(p)
        } else {
            0
        }),
    decreases n,
{
    if n > 0 {
        lemma_sum_to_point(f, p, n - 1);
    }
}

/// A sum of `r` terms each at most `bound` in absolute value is at most `r * bound`.
pub proof fn lemma_sum_to_bound(f: spec_fn(int) -> int, bound: int, r: int)
    requires
        0 <= r,
        forall|i: int| 0 <= i < r ==> -bound <= #[trigger] f(i) <= bound,
    ensures
        -(r * bound) <= sum_to(f, r) <= r * bound,
    decreases r,
{
    if r > 0 {
        lemma_sum_to_bound(f, bound, r - 1);
        assert(r * bound == (r - 1) * bound + bound) by (nonlinear_arith);
    }
}

/// `|x| <= m` and `|y| <= m` give `|x * y| <= m * m`.
pub proof fn lemma_product_bound(x: int, y: int, m: int)
    requires
        -m <= x <= m,
        -m <= y <= m,
    ensures
        -(m * m) <= x * y <= m * m,
{
    assert(-(m * m) <= x * y <= m * m) by (nonlinear_arith)
        requires
            -m <= x <= m,
            -m <= y <= m,
    ;
}

} // verus!
