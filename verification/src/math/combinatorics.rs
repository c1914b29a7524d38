use vstd::prelude::*;

verus! {

/// The binomial coefficient `C(n, k)`, defined by Pascal's rule.
pub open spec fn binom(n: nat, k: nat) -> nat
    decreases n,
{
    if k == 0 {
        1
    } else if n == 0 {
        0
    } else {
        binom((n - 1) as nat, (k - 1) as nat) + binom((n - 1) as nat, k)
    }
}

/// `C(n, k)` vanishes when more items are chosen than there are.
pub proof fn lemma_binom_above(n: nat, k: nat)
    requires
        k > n,
    ensures
        binom(n, k) == 0,
    decreases n,
{
    if n > 0 {
        lemma_binom_above((n - 1) as nat, (k - 1) as nat);
        lemma_binom_above((n - 1) as nat, k);
    }
}

/// `C(n, 1) == n`.
pub proof fn lemma_binom_one(n: nat)
    ensures
        binom(n, 1) == n,
    decreases n,
{
    if n > 0 {
        lemma_binom_one((n - 1) as nat);
        assert(binom((n - 1) as nat, 0) == 1);
    }
}

/// `C(n, n) == 1`.
pub proof fn lemma_binom_all(n: nat)
    ensures
        binom(n, n) == 1,
    decreases n,
{
    if n > 0 {
        lemma_binom_all((n - 1) as nat);
        lemma_binom_above((n - 1) as nat, n);
    }
}

/// The ratio of neighbouring coefficients in a row:
/// `(k + 1) * C(n, k + 1) == (n - k) * C(n, k)`.
pub proof fn lemma_binom_step(n: nat, k: nat)
    requires
        k < n,
    ensures
        (k + 1) * binom(n, k + 1) == (n - k) * binom(n, k),
    decreases n,
{
    if k == 0 {
        lemma_binom_one(n);
        assert(binom(n, 0) == 1);
        assert((k + 1) * binom(n, k + 1) == (n - k) * binom(n, k)) by (nonlinear_arith)
            requires
                k == 0,
                binom(n, 1) == n,
                binom(n, 0) == 1,
        ;
    } else {
        let n1 = (n - 1) as nat;
        let a = binom(n1, (k - 1) as nat);
        let b = binom(n1, k);
        let c = binom(n1, k + 1);
        if k < n1 {
            lemma_binom_step(n1, k);
        } else {
            lemma_binom_above(n1, k + 1);
            assert((k + 1) * c == (n1 - k) * b) by (nonlinear_arith)
                requires
                    c == 0,
                    n1 - k == 0,
            ;
        }
        lemma_binom_step(n1, (k - 1) as nat);
        assert(binom(n, k + 1) == b + c);
        assert(binom(n, k) == a + b);
        assert((k + 1) * (b + c) == (n - k) * (a + b)) by (nonlinear_arith)
            requires
                (k + 1) * c == (n1 - k) * b,
                k * b == (n1 - (k - 1)) * a,
                n1 == n - 1,
                1 <= k < n,
        ;
    }
}

/// Symmetry of a row of Pascal's triangle: `C(n, k) == C(n, n - k)`;
/// choosing `k` items is choosing the `n - k` to leave out.
pub proof fn law_binom_symmetric(n: nat, k: nat)
    requires
        k <= n,
    ensures
        binom(n, k) == binom(n, (n - k) as nat),
    decreases n,
{
    if k == 0 {
        lemma_binom_all(n);
    } else if k == n {
        lemma_binom_all(n);
    } else {
        let n1 = (n - 1) as nat;
        law_binom_symmetric(n1, (k - 1) as nat);
        law_binom_symmetric(n1, k);
        assert((n - k) as nat - 1 == (n1 - k) as nat);
    }
}

/// The largest value every intermediate product of the row-walk for `C(n, k)` must fit in:
/// each step multiplies `C(n, i)` by `n - i` before dividing by `i + 1`.
pub open spec fn binomial_steps_fit(n: nat, steps: nat) -> bool {
    forall|i: nat| i < steps ==> #[trigger] binom(n, i) * (n - i) <= u64::MAX
}

/// Number of steps the row-walk for `C(n, k)` takes: the smaller of `k` and `n - k`.
pub open spec fn binomial_steps(n: nat, k: nat) -> nat {
    if k > n - k { (n - k) as nat } else { k }
}

/// `C(n, k)`, walking the row of Pascal's triangle from `C(n, 0)`.
/// Returns 0 when `k > n`.
pub fn binomial_coefficient(n: u64, k: u64) -> (res: u64)
    requires
        k <= n ==> binomial_steps_fit(n as nat, binomial_steps(n as nat, k as nat)),
    ensures
        res == binom(n as nat, k as nat),
{
    if k > n {
        proof {
            lemma_binom_above(n as nat, k as nat);
        }
        return 0;
    }
    let ghost k0 = k;
    let k = if k > n - k { n - k } else { k };
    proof {
        law_binom_symmetric(n as nat, k0 as nat);
        assert(binom(n as nat, k as nat) == binom(n as nat, k0 as nat));
    }
    let mut res: u64 = 1;
    let mut i: u64 = 0;
    while i < k
        invariant
            i <= k <= n,
            k == binomial_steps(n as nat, k0 as nat),
            binomial_steps_fit(n as nat, k as nat),
            res == binom(n as nat, i as nat),
        decreases k - i,
    {
        assert(binom(n as nat, i as nat) * (n - i) <= u64::MAX);
        proof {
            lemma_binom_step(n as nat, i as nat);
        }
        let prod: u64 = res * (n - i);
        assert(prod == (i + 1) * binom(n as nat, (i + 1) as nat));
        proof {
            vstd::arithmetic::div_mod::lemma_div_by_multiple(
                binom(n as nat, (i + 1) as nat) as int,
                (i + 1) as int,
            );
        }
        res = prod / (i + 1);
        i = i + 1;
    }
    res
}

/// The whole row `[C(n, 0), C(n, 1), ..., C(n, n)]` of Pascal's triangle.
pub fn binomial_coefficients(n: u64) -> (res: Vec<u64>)
    requires
        binomial_steps_fit(n as nat, n as nat),
        n < usize::MAX,
    ensures
        res.len() == n + 1,
        forall|k: int| 0 <= k <= n ==> #[trigger] res[k] == binom(n as nat, k as nat),
{
    if n == 0 {
        return vec![1];
    }
    let size: usize = n as usize + 1;
    let mut ret: Vec<u64> = vec![0; size];
    ret.set(0, 1);
    let mut current: u64 = 1;
    let mut k: u64 = 1;
    while k <= n
        invariant
            1 <= k <= n + 1,
            ret.len() == n + 1,
            binomial_steps_fit(n as nat, n as nat),
            current == binom(n as nat, (k - 1) as nat),
            forall|j: int| 0 <= j < k ==> #[trigger] ret[j] == binom(n as nat, j as nat),
        decreases n + 1 - k,
    {
        let ghost i = (k - 1) as nat;
        assert(binom(n as nat, i) * (n - i) <= u64::MAX);
        proof {
            lemma_binom_step(n as nat, i);
        }
        let prod: u64 = current * (n - k + 1);
        assert(prod == k * binom(n as nat, k as nat)) by (nonlinear_arith)
            requires
                prod == binom(n as nat, i) * (n - i),
                (i + 1) * binom(n as nat, i + 1) == (n - i) * binom(n as nat, i),
                i + 1 == k,
        ;
        assert(prod == binom(n as nat, k as nat) * k) by (nonlinear_arith)
            requires
                prod == k * binom(n as nat, k as nat),
        ;
        proof {
            vstd::arithmetic::div_mod::lemma_div_by_multiple(binom(n as nat, k as nat) as int, k as int);
        }
        current = prod / k;
        ret.set(k as usize, current);
        k = k + 1;
    }
    ret
}

/// Pascal's rule: `C(n + 1, k + 1) == C(n, k) + C(n, k + 1)`.
pub proof fn law_binom_pascal(n: nat, k: nat)
    ensures
        binom(n + 1, k + 1) == binom(n, k) + binom(n, k + 1),
{
}

/// `C(n, k)`, or `None` exactly when the row-walk that computes it would overflow `u64`.
pub fn checked_binomial_coefficient(n: u64, k: u64) -> (res: Option<u64>)
    ensures
        res is None <==> k <= n && !binomial_steps_fit(
            n as nat,
            binomial_steps(n as nat, k as nat),
        ),
        res matches Some(v) ==> v == binom(n as nat, k as nat),
{
    if k > n {
        proof {
            lemma_binom_above(n as nat, k as nat);
        }
        return Some(0);
    }
    let steps = if k > n - k { n - k } else { k };
    proof {
        law_binom_symmetric(n as nat, k as nat);
    }
    let mut res: u64 = 1;
    let mut i: u64 = 0;
    while i < steps
        invariant
            i <= steps <= n,
            k <= n,
            steps == binomial_steps(n as nat, k as nat),
            binomial_steps_fit(n as nat, i as nat),
            res == binom(n as nat, i as nat),
        decreases steps - i,
    {
        proof {
            lemma_binom_step(n as nat, i as nat);
        }
        let prod = match res.checked_mul(n - i) {
            Some(p) => p,
            None => {
                assert(!(binom(n as nat, i as nat) * (n - i) <= u64::MAX));
                assert(!binomial_steps_fit(n as nat, steps as nat));
                return None;
            },
        };
        assert(prod == binom(n as nat, (i + 1) as nat) * (i + 1)) by (nonlinear_arith)
            requires
                prod == res * (n - i),
                res == binom(n as nat, i as nat),
                (i + 1) * binom(n as nat, (i + 1) as nat) == (n - i) * binom(n as nat, i as nat),
        ;
        assert(binomial_steps_fit(n as nat, (i + 1) as nat)) by {
            assert(binom(n as nat, i as nat) * (n - i) <= u64::MAX);
            assert forall|j: nat| j < i + 1 implies #[trigger] binom(n as nat, j) * (n - j)
                <= u64::MAX by {
                if j < i {
                    assert(binom(n as nat, j) * (n - j) <= u64::MAX);
                }
            }
        }
        proof {
            vstd::arithmetic::div_mod::lemma_div_by_multiple(
                binom(n as nat, (i + 1) as nat) as int,
                (i + 1) as int,
            );
        }
        res = prod / (i + 1);
        i = i + 1;
    }
    assert(binom(n as nat, steps as nat) == binom(n as nat, k as nat));
    Some(res)
}

/// The row `[C(n, 0), ..., C(n, n)]`, or `None` exactly when walking the row would
/// overflow `u64` or the row would not fit in memory addressable by `usize`.
pub fn checked_binomial_coefficients(n: u64) -> (res: Option<Vec<u64>>)
    ensures
        res is None <==> !binomial_steps_fit(n as nat, n as nat) || n >= usize::MAX,
        res matches Some(row) ==> row.len() == n + 1 && forall|k: int|
            0 <= k <= n ==> #[trigger] row[k] == binom(n as nat, k as nat),
{
    if n >= usize::MAX as u64 {
        return None;
    }
    let mut i: u64 = 0;
    let mut current: u64 = 1;
    while i < n
        invariant
            i <= n,
            binomial_steps_fit(n as nat, i as nat),
            current == binom(n as nat, i as nat),
        decreases n - i,
    {
        proof {
            lemma_binom_step(n as nat, i as nat);
        }
        let prod = match current.checked_mul(n - i) {
            Some(p) => p,
            None => {
                assert(current * (n - i) > u64::MAX);
                assert(!(binom(n as nat, i as nat) * (n - i) <= u64::MAX));
                assert(!binomial_steps_fit(n as nat, n as nat));
                return None;
            },
        };
        assert(prod == binom(n as nat, (i + 1) as nat) * (i + 1)) by (nonlinear_arith)
            requires
                prod == current * (n - i),
                current == binom(n as nat, i as nat),
                (i + 1) * binom(n as nat, (i + 1) as nat) == (n - i) * binom(n as nat, i as nat),
        ;
        assert(binomial_steps_fit(n as nat, (i + 1) as nat)) by {
            assert(binom(n as nat, i as nat) * (n - i) <= u64::MAX);
            assert forall|j: nat| j < i + 1 implies #[trigger] binom(n as nat, j) * (n - j)
                <= u64::MAX by {
                if j < i {
                    assert(binom(n as nat, j) * (n - j) <= u64::MAX);
                }
            }
        }
        proof {
            vstd::arithmetic::div_mod::lemma_div_by_multiple(
                binom(n as nat, (i + 1) as nat) as int,
                (i + 1) as int,
            );
        }
        current = prod / (i + 1);
        i = i + 1;
    }
    Some(binomial_coefficients(n))
}

/// The walk for `C(n, k)` is never longer than the walk from the other end of the row,
/// `C(n, n - k)`, and the two are the same walk: it takes at most `k` and at most `n - k`
/// steps (so at most half the row), and one of the two.
pub proof fn law_binomial_steps_shortest(n: nat, k: nat)
    requires
        k <= n,
    ensures
        binomial_steps(n, k) <= k,
        binomial_steps(n, k) <= n - k,
        binomial_steps(n, k) == k || binomial_steps(n, k) == n - k,
        2 * binomial_steps(n, k) <= n,
        binomial_steps(n, k) == binomial_steps(n, (n - k) as nat),
{
}

/// Whether `C(n, k)` can be computed without overflow does not depend on the end of the
/// row it is walked from: the checked coefficient is `None` for `(n, k)` exactly when it is
/// `None` for `(n, n - k)`, and it is a value exactly when walking `k` steps from one end or
/// `n - k` steps from the other would fit.
pub proof fn law_binomial_fit_symmetric(n: nat, k: nat)
    requires
        k <= n,
    ensures
        binomial_steps_fit(n, binomial_steps(n, k)) <==> binomial_steps_fit(
            n,
            binomial_steps(n, (n - k) as nat),
        ),
        binomial_steps_fit(n, binomial_steps(n, k)) <==> (binomial_steps_fit(n, k)
            || binomial_steps_fit(n, (n - k) as nat)),
        binom(n, k) == binom(n, (n - k) as nat),
{
    law_binom_symmetric(n, k);
    if binomial_steps_fit(n, k) {
        assert forall|i: nat| i < binomial_steps(n, k) implies #[trigger] binom(n, i) * (n - i)
            <= u64::MAX by {
            assert(i < k);
        }
    }
    if binomial_steps_fit(n, (n - k) as nat) {
        assert forall|i: nat| i < binomial_steps(n, k) implies #[trigger] binom(n, i) * (n - i)
            <= u64::MAX by {
            assert(i < n - k);
        }
    }
}

} // verus!
