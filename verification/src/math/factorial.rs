use vstd::prelude::*;

use super::combinatorics::{binom, lemma_binom_above, lemma_binom_step};

verus! {

/// `n!`
pub open spec fn fact(n: nat) -> nat
    decreases n,
{
    if n == 0 {
        1
    } else {
        n * fact((n - 1) as nat)
    }
}

/// The falling factorial `n * (n - 1) * ... * (n - r + 1)` (`r` factors), which is 0 when `r > n`.
pub open spec fn falling(n: nat, r: nat) -> nat
    decreases r,
{
    if r == 0 {
        1
    } else {
        n * falling((n - 1) as nat, (r - 1) as nat)
    }
}

/// `n! >= 1`.
pub proof fn lemma_fact_positive(n: nat)
    ensures
        fact(n) >= 1,
    decreases n,
{
    if n > 0 {
        lemma_fact_positive((n - 1) as nat);
        assert(n * fact((n - 1) as nat) >= 1) by (nonlinear_arith)
            requires
                n >= 1,
                fact((n - 1) as nat) >= 1,
        ;
    }
}

/// `i <= n` implies `i! <= n!`.
pub proof fn lemma_fact_monotone(i: nat, n: nat)
    requires
        i <= n,
    ensures
        fact(i) <= fact(n),
    decreases n,
{
    if i < n {
        lemma_fact_monotone(i, (n - 1) as nat);
        lemma_fact_positive((n - 1) as nat);
        assert(fact((n - 1) as nat) <= n * fact((n - 1) as nat)) by (nonlinear_arith)
            requires
                n >= 1,
        ;
    }
}

/// For `n >= 2`, `n! >= n * (n - 1)`.
pub proof fn lemma_fact_lower(n: nat)
    requires
        n >= 2,
    ensures
        fact(n) >= n * (n - 1),
    decreases n,
{
    let m = (n - 1) as nat;
    assert(fact(m) >= m) by {
        if m >= 2 {
            lemma_fact_lower(m);
            assert(m * (m - 1) >= m) by (nonlinear_arith)
                requires
                    m >= 2,
            ;
        } else {
            assert(fact(0) == 1);
            assert(fact(1) == 1 * fact(0));
        }
    }
    assert(n * fact(m) >= n * m) by (nonlinear_arith)
        requires
            fact(m) >= m,
    ;
}

/// Peeling the last factor off a falling factorial:
/// `falling(n, j + 1) == falling(n, j) * (n - j)` for `j <= n`.
pub proof fn lemma_falling_last(n: nat, j: nat)
    requires
        j <= n,
    ensures
        falling(n, j + 1) == falling(n, j) * (n - j),
    decreases j,
{
    if j == 0 {
        assert(falling((n - 1) as nat, 0) == 1);
        assert(falling(n, 1) == n * falling((n - 1) as nat, 0));
        assert(falling(n, 0) == 1);
        assert(n * 1 == 1 * (n - 0)) by (nonlinear_arith);
    } else {
        let n1 = (n - 1) as nat;
        lemma_falling_last(n1, (j - 1) as nat);
        assert(falling(n, j + 1) == n * falling(n1, j));
        assert(falling(n, j) == n * falling(n1, (j - 1) as nat));
        assert(n * (falling(n1, (j - 1) as nat) * (n1 - (j - 1))) == (n * falling(n1, (j - 1) as nat))
            * (n - j)) by (nonlinear_arith)
            requires
                n1 == n - 1,
                j >= 1,
        ;
    }
}

/// A falling factorial with more factors than `n` contains the factor 0.
pub proof fn lemma_falling_above(n: nat, r: nat)
    requires
        r > n,
    ensures
        falling(n, r) == 0,
    decreases n,
{
    if n > 0 {
        lemma_falling_above((n - 1) as nat, (r - 1) as nat);
        assert(n * 0 == 0);
    } else {
        assert(0 * falling((n - 1) as nat, (r - 1) as nat) == 0);
    }
}

/// `j <= r <= n` implies `falling(n, j) <= falling(n, r)`.
pub proof fn lemma_falling_monotone(n: nat, j: nat, r: nat)
    requires
        j <= r <= n,
    ensures
        falling(n, j) <= falling(n, r),
    decreases r,
{
    if j < r {
        let r1 = (r - 1) as nat;
        lemma_falling_monotone(n, j, r1);
        lemma_falling_last(n, r1);
        assert(falling(n, r1) <= falling(n, r1) * (n - r1)) by (nonlinear_arith)
            requires
                r1 < n,
        ;
    }
}

/// `nPr == n! / (n - r)!`, stated without division: `falling(n, r) * (n - r)! == n!`.
pub proof fn law_falling_factorial(n: nat, r: nat)
    requires
        r <= n,
    ensures
        falling(n, r) * fact((n - r) as nat) == fact(n),
    decreases r,
{
    if r > 0 {
        let n1 = (n - 1) as nat;
        law_falling_factorial(n1, (r - 1) as nat);
        assert((n - r) as nat == (n1 - (r - 1)) as nat);
        assert(falling(n, r) * fact((n - r) as nat) == n * (falling(n1, (r - 1) as nat) * fact(
            (n1 - (r - 1)) as nat,
        ))) by (nonlinear_arith)
            requires
                falling(n, r) == n * falling(n1, (r - 1) as nat),
                (n - r) as nat == (n1 - (r - 1)) as nat,
        ;
        assert(fact(n) == n * fact(n1));
    } else {
        assert(falling(n, 0) == 1);
        assert(1 * fact(n) == fact(n)) by (nonlinear_arith);
    }
}

/// `C(n, k) == n! / (k! (n - k)!)`, stated without division:
/// `C(n, k) * k! * (n - k)! == n!`.
pub proof fn law_binom_factorial(n: nat, k: nat)
    requires
        k <= n,
    ensures
        binom(n, k) * fact(k) * fact((n - k) as nat) == fact(n),
    decreases k,
{
    if k == 0 {
        assert(binom(n, 0) == 1);
        assert(fact(0) == 1);
        assert(binom(n, 0) * fact(0) * fact(n) == fact(n)) by (nonlinear_arith)
            requires
                binom(n, 0) == 1,
                fact(0) == 1,
        ;
    } else {
        let k1 = (k - 1) as nat;
        law_binom_factorial(n, k1);
        lemma_binom_step(n, k1);
        let m = (n - k) as nat;
        assert(fact((n - k1) as nat) == (m + 1) * fact(m));
        assert(fact(k) == k * fact(k1));
        assert(binom(n, k) * fact(k) * fact(m) == fact(n)) by (nonlinear_arith)
            requires
                binom(n, k1) * fact(k1) * fact((n - k1) as nat) == fact(n),
                (k1 + 1) * binom(n, k1 + 1) == (n - k1) * binom(n, k1),
                fact((n - k1) as nat) == (m + 1) * fact(m),
                fact(k) == k * fact(k1),
                k == k1 + 1,
                m + 1 == n - k1,
        ;
    }
}

/// `nPr == C(n, r) * r!`: an ordered selection is an unordered one times its orderings.
pub proof fn law_falling_binom(n: nat, r: nat)
    ensures
        falling(n, r) == binom(n, r) * fact(r),
{
    if r > n {
        lemma_falling_above(n, r);
        lemma_binom_above(n, r);
    } else {
        law_falling_factorial(n, r);
        law_binom_factorial(n, r);
        lemma_fact_positive((n - r) as nat);
        let q = fact((n - r) as nat);
        vstd::arithmetic::mul::lemma_mul_equality_converse(
            q as int,
            falling(n, r) as int,
            (binom(n, r) * fact(r)) as int,
        );
        assert(q * falling(n, r) == q * (binom(n, r) * fact(r))) by (nonlinear_arith)
            requires
                falling(n, r) * q == fact(n),
                binom(n, r) * fact(r) * q == fact(n),
        ;
    }
}

/// `n!`
pub fn factorial(n: u64) -> (res: u64)
    requires
        fact(n as nat) <= u64::MAX,
    ensures
        res == fact(n as nat),
{
    if n == 0 || n == 1 {
        assert(fact(1) == 1 * fact(0));
        return 1;
    }
    proof {
        lemma_fact_lower(n as nat);
        assert(n < u64::MAX) by (nonlinear_arith)
            requires
                n * (n - 1) <= u64::MAX,
                n >= 2,
        ;
    }
    let mut result: u64 = 1;
    let mut i: u64 = 2;
    assert(fact(1) == 1) by {
        assert(fact(0) == 1);
    }
    while i <= n
        invariant
            2 <= i <= n + 1,
            n < u64::MAX,
            fact(n as nat) <= u64::MAX,
            result == fact((i - 1) as nat),
        decreases n + 1 - i,
    {
        proof {
            lemma_fact_monotone(i as nat, n as nat);
            assert(fact(i as nat) == result * i) by (nonlinear_arith)
                requires
                    fact(i as nat) == i * fact((i - 1) as nat),
                    result == fact((i - 1) as nat),
            ;
        }
        result = result * i;
        i = i + 1;
    }
    result
}

/// `nPr = n! / (n - r)!`, the number of ordered selections of `r` out of `n`;
/// 0 when `r > n`.
pub fn factorial_n_to_r(n: u64, r: u64) -> (res: u64)
    requires
        r <= n ==> falling(n as nat, r as nat) <= u64::MAX,
    ensures
        res == falling(n as nat, r as nat),
{
    if n < r {
        proof {
            lemma_falling_above(n as nat, r as nat);
        }
        return 0;
    }
    if r == 0 {
        return 1;
    }
    let mut result: u64 = n;
    let mut i: u64 = n - 1;
    let stop: u64 = n - r;
    proof {
        lemma_falling_last(n as nat, 0);
        assert(falling(n as nat, 0) == 1);
    }
    while i > stop
        invariant
            stop == n - r,
            stop <= i < n,
            falling(n as nat, r as nat) <= u64::MAX,
            result == falling(n as nat, (n - i) as nat),
        decreases i,
    {
        proof {
            lemma_falling_last(n as nat, (n - i) as nat);
            lemma_falling_monotone(n as nat, (n - i + 1) as nat, r as nat);
        }
        result = result * i;
        i = i - 1;
    }
    result
}

} // verus!
