use vstd::prelude::*;

use super::factorial::{falling, lemma_falling_above, lemma_falling_last, lemma_falling_monotone};

verus! {

/// `nPr = n! / (n - r)!`, the number of ordered selections of `r` out of `n`;
/// 0 when `r > n`.
pub fn permutation(n: u64, r: u64) -> (res: u64)
    requires
        r <= n ==> falling(n as nat, r as nat) <= u64::MAX,
    ensures
        res == falling(n as nat, r as nat),
{
    if r == 0 {
        return 1;
    }
    if n < r {
        proof {
            lemma_falling_above(n as nat, r as nat);
        }
        return 0;
    }
    let mut result: u64 = 1;
    let mut i: u64 = n;
    let stop: u64 = n - r;
    while i > stop
        invariant
            stop == n - r,
            stop <= i <= n,
            falling(n as nat, r as nat) <= u64::MAX,
            result == falling(n as nat, (n - i) as nat),
        decreases i,
    {
        proof {
            lemma_falling_last(n as nat, (n - i) as nat);
            lemma_falling_monotone(n as nat, (n - i + 1) as nat, r as nat);
        }
        result = result * i;
        i = i - 1;
    }
    result
}

} // verus!
