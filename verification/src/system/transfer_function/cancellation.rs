use vstd::prelude::*;

verus! {

/// A table with a row per numerator root (as many as a `Vec` can hold) and, in each row,
/// one entry per denominator root.
pub open spec fn match_table(close: Seq<Seq<bool>>, denominator_len: usize) -> bool {
    &&& close.len() <= usize::MAX
    &&& forall|i: int| 0 <= i < close.len() ==> #[trigger] close[i].len() == denominator_len
}

/// The indices `0, 1, ..., n - 1`, in order.
pub open spec fn all_indices(n: nat) -> Seq<usize> {
    Seq::new(n, |j: int| j as usize)
}

/// Entry `p` of `remaining` is the first one that `row` marks.
pub open spec fn is_first_match(row: Seq<bool>, remaining: Seq<usize>, p: int) -> bool {
    &&& 0 <= p < remaining.len()
    &&& row[remaining[p] as int]
    &&& forall|q: int| 0 <= q < p ==> !row[#[trigger] remaining[q] as int]
}

/// `row` marks some entry of `remaining`.
pub open spec fn has_match(row: Seq<bool>, remaining: Seq<usize>) -> bool {
    exists|p: int| is_first_match(row, remaining, p)
}

/// Each entry is smaller than the next.
pub open spec fn strictly_increasing(s: Seq<usize>) -> bool {
    forall|x: int, y: int| 0 <= x < y < s.len() ==> s[x] < s[y]
}

/// Every entry is below `n`.
pub open spec fn all_below(s: Seq<usize>, n: nat) -> bool {
    forall|x: int| 0 <= x < s.len() ==> #[trigger] s[x] < n
}

/// Pole-zero cancellation after the first `k` numerator roots: the numerator roots kept
/// and the denominator roots not yet cancelled, both as indices in order.  Numerator root
/// `i` cancels against the first denominator root left that `close[i]` marks as the same
/// root; with none, it is kept.
pub open spec fn cancellation(close: Seq<Seq<bool>>, denominator_len: usize, k: nat) -> (
    Seq<usize>,
    Seq<usize>,
)
    decreases k,
{
    if k == 0 {
        (Seq::empty(), all_indices(denominator_len as nat))
    } else {
        let prev = cancellation(close, denominator_len, (k - 1) as nat);
        let row = close[k - 1];
        if has_match(row, prev.1) {
            let p = choose|p: int| is_first_match(row, prev.1, p);
            (prev.0, prev.1.remove(p))
        } else {
            (prev.0.push((k - 1) as usize), prev.1)
        }
    }
}

/// A root that `row` marks somewhere in `remaining` has a first mark.
proof fn lemma_first_match(row: Seq<bool>, remaining: Seq<usize>, y: int)
    requires
        0 <= y < remaining.len(),
        row[remaining[y] as int],
    ensures
        has_match(row, remaining),
    decreases y,
{
    if forall|q: int| 0 <= q < y ==> !row[#[trigger] remaining[q] as int] {
        assert(is_first_match(row, remaining, y));
    } else {
        let q = choose|q: int| 0 <= q < y && row[#[trigger] remaining[q] as int];
        lemma_first_match(row, remaining, q);
    }
}

/// After cancellation no numerator root left is marked as the same as a denominator root
/// left; as many roots were taken from the numerator as from the denominator; and the
/// indices kept on each side are distinct, in order and in range.
pub proof fn law_cancellation(close: Seq<Seq<bool>>, denominator_len: usize, k: nat)
    requires
        match_table(close, denominator_len),
        k <= close.len(),
    ensures
        strictly_increasing(cancellation(close, denominator_len, k).0),
        all_below(cancellation(close, denominator_len, k).0, k),
        strictly_increasing(cancellation(close, denominator_len, k).1),
        all_below(cancellation(close, denominator_len, k).1, denominator_len as nat),
        k - cancellation(close, denominator_len, k).0.len() == denominator_len - cancellation(
            close,
            denominator_len,
            k,
        ).1.len(),
        forall|x: int, y: int|
            0 <= x < cancellation(close, denominator_len, k).0.len() && 0 <= y < cancellation(
                close,
                denominator_len,
                k,
            ).1.len() ==> !close[cancellation(close, denominator_len, k).0[x] as int][cancellation(
                close,
                denominator_len,
                k,
            ).1[y] as int],
    decreases k,
{
    if k > 0 {
        law_cancellation(close, denominator_len, (k - 1) as nat);
        let prev = cancellation(close, denominator_len, (k - 1) as nat);
        let row = close[k - 1];
        if has_match(row, prev.1) {
            let p = choose|p: int| is_first_match(row, prev.1, p);
            let rem = prev.1.remove(p);
            assert forall|y: int| 0 <= y < rem.len() implies rem[y] == (if y < p {
                prev.1[y]
            } else {
                prev.1[y + 1]
            }) by {}
        } else {
            let kept = prev.0.push((k - 1) as usize);
            assert forall|y: int| 0 <= y < prev.1.len() implies !row[prev.1[y] as int] by {
                if row[prev.1[y] as int] {
                    lemma_first_match(row, prev.1, y);
                }
            }
            assert forall|x: int, y: int|
                0 <= x < kept.len() && 0 <= y < prev.1.len() implies !close[kept[x] as int][prev.1[y] as int] by {
                if x < prev.0.len() {
                    assert(kept[x] == prev.0[x]);
                }
            }
        }
    }
}

/// Pole-zero cancellation on a table of root matches.  `close[i][j]` says whether
/// numerator root `i` and denominator root `j` count as the same root.  Going through the
/// numerator roots in order, each cancels against the first denominator root left that it
/// matches.  The result holds the indices of the numerator roots kept and of the
/// denominator roots left, each in order.
pub fn cancel_common_roots(close: &Vec<Vec<bool>>, denominator_len: usize) -> (res: (
    Vec<usize>,
    Vec<usize>,
))
    requires
        match_table(close.deep_view(), denominator_len),
    ensures
        (res.0@, res.1@) == cancellation(close.deep_view(), denominator_len, close.len() as nat),
{
    let ghost table = close.deep_view();
    let mut kept: Vec<usize> = Vec::new();
    let mut remaining: Vec<usize> = Vec::new();
    let mut j: usize = 0;
    while j < denominator_len
        invariant
            j <= denominator_len,
            remaining@ =~= all_indices(j as nat),
        decreases denominator_len - j,
    {
        remaining.push(j);
        j = j + 1;
    }
    assert(cancellation(table, denominator_len, 0) == (kept@, remaining@));
    let mut i: usize = 0;
    while i < close.len()
        invariant
            i <= close.len(),
            table == close.deep_view(),
            match_table(table, denominator_len),
            (kept@, remaining@) == cancellation(table, denominator_len, i as nat),
        decreases close.len() - i,
    {
        proof {
            law_cancellation(table, denominator_len, i as nat);
        }
        let row: &Vec<bool> = &close[i];
        assert(row@ =~= table[i as int]);
        let mut p: usize = 0;
        while p < remaining.len() && !row[remaining[p]]
            invariant
                p <= remaining.len(),
                row.len() == denominator_len,
                all_below(remaining@, denominator_len as nat),
                forall|q: int| 0 <= q < p ==> !row@[#[trigger] remaining@[q] as int],
            decreases remaining.len() - p,
        {
            p = p + 1;
        }
        let ghost before = remaining@;
        if p < remaining.len() {
            proof {
                assert(is_first_match(row@, before, p as int));
                let c = choose|c: int| is_first_match(row@, before, c);
                assert(c == p) by {
                    if c < p {
                        assert(!row@[before[c] as int]);
                    } else if c > p {
                        assert(!row@[before[p as int] as int]);
                    }
                }
            }
            remaining.remove(p);
        } else {
            assert(!has_match(row@, before));
            kept.push(i);
        }
        i = i + 1;
    }
    (kept, remaining)
}

/// With a single numerator root, cancellation removes the lowest-index denominator root
/// it matches and keeps the numerator root out; with no match, nothing is removed and the
/// numerator root is kept.
pub proof fn law_cancellation_one_root(row: Seq<bool>, denominator_len: usize, first: int)
    requires
        row.len() == denominator_len,
    ensures
        (forall|j: int| 0 <= j < denominator_len ==> !#[trigger] row[j]) ==> cancellation(
            seq![row],
            denominator_len,
            1,
        ) == (seq![0usize], all_indices(denominator_len as nat)),
        0 <= first < denominator_len && row[first] && (forall|j: int|
            0 <= j < first ==> !#[trigger] row[j]) ==> cancellation(
            seq![row],
            denominator_len,
            1,
        ) == (Seq::<usize>::empty(), all_indices(denominator_len as nat).remove(first)),
{
    let table = seq![row];
    let all = all_indices(denominator_len as nat);
    assert(table[0] == row);
    assert(cancellation(table, denominator_len, 0) == (Seq::<usize>::empty(), all));
    if forall|j: int| 0 <= j < denominator_len ==> !#[trigger] row[j] {
        assert(!has_match(row, all)) by {
            if has_match(row, all) {
                let p = choose|p: int| is_first_match(row, all, p);
                assert(row[all[p] as int]);
            }
        }
        assert(Seq::<usize>::empty().push(0usize) =~= seq![0usize]);
    }
    if 0 <= first < denominator_len && row[first] && (forall|j: int|
        0 <= j < first ==> !#[trigger] row[j]) {
        assert(is_first_match(row, all, first)) by {
            assert forall|q: int| 0 <= q < first implies !row[#[trigger] all[q] as int] by {
                assert(all[q] as int == q);
                assert(!row[q]);
            }
        }
        let c = choose|c: int| is_first_match(row, all, c);
        assert(c == first) by {
            if c < first {
                assert(all[c] as int == c);
                assert(!row[c]);
            } else if c > first {
                assert(!row[all[first] as int]);
            }
        }
    }
}

} // verus!
