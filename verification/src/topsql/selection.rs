//! Ranking of per-second samples: which samples of one second are among the
//! `top_n` with the highest CPU time.

use vstd::prelude::*;

verus! {

/// What the ranking reads of a sample: its second and its CPU time.
#[derive(Clone, Copy, Debug)]
pub struct RankKey {
    pub timestamp_sec: u64,
    pub cpu_time_ms: u32,
}

/// Sample `j` is ranked before sample `i`: both belong to the same second and
/// `j` has the higher CPU time, or the same CPU time and the earlier position.
pub open spec fn beats(r: Seq<RankKey>, j: int, i: int) -> bool {
    &&& r[j].timestamp_sec == r[i].timestamp_sec
    &&& (r[j].cpu_time_ms > r[i].cpu_time_ms || (r[j].cpu_time_ms == r[i].cpu_time_ms && j < i))
}

/// Number of samples among the first `n` that are ranked before sample `i`.
pub open spec fn rank_upto(r: Seq<RankKey>, i: int, n: nat) -> nat
    decreases n,
{
    if n == 0 {
        0
    } else {
        rank_upto(r, i, (n - 1) as nat) + if beats(r, n - 1, i) {
            1nat
        } else {
            0nat
        }
    }
}

/// Number of samples that are ranked before sample `i`.
pub open spec fn rank(r: Seq<RankKey>, i: int) -> nat {
    rank_upto(r, i, r.len())
}

/// Sample `i` is retained: fewer than `top_n` samples of its second are ranked
/// before it.
pub open spec fn retained(r: Seq<RankKey>, top_n: nat, i: int) -> bool {
    rank(r, i) < top_n
}

/// Number of samples among the first `n` that belong to second `t`.
pub open spec fn in_second_upto(r: Seq<RankKey>, t: u64, n: nat) -> nat
    decreases n,
{
    if n == 0 {
        0
    } else {
        in_second_upto(r, t, (n - 1) as nat) + if r[n - 1].timestamp_sec == t {
            1nat
        } else {
            0nat
        }
    }
}

/// Number of samples among the first `n` that belong to second `t` and are
/// flagged in `kept`.
pub open spec fn flagged_upto(r: Seq<RankKey>, kept: Seq<bool>, t: u64, n: nat) -> nat
    decreases n,
{
    if n == 0 {
        0
    } else {
        flagged_upto(r, kept, t, (n - 1) as nat) + if r[n - 1].timestamp_sec == t && kept[n - 1] {
            1nat
        } else {
            0nat
        }
    }
}

proof fn lemma_rank_is_flagged(r: Seq<RankKey>, kept: Seq<bool>, i: int, n: nat)
    requires
        0 <= i < r.len(),
        n <= r.len(),
        kept.len() == r.len(),
        forall|j: int|
            0 <= j < n ==> (beats(r, j, i) <==> (r[j].timestamp_sec == r[i].timestamp_sec
                && kept[j])),
    ensures
        rank_upto(r, i, n) == flagged_upto(r, kept, r[i].timestamp_sec, n),
    decreases n,
{
    if n > 0 {
        lemma_rank_is_flagged(r, kept, i, (n - 1) as nat);
    }
}

proof fn lemma_rank_covers_flagged(r: Seq<RankKey>, kept: Seq<bool>, i: int, n: nat)
    requires
        0 <= i < r.len(),
        n <= r.len(),
        kept.len() == r.len(),
        forall|j: int|
            0 <= j < n && r[j].timestamp_sec == r[i].timestamp_sec && kept[j] ==> beats(r, j, i),
    ensures
        rank_upto(r, i, n) >= flagged_upto(r, kept, r[i].timestamp_sec, n),
    decreases n,
{
    if n > 0 {
        lemma_rank_covers_flagged(r, kept, i, (n - 1) as nat);
    }
}

proof fn lemma_flag_one(r: Seq<RankKey>, kept: Seq<bool>, b: int, t: u64, n: nat)
    requires
        0 <= b < r.len(),
        n <= r.len(),
        kept.len() == r.len(),
        !kept[b],
        r[b].timestamp_sec == t,
    ensures
        flagged_upto(r, kept.update(b, true), t, n) == flagged_upto(r, kept, t, n) + if b < n {
            1nat
        } else {
            0nat
        },
    decreases n,
{
    if n > 0 {
        lemma_flag_one(r, kept, b, t, (n - 1) as nat);
    }
}

proof fn lemma_rank_below_second(r: Seq<RankKey>, i: int, n: nat)
    requires
        0 <= i < r.len(),
        n <= r.len(),
    ensures
        rank_upto(r, i, n) + (if i < n {
            1nat
        } else {
            0nat
        }) <= in_second_upto(r, r[i].timestamp_sec, n),
    decreases n,
{
    if n > 0 {
        lemma_rank_below_second(r, i, (n - 1) as nat);
    }
}

/// The retained samples of a second come first in its ranking: whatever is
/// retained is ranked before whatever is not.
pub proof fn lemma_retained_dominate(r: Seq<RankKey>, top_n: nat, i: int, j: int)
    requires
        0 <= i < r.len(),
        0 <= j < r.len(),
        r[i].timestamp_sec == r[j].timestamp_sec,
        retained(r, top_n, i),
        !retained(r, top_n, j),
    ensures
        beats(r, i, j),
        r[i].cpu_time_ms >= r[j].cpu_time_ms,
{
    if !beats(r, i, j) {
        assert(i != j);
        assert(beats(r, j, i));
        lemma_rank_monotone(r, j, i, r.len());
    }
}

proof fn lemma_rank_monotone(r: Seq<RankKey>, j: int, i: int, n: nat)
    requires
        0 <= i < r.len(),
        0 <= j < r.len(),
        n <= r.len(),
        beats(r, j, i),
    ensures
        rank_upto(r, j, n) <= rank_upto(r, i, n),
    decreases n,
{
    if n > 0 {
        lemma_rank_monotone(r, j, i, (n - 1) as nat);
    }
}

/// Flags of the samples that are retained: `kept[i]` holds exactly when fewer
/// than `top_n` samples of the same second are ranked before sample `i`.
pub fn select_top_n(r: &Vec<RankKey>, top_n: usize) -> (kept: Vec<bool>)
    ensures
        kept@.len() == r@.len(),
        forall|i: int| 0 <= i < r@.len() ==> kept@[i] == retained(r@, top_n as nat, i),
        forall|t: u64| #[trigger]
            flagged_upto(r@, kept@, t, r@.len()) == min_count(
                top_n as nat,
                in_second_upto(r@, t, r@.len()),
            ),
{
    let n = r.len();
    let mut kept: Vec<bool> = Vec::new();
    let mut seen: Vec<bool> = Vec::new();
    let mut k: usize = 0;
    while k < n
        invariant
            n == r@.len(),
            k <= n,
            kept@.len() == k,
            seen@.len() == k,
            forall|j: int| 0 <= j < k ==> !kept@[j] && !seen@[j],
        decreases n - k,
    {
        kept.push(false);
        seen.push(false);
        k = k + 1;
    }
    let mut i: usize = 0;
    proof {
        assert forall|t: u64| #[trigger] flagged_upto(r@, kept@, t, n as nat) == 0 by {
            lemma_none_flagged(r@, kept@, t, n as nat);
        }
    }
    while i < n
        invariant
            n == r@.len(),
            i <= n,
            kept@.len() == n,
            seen@.len() == n,
            forall|t: u64| #[trigger]
                flagged_upto(r@, kept@, t, n as nat) == if second_seen(r@, seen@, t) {
                    min_count(top_n as nat, in_second_upto(r@, t, n as nat))
                } else {
                    0
                },
            forall|j: int| 0 <= j < i ==> seen@[j],
            forall|j: int, l: int|
                0 <= j < n && 0 <= l < n && seen@[j] && r@[j].timestamp_sec == r@[l].timestamp_sec
                    ==> seen@[l],
            forall|j: int| 0 <= j < n && seen@[j] ==> kept@[j] == retained(r@, top_n as nat, j),
            forall|j: int| 0 <= j < n && !seen@[j] ==> !kept@[j],
        decreases n - i,
    {
        if !seen[i] {
            let t = r[i].timestamp_sec;
            assert forall|j: int| 0 <= j < i implies r@[j].timestamp_sec != t by {
                if r@[j].timestamp_sec == t {
                    assert(seen@[j] && r@[j].timestamp_sec == r@[i as int].timestamp_sec);
                }
            }
            let ghost seen_before = seen@;
            let ghost kept_before = kept@;
            let bucket = collect_second(r, t, i, &mut seen);
            rank_second(r, t, &bucket, top_n, &mut kept);
            proof {
                assert(seen@[i as int]);
                assert forall|u: u64| #[trigger]
                    flagged_upto(r@, kept@, u, n as nat) == if second_seen(r@, seen@, u) {
                        min_count(top_n as nat, in_second_upto(r@, u, n as nat))
                    } else {
                        0
                    } by {
                    if u == t {
                        assert(second_seen(r@, seen@, u));
                    } else {
                        lemma_flagged_elsewhere(r@, kept_before, kept@, u, n as nat);
                        assert(flagged_upto(r@, kept_before, u, n as nat) == if second_seen(
                            r@,
                            seen_before,
                            u,
                        ) {
                            min_count(top_n as nat, in_second_upto(r@, u, n as nat))
                        } else {
                            0
                        });
                        if second_seen(r@, seen_before, u) {
                            let j = choose|j: int|
                                0 <= j < r@.len() && seen_before[j] && r@[j].timestamp_sec == u;
                            assert(seen@[j]);
                        }
                        if second_seen(r@, seen@, u) {
                            let j = choose|j: int|
                                0 <= j < r@.len() && seen@[j] && r@[j].timestamp_sec == u;
                            assert(seen_before[j]);
                        }
                    }
                }
            }
        }
        i = i + 1;
    }
    proof {
        assert forall|t: u64| #[trigger]
            flagged_upto(r@, kept@, t, n as nat) == min_count(
                top_n as nat,
                in_second_upto(r@, t, n as nat),
            ) by {
            if !second_seen(r@, seen@, t) {
                assert forall|j: int| 0 <= j < n implies r@[j].timestamp_sec != t by {
                    assert(seen@[j]);
                }
                lemma_none_in_second(r@, t, n as nat);
            }
        }
    }
    kept
}

/// The smaller of two counts.
pub open spec fn min_count(a: nat, b: nat) -> nat {
    if a <= b {
        a
    } else {
        b
    }
}

/// Some sample of second `t` has been seen.
pub open spec fn second_seen(r: Seq<RankKey>, seen: Seq<bool>, t: u64) -> bool {
    exists|j: int| 0 <= j < r.len() && seen[j] && r[j].timestamp_sec == t
}

proof fn lemma_flagged_elsewhere(r: Seq<RankKey>, a: Seq<bool>, b: Seq<bool>, t: u64, n: nat)
    requires
        n <= r.len(),
        a.len() == r.len(),
        b.len() == r.len(),
        forall|j: int| 0 <= j < n && r[j].timestamp_sec == t ==> a[j] == b[j],
    ensures
        flagged_upto(r, a, t, n) == flagged_upto(r, b, t, n),
    decreases n,
{
    if n > 0 {
        lemma_flagged_elsewhere(r, a, b, t, (n - 1) as nat);
    }
}

/// The positions of the samples of second `t` form `bucket`, in rising order.
pub open spec fn is_bucket(r: Seq<RankKey>, t: u64, bucket: Seq<usize>) -> bool {
    &&& forall|p: int| 0 <= p < bucket.len() ==> bucket[p] < r.len() && r[bucket[p] as int].timestamp_sec == t
    &&& forall|p: int, q: int| 0 <= p < q < bucket.len() ==> bucket[p] < bucket[q]
    &&& forall|j: int| 0 <= j < r.len() && r[j].timestamp_sec == t ==> exists|p: int| 0 <= p < bucket.len() && bucket[p] == j
    &&& bucket.len() == in_second_upto(r, t, r.len())
}

fn collect_second(r: &Vec<RankKey>, t: u64, first: usize, seen: &mut Vec<bool>) -> (bucket: Vec<usize>)
    requires
        first < r@.len(),
        old(seen)@.len() == r@.len(),
        r@[first as int].timestamp_sec == t,
        forall|j: int| 0 <= j < first ==> r@[j].timestamp_sec != t,
    ensures
        final(seen)@.len() == r@.len(),
        forall|j: int|
            0 <= j < r@.len() ==> final(seen)@[j] == (old(seen)@[j] || r@[j].timestamp_sec == t),
        is_bucket(r@, t, bucket@),
        bucket@.len() > 0,
{
    let n = r.len();
    let mut bucket: Vec<usize> = Vec::new();
    let mut j: usize = first;
    proof {
        lemma_none_in_second(r@, t, first as nat);
    }
    while j < n
        invariant
            n == r@.len(),
            first <= j <= n,
            seen@.len() == n,
            forall|l: int|
                0 <= l < j ==> seen@[l] == (old(seen)@[l] || r@[l].timestamp_sec == t),
            forall|l: int| j <= l < n ==> seen@[l] == old(seen)@[l],
            forall|p: int|
                0 <= p < bucket@.len() ==> bucket@[p] < j && r@[bucket@[p] as int].timestamp_sec
                    == t,
            forall|p: int, q: int| 0 <= p < q < bucket@.len() ==> bucket@[p] < bucket@[q],
            forall|l: int|
                0 <= l < j && r@[l].timestamp_sec == t ==> exists|p: int|
                    0 <= p < bucket@.len() && bucket@[p] == l,
            bucket@.len() == in_second_upto(r@, t, j as nat),
            j > first ==> bucket@.len() > 0,
            r@[first as int].timestamp_sec == t,
        decreases n - j,
    {
        if r[j].timestamp_sec == t {
            let ghost before = bucket@;
            bucket.push(j);
            seen[j] = true;
            assert(bucket@[before.len() as int] == j);
            assert forall|l: int| 0 <= l < j + 1 && r@[l].timestamp_sec == t implies exists|p: int|
                0 <= p < bucket@.len() && bucket@[p] == l by {
                if l < j {
                    let p = choose|p: int| 0 <= p < before.len() && before[p] == l;
                    assert(bucket@[p] == l);
                }
            }
        }
        j = j + 1;
    }
    bucket
}

proof fn lemma_none_in_second(r: Seq<RankKey>, t: u64, n: nat)
    requires
        n <= r.len(),
        forall|j: int| 0 <= j < n ==> r[j].timestamp_sec != t,
    ensures
        in_second_upto(r, t, n) == 0,
    decreases n,
{
    if n > 0 {
        lemma_none_in_second(r, t, (n - 1) as nat);
    }
}

fn rank_second(r: &Vec<RankKey>, t: u64, bucket: &Vec<usize>, top_n: usize, kept: &mut Vec<bool>)
    requires
        old(kept)@.len() == r@.len(),
        is_bucket(r@, t, bucket@),
        forall|j: int| 0 <= j < r@.len() && r@[j].timestamp_sec == t ==> !old(kept)@[j],
    ensures
        final(kept)@.len() == r@.len(),
        forall|j: int|
            0 <= j < r@.len() && r@[j].timestamp_sec != t ==> final(kept)@[j] == old(kept)@[j],
        forall|j: int|
            0 <= j < r@.len() && r@[j].timestamp_sec == t ==> final(kept)@[j] == retained(
                r@,
                top_n as nat,
                j,
            ),
        flagged_upto(r@, final(kept)@, t, r@.len()) == min_count(
            top_n as nat,
            in_second_upto(r@, t, r@.len()),
        ),
{
    let m = bucket.len();
    if m <= top_n {
        let mut p: usize = 0;
        while p < m
            invariant
                m == bucket@.len(),
                m <= top_n,
                p <= m,
                kept@.len() == r@.len(),
                old(kept)@.len() == r@.len(),
                is_bucket(r@, t, bucket@),
                forall|j: int|
                    0 <= j < r@.len() && r@[j].timestamp_sec != t ==> kept@[j] == old(kept)@[j],
                forall|q: int| 0 <= q < p ==> kept@[bucket@[q] as int],
            decreases m - p,
        {
            let b = bucket[p];
            kept[b] = true;
            p = p + 1;
        }
        proof {
            assert forall|j: int| 0 <= j < r@.len() && r@[j].timestamp_sec == t implies kept@[j]
                == retained(r@, top_n as nat, j) by {
                let q = choose|q: int| 0 <= q < bucket@.len() && bucket@[q] == j;
                assert(kept@[bucket@[q] as int]);
                lemma_rank_below_second(r@, j, r@.len());
            }
            lemma_all_flagged(r@, kept@, t, r@.len());
        }
        return ;
    }
    let mut round: usize = 0;
    proof {
        lemma_none_flagged(r@, kept@, t, r@.len());
    }
    while round < top_n
        invariant
            m == bucket@.len(),
            m > top_n,
            round <= top_n,
            kept@.len() == r@.len(),
            old(kept)@.len() == r@.len(),
            is_bucket(r@, t, bucket@),
            forall|j: int|
                0 <= j < r@.len() && r@[j].timestamp_sec != t ==> kept@[j] == old(kept)@[j],
            flagged_upto(r@, kept@, t, r@.len()) == round,
            forall|j: int|
                0 <= j < r@.len() && r@[j].timestamp_sec == t && kept@[j] ==> retained(
                    r@,
                    top_n as nat,
                    j,
                ),
            forall|j: int, l: int|
                0 <= j < r@.len() && 0 <= l < r@.len() && r@[j].timestamp_sec == t
                    && r@[l].timestamp_sec == t && kept@[j] && !kept@[l] ==> beats(r@, j, l),
        decreases top_n - round,
    {
        let found = best_unflagged(r, t, bucket, kept);
        match found {
            None => {
                // The second has more than `top_n` samples and fewer than
                // `top_n` of them are flagged: one is always found.
                proof {
                    lemma_all_flagged(r@, kept@, t, r@.len());
                }
                round = top_n;
            },
            Some(b) => {
                proof {
                    assert forall|j: int| 0 <= j < r@.len() implies (beats(r@, j, b as int) <==> (
                    r@[j].timestamp_sec == r@[b as int].timestamp_sec && kept@[j])) by {
                        if r@[j].timestamp_sec == t && !kept@[j] && j != b {
                            assert(beats(r@, b as int, j));
                        }
                    }
                    lemma_rank_is_flagged(r@, kept@, b as int, r@.len());
                    lemma_flag_one(r@, kept@, b as int, t, r@.len());
                }
                kept[b] = true;
                round = round + 1;
            },
        }
    }
    proof {
        assert forall|j: int| 0 <= j < r@.len() && r@[j].timestamp_sec == t implies kept@[j]
            == retained(r@, top_n as nat, j) by {
            if !kept@[j] {
                lemma_rank_covers_flagged(r@, kept@, j, r@.len());
            }
        }
    }
}

proof fn lemma_none_flagged(r: Seq<RankKey>, kept: Seq<bool>, t: u64, n: nat)
    requires
        n <= r.len(),
        kept.len() == r.len(),
        forall|j: int| 0 <= j < n && r[j].timestamp_sec == t ==> !kept[j],
    ensures
        flagged_upto(r, kept, t, n) == 0,
    decreases n,
{
    if n > 0 {
        lemma_none_flagged(r, kept, t, (n - 1) as nat);
    }
}

proof fn lemma_all_flagged(r: Seq<RankKey>, kept: Seq<bool>, t: u64, n: nat)
    requires
        n <= r.len(),
        kept.len() == r.len(),
        forall|j: int| 0 <= j < n && r[j].timestamp_sec == t ==> kept[j],
    ensures
        flagged_upto(r, kept, t, n) == in_second_upto(r, t, n),
    decreases n,
{
    if n > 0 {
        lemma_all_flagged(r, kept, t, (n - 1) as nat);
    }
}

/// The unflagged sample of second `t` that is ranked before every other
/// unflagged sample of that second, if there is one.
fn best_unflagged(r: &Vec<RankKey>, t: u64, bucket: &Vec<usize>, kept: &Vec<bool>) -> (found: Option<usize>)
    requires
        kept@.len() == r@.len(),
        is_bucket(r@, t, bucket@),
    ensures
        match found {
            None => forall|j: int| 0 <= j < r@.len() && r@[j].timestamp_sec == t ==> kept@[j],
            Some(b) => {
                &&& b < r@.len()
                &&& r@[b as int].timestamp_sec == t
                &&& !kept@[b as int]
                &&& forall|j: int|
                    0 <= j < r@.len() && r@[j].timestamp_sec == t && !kept@[j] && j != b ==> beats(
                        r@,
                        b as int,
                        j,
                    )
            },
        },
{
    let m = bucket.len();
    let mut found: Option<usize> = None;
    let mut p: usize = 0;
    while p < m
        invariant
            m == bucket@.len(),
            p <= m,
            kept@.len() == r@.len(),
            is_bucket(r@, t, bucket@),
            match found {
                None => forall|q: int| 0 <= q < p ==> kept@[bucket@[q] as int],
                Some(b) => {
                    &&& b < r@.len()
                    &&& r@[b as int].timestamp_sec == t
                    &&& !kept@[b as int]
                    &&& forall|q: int|
                        0 <= q < p && !kept@[bucket@[q] as int] && bucket@[q] != b ==> beats(
                            r@,
                            b as int,
                            bucket@[q] as int,
                        )
                },
            },
        decreases m - p,
    {
        let c = bucket[p];
        if !kept[c] {
            match found {
                None => {
                    found = Some(c);
                },
                Some(b) => {
                    if r[c].cpu_time_ms > r[b].cpu_time_ms || (r[c].cpu_time_ms
                        == r[b].cpu_time_ms && c < b) {
                        found = Some(c);
                    }
                },
            }
        }
        p = p + 1;
    }
    proof {
        assert forall|j: int| 0 <= j < r@.len() && r@[j].timestamp_sec == t implies (match found {
            None => kept@[j],
            Some(b) => !kept@[j] && j != b ==> beats(r@, b as int, j),
        }) by {
            let q = choose|q: int| 0 <= q < bucket@.len() && bucket@[q] == j;
            assert(bucket@[q] == j);
        }
    }
    found
}

} // verus!
