//! Folding of TopSQL items by second.

use super::kv::{kv_count, kv_fits, kv_merge_into, kv_views, KvExecCount, KvView};
use super::{item_views, Counter, ItemView, TopSqlRecordItem};
use crate::topsql::fold::{
    fold_by_second, lemma_fold_by_second, lemma_item_within_total, lemma_merge_at,
    lemma_prefix_fits, lemma_prefix_overflows, lemma_push_fits, lemma_total_at, merge_item,
    rising, second_total, totals_fit, Summable,
};
use vstd::prelude::*;

verus! {

/// Adds `x` to the item of its second in `acc`, or puts it in where `acc` has
/// no item for that second.
fn merge_into(acc: &mut Vec<TopSqlRecordItem>, x: TopSqlRecordItem)
    requires
        forall|c: Counter| #[trigger]
            second_total(item_views(old(acc)@), x@.timestamp_sec, c) + x@.amount(c)
                <= ItemView::limit(c),
    ensures
        item_views(final(acc)@) == merge_item(item_views(old(acc)@), x@),
{
    let ghost before = item_views(acc@);
    let mut p: usize = acc.len();
    while p > 0 && acc[p - 1].timestamp_sec > x.timestamp_sec
        invariant
            p <= acc@.len(),
            acc@ == old(acc)@,
            before == item_views(acc@),
            forall|q: int| p <= q < before.len() ==> before[q].second() > x@.second(),
        decreases p,
    {
        assert(before[p - 1].second() == acc@[p - 1].timestamp_sec);
        p = p - 1;
    }
    proof {
        if p > 0 {
            assert(before[p - 1].second() == acc@[p - 1].timestamp_sec);
        }
        lemma_merge_at(before, x@, p as int);
    }
    if p > 0 && acc[p - 1].timestamp_sec == x.timestamp_sec {
        let ghost target = before[p - 1];
        proof {
            assert(target == acc@[p - 1]@);
            assert forall|c: Counter| target.amount(c) + x@.amount(c) <= ItemView::limit(c) by {
                lemma_item_within_total(before, p - 1, c);
                assert(second_total(before, x@.timestamp_sec, c) + x@.amount(c) <= ItemView::limit(
                    c,
                ));
            }
            assert(target.amount(Counter::CpuTimeMs) + x@.amount(Counter::CpuTimeMs)
                <= ItemView::limit(Counter::CpuTimeMs));
            assert(target.amount(Counter::StmtExecCount) + x@.amount(Counter::StmtExecCount)
                <= ItemView::limit(Counter::StmtExecCount));
            assert(target.amount(Counter::StmtDurationSumNs) + x@.amount(
                Counter::StmtDurationSumNs,
            ) <= ItemView::limit(Counter::StmtDurationSumNs));
            assert(target.amount(Counter::StmtDurationCount) + x@.amount(
                Counter::StmtDurationCount,
            ) <= ItemView::limit(Counter::StmtDurationCount));
            assert forall|key: Seq<char>| #[trigger]
                kv_count(target.stmt_kv_exec_count, key) + kv_count(x@.stmt_kv_exec_count, key)
                    <= u64::MAX by {
                assert(target.amount(Counter::StmtKvExecCount(key)) + x@.amount(
                    Counter::StmtKvExecCount(key),
                ) <= ItemView::limit(Counter::StmtKvExecCount(key)));
            }
        }
        let TopSqlRecordItem {
            timestamp_sec: _,
            cpu_time_ms,
            stmt_exec_count,
            stmt_kv_exec_count,
            stmt_duration_sum_ns,
            stmt_duration_count,
        } = x;
        acc[p - 1].cpu_time_ms = acc[p - 1].cpu_time_ms + cpu_time_ms;
        acc[p - 1].stmt_exec_count = acc[p - 1].stmt_exec_count + stmt_exec_count;
        acc[p - 1].stmt_duration_sum_ns = acc[p - 1].stmt_duration_sum_ns + stmt_duration_sum_ns;
        acc[p - 1].stmt_duration_count = acc[p - 1].stmt_duration_count + stmt_duration_count;
        kv_merge_into(&mut acc[p - 1].stmt_kv_exec_count, stmt_kv_exec_count);
        proof {
            assert(acc@[p - 1]@ == target.plus(x@));
            assert(item_views(acc@) =~= before.update(p - 1, target.plus(x@)));
        }
    } else {
        acc.insert(p, x);
        proof {
            assert(item_views(acc@) =~= before.insert(p as int, x@));
        }
    }
}

/// Folds `items` by second.
pub fn fold_items(items: Vec<TopSqlRecordItem>) -> (out: Vec<TopSqlRecordItem>)
    requires
        totals_fit(item_views(items@)),
    ensures
        item_views(out@) == fold_by_second(item_views(items@)),
{
    let ghost all = item_views(items@);
    let n = items.len();
    let mut out: Vec<TopSqlRecordItem> = Vec::new();
    let mut i: usize = 0;
    assert(item_views(out@) =~= fold_by_second(all.take(0)));
    for x in it: items
        invariant
            i == it.index(),
            n == it.seq().len(),
            all == item_views(it.seq()),
            totals_fit(all),
            item_views(out@) == fold_by_second(all.take(i as int)),
    {
        proof {
            let done = all.take(i as int);
            let next = all.take(i + 1);
            assert(next.drop_last() == done);
            assert(next.last() == x@);
            lemma_prefix_fits(all, i as int);
            lemma_prefix_fits(all, i + 1);
            lemma_fold_by_second(done);
            assert forall|c: Counter| #[trigger]
                second_total(item_views(out@), x@.timestamp_sec, c) + x@.amount(c)
                    <= ItemView::limit(c) by {
                assert(second_total(next, x@.timestamp_sec, c) <= ItemView::limit(c));
            }
        }
        merge_into(&mut out, x);
        i = i + 1;
    }
    proof {
        assert(all.take(i as int) == all);
    }
    out
}

/// Whether `x` can be merged into `acc`: whether its counters fit on top of
/// the totals of its second.
fn fits_into(acc: &Vec<TopSqlRecordItem>, x: &TopSqlRecordItem) -> (r: bool)
    requires
        rising(item_views(acc@)),
        forall|c: Counter| #[trigger]
            second_total(item_views(acc@), x@.timestamp_sec, c) <= ItemView::limit(c),
    ensures
        r == forall|c: Counter| #[trigger]
            second_total(item_views(acc@), x@.timestamp_sec, c) + x@.amount(c) <= ItemView::limit(
                c,
            ),
{
    let ghost av = item_views(acc@);
    let ghost t = x@.timestamp_sec;
    let mut p: usize = acc.len();
    while p > 0 && acc[p - 1].timestamp_sec > x.timestamp_sec
        invariant
            p <= acc@.len(),
            av == item_views(acc@),
            forall|q: int| p <= q < av.len() ==> av[q].second() > x@.second(),
        decreases p,
    {
        assert(av[p - 1].second() == acc@[p - 1].timestamp_sec);
        p = p - 1;
    }
    proof {
        if p > 0 {
            assert(av[p - 1].second() == acc@[p - 1].timestamp_sec);
        }
        assert forall|c: Counter|
            second_total(av, t, c) == if p > 0 && av[p - 1].second() == t {
                av[p - 1].amount(c)
            } else {
                0
            } by {
            lemma_total_at(av, t, p as int, c);
        }
    }
    let empty: Vec<KvExecCount> = Vec::new();
    proof {
        assert(kv_views(empty@) =~= Seq::<KvView>::empty());
    }
    if p > 0 && acc[p - 1].timestamp_sec == x.timestamp_sec {
        let a = &acc[p - 1];
        assert(a@ == av[p - 1]);
        let scalars = a.cpu_time_ms as u64 + x.cpu_time_ms as u64 <= u32::MAX as u64
            && a.stmt_exec_count <= u64::MAX - x.stmt_exec_count && a.stmt_duration_sum_ns
            <= u64::MAX - x.stmt_duration_sum_ns && a.stmt_duration_count <= u64::MAX
            - x.stmt_duration_count;
        if !scalars {
            proof {
                let c = if a.cpu_time_ms + x.cpu_time_ms > u32::MAX {
                    Counter::CpuTimeMs
                } else if a.stmt_exec_count + x.stmt_exec_count > u64::MAX {
                    Counter::StmtExecCount
                } else if a.stmt_duration_sum_ns + x.stmt_duration_sum_ns > u64::MAX {
                    Counter::StmtDurationSumNs
                } else {
                    Counter::StmtDurationCount
                };
                assert(second_total(av, t, c) + x@.amount(c) > ItemView::limit(c));
            }
            return false;
        }
        proof {
            assert forall|key: Seq<char>| #[trigger]
                kv_count(kv_views(a.stmt_kv_exec_count@), key) <= u64::MAX by {
                assert(second_total(av, t, Counter::StmtKvExecCount(key)) <= ItemView::limit(
                    Counter::StmtKvExecCount(key),
                ));
            }
        }
        let r = kv_fits(&a.stmt_kv_exec_count, &x.stmt_kv_exec_count);
        proof {
            if r {
                assert forall|c: Counter| #[trigger]
                    second_total(av, t, c) + x@.amount(c) <= ItemView::limit(c) by {
                    if let Counter::StmtKvExecCount(key) = c {
                        assert(kv_count(kv_views(a.stmt_kv_exec_count@), key) + kv_count(
                            kv_views(x.stmt_kv_exec_count@),
                            key,
                        ) <= u64::MAX);
                    }
                }
            } else {
                let key = choose|key: Seq<char>|
                    !(#[trigger] kv_count(kv_views(a.stmt_kv_exec_count@), key) + kv_count(
                        kv_views(x.stmt_kv_exec_count@),
                        key,
                    ) <= u64::MAX);
                let c = Counter::StmtKvExecCount(key);
                assert(second_total(av, t, c) + x@.amount(c) > ItemView::limit(c));
            }
        }
        r
    } else {
        proof {
            assert forall|key: Seq<char>| #[trigger] kv_count(kv_views(empty@), key)
                <= u64::MAX by {}
        }
        let r = kv_fits(&empty, &x.stmt_kv_exec_count);
        proof {
            if r {
                assert forall|c: Counter| #[trigger]
                    second_total(av, t, c) + x@.amount(c) <= ItemView::limit(c) by {
                    if let Counter::StmtKvExecCount(key) = c {
                        assert(kv_count(kv_views(empty@), key) + kv_count(
                            kv_views(x.stmt_kv_exec_count@),
                            key,
                        ) <= u64::MAX);
                    }
                }
            } else {
                let key = choose|key: Seq<char>|
                    !(#[trigger] kv_count(kv_views(empty@), key) + kv_count(
                        kv_views(x.stmt_kv_exec_count@),
                        key,
                    ) <= u64::MAX);
                let c = Counter::StmtKvExecCount(key);
                assert(second_total(av, t, c) + x@.amount(c) > ItemView::limit(c));
            }
        }
        r
    }
}

/// Folds `items` by second where the totals of every second fit; `None`
/// where some total does not.
pub fn try_fold_items(items: &Vec<TopSqlRecordItem>) -> (r: Option<Vec<TopSqlRecordItem>>)
    ensures
        match r {
            Some(out) => totals_fit(item_views(items@)) && item_views(out@) == fold_by_second(
                item_views(items@),
            ),
            None => !totals_fit(item_views(items@)),
        },
{
    let ghost all = item_views(items@);
    let mut out: Vec<TopSqlRecordItem> = Vec::new();
    let mut i: usize = 0;
    proof {
        assert(all.take(0) =~= Seq::<ItemView>::empty());
        assert(item_views(out@) =~= fold_by_second(all.take(0)));
    }
    while i < items.len()
        invariant
            i <= items@.len(),
            all == item_views(items@),
            totals_fit(all.take(i as int)),
            item_views(out@) == fold_by_second(all.take(i as int)),
        decreases items@.len() - i,
    {
        let x = &items[i];
        let ghost done = all.take(i as int);
        let ghost next = all.take(i + 1);
        let ghost t = x@.timestamp_sec;
        proof {
            assert(next == done.push(x@));
            assert(next.drop_last() == done);
            lemma_fold_by_second(done);
            assert forall|c: Counter| #[trigger]
                second_total(item_views(out@), t, c) <= ItemView::limit(c) by {
                assert(second_total(done, t, c) <= ItemView::limit(c));
            }
        }
        if !fits_into(&out, x) {
            proof {
                let c = choose|c: Counter|
                    !(#[trigger] second_total(item_views(out@), t, c) + x@.amount(c)
                        <= ItemView::limit(c));
                assert(second_total(done, t, c) == second_total(item_views(out@), t, c));
                assert(second_total(next, t, c) > ItemView::limit(c));
                lemma_prefix_overflows(all, i + 1, t, c);
            }
            return None;
        }
        proof {
            assert forall|c: Counter| #[trigger]
                second_total(done, t, c) + x@.amount(c) <= ItemView::limit(c) by {
                assert(second_total(done, t, c) == second_total(item_views(out@), t, c));
                assert(second_total(item_views(out@), t, c) + x@.amount(c) <= ItemView::limit(c));
            }
            lemma_push_fits(done, x@);
        }
        merge_into(&mut out, x.clone());
        i = i + 1;
    }
    proof {
        assert(all.take(i as int) == all);
    }
    Some(out)
}

/// Whether the totals of every second fit.
pub fn check_totals_fit(items: &Vec<TopSqlRecordItem>) -> (r: bool)
    ensures
        r == totals_fit(item_views(items@)),
{
    try_fold_items(items).is_some()
}

} // verus!
