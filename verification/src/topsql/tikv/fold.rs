//! Folding of resource usage items by second.

use super::{Counter, GroupTagRecordItem};
use crate::topsql::fold::{
    fold_by_second, lemma_fold_by_second, lemma_item_within_total, lemma_merge_at,
    lemma_prefix_fits, lemma_prefix_overflows, lemma_push_fits, lemma_total_at, merge_item,
    rising, second_total, totals_fit, Summable,
};
use vstd::prelude::*;

verus! {

/// Adds `x` to the item of its second in `acc`, or puts it in where `acc` has
/// no item for that second.
fn merge_into(acc: &mut Vec<GroupTagRecordItem>, x: GroupTagRecordItem)
    requires
        forall|c: Counter| #[trigger]
            second_total(old(acc)@, x.timestamp_sec, c) + x.amount(c) <= u32::MAX,
    ensures
        final(acc)@ == merge_item(old(acc)@, x),
{
    let mut p: usize = acc.len();
    while p > 0 && acc[p - 1].timestamp_sec > x.timestamp_sec
        invariant
            p <= acc@.len(),
            acc@ == old(acc)@,
            forall|q: int| p <= q < acc@.len() ==> acc@[q].timestamp_sec > x.timestamp_sec,
        decreases p,
    {
        p = p - 1;
    }
    proof {
        lemma_merge_at(acc@, x, p as int);
    }
    if p > 0 && acc[p - 1].timestamp_sec == x.timestamp_sec {
        let old_item = acc[p - 1];
        proof {
            lemma_item_within_total(acc@, p - 1, Counter::CpuTimeMs);
            lemma_item_within_total(acc@, p - 1, Counter::ReadKeys);
            lemma_item_within_total(acc@, p - 1, Counter::WriteKeys);
            assert(second_total(acc@, x.timestamp_sec, Counter::CpuTimeMs) + x.amount(
                Counter::CpuTimeMs,
            ) <= u32::MAX);
            assert(second_total(acc@, x.timestamp_sec, Counter::ReadKeys) + x.amount(
                Counter::ReadKeys,
            ) <= u32::MAX);
            assert(second_total(acc@, x.timestamp_sec, Counter::WriteKeys) + x.amount(
                Counter::WriteKeys,
            ) <= u32::MAX);
        }
        acc[p - 1] = GroupTagRecordItem {
            timestamp_sec: old_item.timestamp_sec,
            cpu_time_ms: old_item.cpu_time_ms + x.cpu_time_ms,
            read_keys: old_item.read_keys + x.read_keys,
            write_keys: old_item.write_keys + x.write_keys,
        };
    } else {
        acc.insert(p, x);
    }
}

/// Folds `items` by second.
pub fn fold_items(items: &Vec<GroupTagRecordItem>) -> (out: Vec<GroupTagRecordItem>)
    requires
        totals_fit(items@),
    ensures
        out@ == fold_by_second(items@),
{
    let mut out: Vec<GroupTagRecordItem> = Vec::new();
    let mut i: usize = 0;
    while i < items.len()
        invariant
            i <= items@.len(),
            totals_fit(items@),
            out@ == fold_by_second(items@.take(i as int)),
        decreases items@.len() - i,
    {
        let x = items[i];
        proof {
            let done = items@.take(i as int);
            let next = items@.take(i + 1);
            assert(next.drop_last() == done);
            lemma_prefix_fits(items@, i as int);
            lemma_prefix_fits(items@, i + 1);
            lemma_fold_by_second(done);
            assert forall|c: Counter| #[trigger]
                second_total(out@, x.timestamp_sec, c) + x.amount(c) <= u32::MAX by {
                assert(second_total(next, x.timestamp_sec, c) <= u32::MAX);
            }
        }
        merge_into(&mut out, x);
        i = i + 1;
    }
    proof {
        assert(items@.take(i as int) == items@);
    }
    out
}

/// Whether `x` can be merged into `acc`: whether its counters fit on top of
/// the totals of its second.
fn fits_into(acc: &Vec<GroupTagRecordItem>, x: GroupTagRecordItem) -> (r: bool)
    requires
        rising(acc@),
    ensures
        r == forall|c: Counter| #[trigger]
            second_total(acc@, x.timestamp_sec, c) + x.amount(c) <= u32::MAX,
{
    let mut p: usize = acc.len();
    while p > 0 && acc[p - 1].timestamp_sec > x.timestamp_sec
        invariant
            p <= acc@.len(),
            forall|q: int| p <= q < acc@.len() ==> acc@[q].timestamp_sec > x.timestamp_sec,
        decreases p,
    {
        p = p - 1;
    }
    proof {
        lemma_total_at(acc@, x.timestamp_sec, p as int, Counter::CpuTimeMs);
        lemma_total_at(acc@, x.timestamp_sec, p as int, Counter::ReadKeys);
        lemma_total_at(acc@, x.timestamp_sec, p as int, Counter::WriteKeys);
    }
    if p > 0 && acc[p - 1].timestamp_sec == x.timestamp_sec {
        let a = acc[p - 1];
        let r = a.cpu_time_ms as u64 + x.cpu_time_ms as u64 <= u32::MAX as u64 && a.read_keys as u64
            + x.read_keys as u64 <= u32::MAX as u64 && a.write_keys as u64 + x.write_keys as u64
            <= u32::MAX as u64;
        proof {
            if r {
                assert forall|c: Counter| #[trigger]
                    second_total(acc@, x.timestamp_sec, c) + x.amount(c) <= u32::MAX by {
                    lemma_total_at(acc@, x.timestamp_sec, p as int, c);
                }
            } else {
                if a.cpu_time_ms + x.cpu_time_ms > u32::MAX {
                    assert(second_total(acc@, x.timestamp_sec, Counter::CpuTimeMs) + x.amount(
                        Counter::CpuTimeMs,
                    ) > u32::MAX);
                } else if a.read_keys + x.read_keys > u32::MAX {
                    assert(second_total(acc@, x.timestamp_sec, Counter::ReadKeys) + x.amount(
                        Counter::ReadKeys,
                    ) > u32::MAX);
                } else {
                    assert(second_total(acc@, x.timestamp_sec, Counter::WriteKeys) + x.amount(
                        Counter::WriteKeys,
                    ) > u32::MAX);
                }
            }
        }
        r
    } else {
        proof {
            assert forall|c: Counter| #[trigger]
                second_total(acc@, x.timestamp_sec, c) + x.amount(c) <= u32::MAX by {
                lemma_total_at(acc@, x.timestamp_sec, p as int, c);
            }
        }
        true
    }
}

/// Folds `items` by second where the totals of every second fit; `None`
/// where some total does not.
pub fn try_fold_items(items: &Vec<GroupTagRecordItem>) -> (r: Option<Vec<GroupTagRecordItem>>)
    ensures
        match r {
            Some(out) => totals_fit(items@) && out@ == fold_by_second(items@),
            None => !totals_fit(items@),
        },
{
    let mut out: Vec<GroupTagRecordItem> = Vec::new();
    let mut i: usize = 0;
    proof {
        assert(items@.take(0) =~= Seq::<GroupTagRecordItem>::empty());
    }
    while i < items.len()
        invariant
            i <= items@.len(),
            totals_fit(items@.take(i as int)),
            out@ == fold_by_second(items@.take(i as int)),
        decreases items@.len() - i,
    {
        let x = items[i];
        let ghost done = items@.take(i as int);
        let ghost next = items@.take(i + 1);
        proof {
            assert(next == done.push(x));
            assert(next.drop_last() == done);
            lemma_fold_by_second(done);
        }
        if !fits_into(&out, x) {
            proof {
                let c = choose|c: Counter|
                    !(#[trigger] second_total(out@, x.timestamp_sec, c) + x.amount(c) <= u32::MAX);
                assert(second_total(done, x.timestamp_sec, c) == second_total(
                    out@,
                    x.timestamp_sec,
                    c,
                ));
                assert(second_total(next, x.timestamp_sec, c) > u32::MAX);
                lemma_prefix_overflows(items@, i + 1, x.timestamp_sec, c);
            }
            return None;
        }
        proof {
            assert forall|c: Counter| #[trigger]
                second_total(done, x.timestamp_sec, c) + x.amount(c) <= u32::MAX by {
                assert(second_total(done, x.timestamp_sec, c) == second_total(
                    out@,
                    x.timestamp_sec,
                    c,
                ));
                assert(second_total(out@, x.timestamp_sec, c) + x.amount(c) <= u32::MAX);
            }
            lemma_push_fits(done, x);
        }
        merge_into(&mut out, x);
        i = i + 1;
    }
    proof {
        assert(items@.take(i as int) == items@);
    }
    Some(out)
}

/// Whether the totals of every second fit.
pub fn check_totals_fit(items: &Vec<GroupTagRecordItem>) -> (r: bool)
    ensures
        r == totals_fit(items@),
{
    try_fold_items(items).is_some()
}

} // verus!
