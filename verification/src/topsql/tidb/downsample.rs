//! Downsampling: the items of a record are moved to the end of the interval
//! that their second lies in, and those that meet there are summed.

use super::fold::{check_totals_fit, fold_items};
use super::{item_views, MessageView, RespOneof, TopSqlRecordItem, TopSqlSubResponse, views};
use super::kv::lemma_kv_merge_distinct;
use super::top_n::{counts_are_maps, instances_distinct, items_in};
use super::ItemView;
use crate::topsql::fold::{
    all_hold, can_downsample, downsampled_items, lemma_fold_holds, lemma_rebucketed_holds,
    rebucketed, Summable,
};
use crate::topsql::retention::Group;
use vstd::prelude::*;

verus! {

/// What downsampling makes of one message.
pub open spec fn downsampled(message: MessageView, interval: u64) -> MessageView {
    match message {
        MessageView::Record(record) => MessageView::Record(
            Group { key: record.key, items: downsampled_items(record.items, interval) },
        ),
        other => other,
    }
}

/// Every record among `messages` can be downsampled.
pub open spec fn all_can_downsample(messages: Seq<MessageView>, interval: u64) -> bool {
    forall|i: int|
        0 <= i < messages.len() ==> (#[trigger] messages[i] matches MessageView::Record(record)
            ==> can_downsample(record.items, interval))
}

/// The downsampled items of one record.
pub fn downsample_items(items: Vec<TopSqlRecordItem>, interval: u64) -> (out: Vec<
    TopSqlRecordItem,
>)
    requires
        interval >= 1,
        can_downsample(item_views(items@), interval),
    ensures
        item_views(out@) == downsampled_items(item_views(items@), interval),
{
    let ghost all = item_views(items@);
    let n = items.len();
    let mut moved: Vec<TopSqlRecordItem> = Vec::new();
    let mut i: usize = 0;
    assert(item_views(moved@) =~= rebucketed(all.take(0), interval));
    for x in it: items
        invariant
            i == it.index(),
            n == it.seq().len(),
            all == item_views(it.seq()),
            interval >= 1,
            can_downsample(all, interval),
            item_views(moved@) == rebucketed(all.take(i as int), interval),
    {
        assert(all[i as int].second() + interval <= u64::MAX);
        assert(all[i as int] == x@);
        let t = x.timestamp_sec + (interval - x.timestamp_sec % interval);
        let ghost before = item_views(moved@);
        let TopSqlRecordItem {
            timestamp_sec: _,
            cpu_time_ms,
            stmt_exec_count,
            stmt_kv_exec_count,
            stmt_duration_sum_ns,
            stmt_duration_count,
        } = x;
        let y = TopSqlRecordItem {
            timestamp_sec: t,
            cpu_time_ms,
            stmt_exec_count,
            stmt_kv_exec_count,
            stmt_duration_sum_ns,
            stmt_duration_count,
        };
        assert(y@ == x@.at(t));
        moved.push(y);
        proof {
            assert(all.take(i + 1).drop_last() == all.take(i as int));
            assert(item_views(moved@) =~= before.push(x@.at(t)));
            assert(item_views(moved@) =~= rebucketed(all.take(i + 1), interval));
        }
        i = i + 1;
    }
    proof {
        assert(all.take(i as int) == all);
    }
    fold_items(moved)
}

/// Downsamples every record among `messages`. An interval of at most one
/// second leaves them as they are.
pub fn downsample(messages: &mut Vec<TopSqlSubResponse>, interval_sec: u32)
    requires
        interval_sec > 1 ==> all_can_downsample(views(old(messages)@), interval_sec as u64),
    ensures
        interval_sec <= 1 ==> views(final(messages)@) == views(old(messages)@),
        interval_sec > 1 ==> views(final(messages)@) == views(old(messages)@).map_values(
            |m: MessageView| downsampled(m, interval_sec as u64),
        ),
{
    if interval_sec <= 1 {
        return ;
    }
    let interval = interval_sec as u64;
    let n = messages.len();
    let mut i: usize = 0;
    while i < n
        invariant
            n == messages@.len(),
            n == old(messages)@.len(),
            i <= n,
            interval == interval_sec as u64,
            interval > 1,
            all_can_downsample(views(old(messages)@), interval),
            forall|k: int| 0 <= k < i ==> messages@[k]@ == downsampled(old(messages)@[k]@, interval),
            forall|k: int| i <= k < n ==> messages@[k] == old(messages)@[k],
        decreases n - i,
    {
        assert(views(old(messages)@)[i as int] == old(messages)@[i as int]@);
        match &mut messages[i].resp_oneof {
            Some(RespOneof::Record(record)) => {
                let mut taken: Vec<TopSqlRecordItem> = Vec::new();
                core::mem::swap(&mut record.items, &mut taken);
                let items = downsample_items(taken, interval);
                record.items = items;
            },
            _ => {},
        }
        i = i + 1;
    }
    proof {
        assert(views(messages@) =~= views(old(messages)@).map_values(
            |m: MessageView| downsampled(m, interval_sec as u64),
        ));
    }
}

/// Whether the items of a record can be downsampled.
pub fn can_downsample_items(items: &Vec<TopSqlRecordItem>, interval: u64) -> (r: bool)
    requires
        interval >= 1,
    ensures
        r == can_downsample(item_views(items@), interval),
{
    let ghost all = item_views(items@);
    let mut moved: Vec<TopSqlRecordItem> = Vec::new();
    let mut i: usize = 0;
    proof {
        assert(item_views(moved@) =~= rebucketed(all.take(0), interval));
    }
    while i < items.len()
        invariant
            i <= items@.len(),
            interval >= 1,
            all == item_views(items@),
            forall|k: int| 0 <= k < i ==> #[trigger] all[k].second() + interval <= u64::MAX,
            item_views(moved@) == rebucketed(all.take(i as int), interval),
        decreases items@.len() - i,
    {
        let x = items[i].clone();
        assert(all[i as int] == x@);
        if x.timestamp_sec > u64::MAX - interval {
            proof {
                assert(!(all[i as int].second() + interval <= u64::MAX));
            }
            return false;
        }
        let t = x.timestamp_sec + (interval - x.timestamp_sec % interval);
        let ghost before = item_views(moved@);
        let TopSqlRecordItem {
            timestamp_sec: _,
            cpu_time_ms,
            stmt_exec_count,
            stmt_kv_exec_count,
            stmt_duration_sum_ns,
            stmt_duration_count,
        } = x;
        let y = TopSqlRecordItem {
            timestamp_sec: t,
            cpu_time_ms,
            stmt_exec_count,
            stmt_kv_exec_count,
            stmt_duration_sum_ns,
            stmt_duration_count,
        };
        assert(y@ == x@.at(t));
        moved.push(y);
        proof {
            assert(all.take(i + 1).drop_last() == all.take(i as int));
            assert(item_views(moved@) =~= before.push(x@.at(t)));
            assert(item_views(moved@) =~= rebucketed(all.take(i + 1), interval));
        }
        i = i + 1;
    }
    proof {
        assert(all.take(i as int) == all);
    }
    check_totals_fit(&moved)
}

/// Whether every record among the messages can be downsampled.
pub fn can_downsample_all(messages: &Vec<TopSqlSubResponse>, interval_sec: u32) -> (r: bool)
    requires
        interval_sec >= 1,
    ensures
        r == all_can_downsample(views(messages@), interval_sec as u64),
{
    let mut i: usize = 0;
    while i < messages.len()
        invariant
            i <= messages@.len(),
            interval_sec >= 1,
            forall|k: int|
                0 <= k < i ==> (#[trigger] views(messages@)[k] matches MessageView::Record(record)
                    ==> can_downsample(record.items, interval_sec as u64)),
        decreases messages@.len() - i,
    {
        assert(views(messages@)[i as int] == messages@[i as int]@);
        match &messages[i].resp_oneof {
            Some(RespOneof::Record(record)) => {
                if !can_downsample_items(&record.items, interval_sec as u64) {
                    return false;
                }
            },
            _ => {},
        }
        i = i + 1;
    }
    true
}

/// Downsampling keeps the counts maps: where no item of the input names a
/// TiKV instance twice, no item of the output does.
pub proof fn lemma_downsampling_keeps_maps(messages: Seq<MessageView>, interval: u64)
    requires
        counts_are_maps(messages),
    ensures
        counts_are_maps(messages.map_values(|m: MessageView| downsampled(m, interval))),
{
    let p = |x: ItemView| instances_distinct(x);
    let out = messages.map_values(|m: MessageView| downsampled(m, interval));
    assert forall|a: ItemView, b: ItemView| p(a) implies p(#[trigger] a.plus(b)) by {
        lemma_kv_merge_distinct(a.stmt_kv_exec_count, b.stmt_kv_exec_count);
    }
    assert forall|a: ItemView, t: u64| p(a) implies p(#[trigger] a.at(t)) by {}
    assert forall|i: int, j: int|
        0 <= i < out.len() && 0 <= j < items_in(out[i]).len() implies instances_distinct(
        #[trigger] items_in(out[i])[j],
    ) by {
        let input = items_in(messages[i]);
        assert(all_hold(input, p)) by {
            assert forall|k: int| 0 <= k < input.len() implies p(#[trigger] input[k]) by {
                assert(instances_distinct(items_in(messages[i])[k]));
            }
        }
        lemma_rebucketed_holds(input, interval, p);
        lemma_fold_holds(rebucketed(input, interval), p);
        assert(out[i] == downsampled(messages[i], interval));
        if messages[i] is Record {
            assert(items_in(out[i]) == downsampled_items(input, interval));
            assert(p(items_in(out[i])[j]));
        }
    }
}

} // verus!
