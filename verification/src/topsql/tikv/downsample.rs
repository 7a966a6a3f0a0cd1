//! Downsampling: the items of a record are moved to the end of the interval
//! that their second lies in, and those that meet there are summed.

use super::fold::{check_totals_fit, fold_items};
use super::{GroupTagRecordItem, RecordOneof, RecordView, ResourceUsageRecord, views};
use crate::topsql::fold::{can_downsample, downsampled_items, rebucketed, Summable};
use crate::topsql::retention::Group;
use vstd::prelude::*;

verus! {

/// What downsampling makes of one message.
pub open spec fn downsampled(message: Option<RecordView>, interval: u64) -> Option<RecordView> {
    match message {
        Some(record) => Some(
            Group { key: record.key, items: downsampled_items(record.items, interval) },
        ),
        None => None,
    }
}

/// Every record among `messages` can be downsampled.
pub open spec fn all_can_downsample(messages: Seq<Option<RecordView>>, interval: u64) -> bool {
    forall|i: int|
        0 <= i < messages.len() ==> (#[trigger] messages[i] matches Some(record)
            ==> can_downsample(record.items, interval))
}

/// The downsampled items of one record.
pub fn downsample_items(items: &Vec<GroupTagRecordItem>, interval: u64) -> (out: Vec<
    GroupTagRecordItem,
>)
    requires
        interval >= 1,
        can_downsample(items@, interval),
    ensures
        out@ == downsampled_items(items@, interval),
{
    let mut moved: Vec<GroupTagRecordItem> = Vec::new();
    let mut i: usize = 0;
    while i < items.len()
        invariant
            i <= items@.len(),
            interval >= 1,
            can_downsample(items@, interval),
            moved@ == rebucketed(items@.take(i as int), interval),
        decreases items@.len() - i,
    {
        let x = items[i];
        assert(items@[i as int].second() + interval <= u64::MAX);
        let t = x.timestamp_sec + (interval - x.timestamp_sec % interval);
        moved.push(
            GroupTagRecordItem {
                timestamp_sec: t,
                cpu_time_ms: x.cpu_time_ms,
                read_keys: x.read_keys,
                write_keys: x.write_keys,
            },
        );
        proof {
            assert(items@.take(i + 1).drop_last() == items@.take(i as int));
            assert(moved@ =~= rebucketed(items@.take(i + 1), interval));
        }
        i = i + 1;
    }
    proof {
        assert(items@.take(i as int) == items@);
    }
    fold_items(&moved)
}

/// Downsamples every record among `messages`. An interval of at most one
/// second leaves them as they are.
pub fn downsample(messages: &mut Vec<ResourceUsageRecord>, interval_sec: u32)
    requires
        interval_sec > 1 ==> all_can_downsample(views(old(messages)@), interval_sec as u64),
    ensures
        interval_sec <= 1 ==> views(final(messages)@) == views(old(messages)@),
        interval_sec > 1 ==> views(final(messages)@) == views(old(messages)@).map_values(
            |m: Option<RecordView>| downsampled(m, interval_sec as u64),
        ),
{
    if interval_sec <= 1 {
        return ;
    }
    let interval = interval_sec as u64;
    let n = messages.len();
    let mut i: usize = 0;
    while i < n
        invariant
            n == messages@.len(),
            n == old(messages)@.len(),
            i <= n,
            interval == interval_sec as u64,
            interval > 1,
            all_can_downsample(views(old(messages)@), interval),
            forall|k: int| 0 <= k < i ==> messages@[k]@ == downsampled(old(messages)@[k]@, interval),
            forall|k: int| i <= k < n ==> messages@[k] == old(messages)@[k],
        decreases n - i,
    {
        assert(views(old(messages)@)[i as int] == old(messages)@[i as int]@);
        match &mut messages[i].record_oneof {
            Some(RecordOneof::Record(record)) => {
                let items = downsample_items(&record.items, interval);
                record.items = items;
            },
            None => {},
        }
        i = i + 1;
    }
    proof {
        assert(views(messages@) =~= views(old(messages)@).map_values(
            |m: Option<RecordView>| downsampled(m, interval_sec as u64),
        ));
    }
}

/// Whether the items of a record can be downsampled.
pub fn can_downsample_items(items: &Vec<GroupTagRecordItem>, interval: u64) -> (r: bool)
    requires
        interval >= 1,
    ensures
        r == can_downsample(items@, interval),
{
    let mut moved: Vec<GroupTagRecordItem> = Vec::new();
    let mut i: usize = 0;
    proof {
        assert(moved@ =~= rebucketed(items@.take(0), interval));
    }
    while i < items.len()
        invariant
            i <= items@.len(),
            interval >= 1,
            forall|k: int| 0 <= k < i ==> #[trigger] items@[k].second() + interval <= u64::MAX,
            moved@ == rebucketed(items@.take(i as int), interval),
        decreases items@.len() - i,
    {
        let x = items[i];
        if x.timestamp_sec > u64::MAX - interval {
            proof {
                assert(!(items@[i as int].second() + interval <= u64::MAX));
            }
            return false;
        }
        let t = x.timestamp_sec + (interval - x.timestamp_sec % interval);
        moved.push(
            GroupTagRecordItem {
                timestamp_sec: t,
                cpu_time_ms: x.cpu_time_ms,
                read_keys: x.read_keys,
                write_keys: x.write_keys,
            },
        );
        proof {
            assert(items@.take(i + 1).drop_last() == items@.take(i as int));
            assert(moved@ =~= rebucketed(items@.take(i + 1), interval));
        }
        i = i + 1;
    }
    proof {
        assert(items@.take(i as int) == items@);
    }
    check_totals_fit(&moved)
}

/// Whether every record among the messages can be downsampled.
pub fn can_downsample_all(messages: &Vec<ResourceUsageRecord>, interval_sec: u32) -> (r: bool)
    requires
        interval_sec >= 1,
    ensures
        r == all_can_downsample(views(messages@), interval_sec as u64),
{
    let mut i: usize = 0;
    while i < messages.len()
        invariant
            i <= messages@.len(),
            interval_sec >= 1,
            forall|k: int|
                0 <= k < i ==> (#[trigger] views(messages@)[k] matches Some(record)
                    ==> can_downsample(record.items, interval_sec as u64)),
        decreases messages@.len() - i,
    {
        assert(views(messages@)[i as int] == messages@[i as int]@);
        match &messages[i].record_oneof {
            Some(RecordOneof::Record(record)) => {
                if !can_downsample_items(&record.items, interval_sec as u64) {
                    return false;
                }
            },
            None => {},
        }
        i = i + 1;
    }
    true
}

} // verus!
