//! What the source makes of the messages of a TiKV instance.

use super::downsample::{all_can_downsample, can_downsample_all, downsample, downsampled};
use super::tag::{spec_decode, spec_encode, ResourceGroupTag, TagView};
use super::top_n::{can_keep_top_n, counted_items, digest_samples, keep_top_n, kept_top_n};
use crate::topsql::retention::{kept_in_second, samples_in_second};
use crate::topsql::selection::min_count;
use super::{
    Counter, GroupTagRecord, GroupTagRecordItem, RecordOneof, RecordView, ResourceUsageRecord,
    views,
};
use crate::encoding::{hex_encode_upper, hex_upper};
use crate::topsql::fold::{totals_fit, Summable};
use crate::topsql::metric::{
    event_views, make_series_labels, push_series, second_start, series_event, series_labels,
    timestamp_of_second, EventView, MetricEvent, Point,
};
use vstd::prelude::*;

verus! {

/// The text of a label of a tag: the kind of key that the statement touched.
pub open spec fn label_text(label: Option<i32>) -> Seq<char> {
    match label {
        Some(1) => "row"@,
        Some(2) => "index"@,
        _ => "unknown"@,
    }
}

/// The labels that a tag gives to the series of its record: the two digests
/// in upper-case hexadecimal and the text of the label. `None` where the tag
/// cannot be read or names no statement.
pub open spec fn tag_labels(tag: Seq<u8>) -> Option<(Seq<char>, Seq<char>, Seq<char>)> {
    match spec_decode(tag) {
        Some(t) => match t.sql_digest {
            Some(sql) => Some(
                (
                    hex_upper(sql),
                    hex_upper(
                        match t.plan_digest {
                            Some(plan) => plan,
                            None => Seq::empty(),
                        },
                    ),
                    label_text(t.label),
                ),
            ),
            None => None,
        },
        None => None,
    }
}

/// The name of the metric of a counter.
pub open spec fn metric_name(c: Counter) -> Seq<char> {
    match c {
        Counter::CpuTimeMs => "topsql_cpu_time_ms"@,
        Counter::ReadKeys => "topsql_read_keys"@,
        Counter::WriteKeys => "topsql_write_keys"@,
    }
}

/// The points of a counter: one for each item in which the counter is not
/// zero.
pub open spec fn points_of(items: Seq<GroupTagRecordItem>, c: Counter) -> Seq<Point>
    decreases items.len(),
{
    if items.len() == 0 {
        seq![]
    } else {
        let rest = points_of(items.drop_last(), c);
        let x = items.last();
        if x.amount(c) > 0 {
            rest.push(Point { timestamp: second_start(x.timestamp_sec), value: x.amount(c) as u64 })
        } else {
            rest
        }
    }
}

/// The event of one counter of a record, if the counter has a point.
pub open spec fn counter_event(
    record: RecordView,
    instance: Seq<char>,
    labels: (Seq<char>, Seq<char>, Seq<char>),
    c: Counter,
) -> Seq<EventView> {
    series_event(
        series_labels(metric_name(c), instance, "tikv"@, labels.0, labels.1, labels.2),
        points_of(record.items, c),
    )
}

/// The events of a record: one for each counter that has a point, for CPU
/// time, keys read and keys written in this order. None where the tag
/// cannot be read.
pub open spec fn record_events(record: RecordView, instance: Seq<char>) -> Seq<EventView> {
    match tag_labels(record.key) {
        None => seq![],
        Some(labels) => counter_event(record, instance, labels, Counter::CpuTimeMs)
            + counter_event(record, instance, labels, Counter::ReadKeys) + counter_event(
            record,
            instance,
            labels,
            Counter::WriteKeys,
        ),
    }
}

/// The events of a message.
pub open spec fn message_events(message: Option<RecordView>, instance: Seq<char>) -> Seq<
    EventView,
> {
    match message {
        Some(record) => record_events(record, instance),
        None => seq![],
    }
}

fn collect_points(items: &Vec<GroupTagRecordItem>, c: Counter) -> (points: Vec<Point>)
    ensures
        points@ == points_of(items@, c),
{
    let mut points: Vec<Point> = Vec::new();
    let mut i: usize = 0;
    while i < items.len()
        invariant
            i <= items@.len(),
            points@ == points_of(items@.take(i as int), c),
        decreases items@.len() - i,
    {
        let x = items[i];
        let value = match c {
            Counter::CpuTimeMs => x.cpu_time_ms,
            Counter::ReadKeys => x.read_keys,
            Counter::WriteKeys => x.write_keys,
        };
        proof {
            assert(items@.take(i + 1).drop_last() == items@.take(i as int));
        }
        if value > 0 {
            points.push(
                Point { timestamp: timestamp_of_second(x.timestamp_sec), value: value as u64 },
            );
        }
        i = i + 1;
    }
    proof {
        assert(items@.take(i as int) == items@);
    }
    points
}

fn metric_name_of(c: Counter) -> (name: &'static str)
    ensures
        name@ == metric_name(c),
{
    match c {
        Counter::CpuTimeMs => "topsql_cpu_time_ms",
        Counter::ReadKeys => "topsql_read_keys",
        Counter::WriteKeys => "topsql_write_keys",
    }
}

/// The events of a list of messages, in their order.
pub open spec fn all_events(messages: Seq<Option<RecordView>>, instance: Seq<char>) -> Seq<EventView>
    decreases messages.len(),
{
    if messages.len() == 0 {
        seq![]
    } else {
        all_events(messages.drop_last(), instance) + message_events(
            messages.last(),
            instance,
        )
    }
}

/// What a window of messages becomes: the `top_n` of each second are kept and
/// the rest is summed into the "others", the records are downsampled, and
/// every message is turned into its events.
pub open spec fn aggregated(messages: Seq<Option<RecordView>>, top_n: nat, interval_sec: u32) -> Seq<Option<RecordView>> {
    let kept = kept_top_n(messages, top_n);
    if interval_sec > 1 {
        kept.map_values(|m: Option<RecordView>| downsampled(m, interval_sec as u64))
    } else {
        kept
    }
}

/// The window can be aggregated: the totals of every second fit their
/// counters, before and after downsampling.
pub open spec fn can_aggregate(messages: Seq<Option<RecordView>>, top_n: nat, interval_sec: u32) -> bool {
    &&& totals_fit(counted_items(messages))
    &&& interval_sec > 1 ==> all_can_downsample(kept_top_n(messages, top_n), interval_sec as u64)
}

/// Turns the messages of a TiKV instance into events, after retention and
/// downsampling where they are asked for.
pub struct ResourceUsageRecordParser;

impl ResourceUsageRecordParser {
    /// The events of a message.
    pub fn parse(response: ResourceUsageRecord, instance: String) -> (events: Vec<MetricEvent>)
        ensures
            event_views(events@) == message_events(response@, instance@),
    {
        match response.record_oneof {
            Some(RecordOneof::Record(record)) => Self::parse_tikv_record(record, instance),
            None => {
                let events: Vec<MetricEvent> = Vec::new();
                assert(event_views(events@) =~= Seq::<EventView>::empty());
                events
            },
        }
    }

    /// Keeps of each second the `top_n` samples with the highest CPU time
    /// and sums the rest into the record of the "others".
    pub fn keep_top_n(responses: Vec<ResourceUsageRecord>, top_n: usize) -> (out: Vec<
        ResourceUsageRecord,
    >)
        requires
            totals_fit(counted_items(views(responses@))),
        ensures
            views(out@) == kept_top_n(views(responses@), top_n as nat),
            forall|t: u64| #[trigger]
                kept_in_second(digest_samples(views(responses@)), top_n as nat, t) == min_count(
                    top_n as nat,
                    samples_in_second(digest_samples(views(responses@)), t),
                ),
    {
        keep_top_n(responses, top_n)
    }

    /// Downsamples every record to one item per interval. An interval of at
    /// most one second leaves the records as they are.
    pub fn downsampling(responses: &mut Vec<ResourceUsageRecord>, interval_sec: u32)
        requires
            interval_sec > 1 ==> all_can_downsample(views(old(responses)@), interval_sec as u64),
        ensures
            interval_sec <= 1 ==> views(final(responses)@) == views(old(responses)@),
            interval_sec > 1 ==> views(final(responses)@) == views(old(responses)@).map_values(
                |m: Option<RecordView>| downsampled(m, interval_sec as u64),
            ),
    {
        downsample(responses, interval_sec)
    }

    /// Whether retention can be applied to the messages: whether the totals
    /// of every second fit their counters.
    pub fn can_keep_top_n(responses: &Vec<ResourceUsageRecord>) -> (r: bool)
        ensures
            r == totals_fit(counted_items(views(responses@))),
    {
        can_keep_top_n(responses)
    }

    /// Whether the messages can be downsampled: whether the seconds that
    /// stand for the intervals and the totals that meet in them fit.
    pub fn can_downsample(responses: &Vec<ResourceUsageRecord>, interval_sec: u32) -> (r: bool)
        ensures
            r == (interval_sec > 1 ==> all_can_downsample(views(responses@), interval_sec as u64)),
    {
        if interval_sec <= 1 {
            true
        } else {
            can_downsample_all(responses, interval_sec)
        }
    }

    /// Turns a window of messages into events: retention first, then
    /// downsampling, then the events of each message. `None`, and nothing
    /// done, where the totals of some second do not fit their counters.
    pub fn aggregate(
        responses: Vec<ResourceUsageRecord>,
        top_n: usize,
        interval_sec: u32,
        instance: &String,
        
    ) -> (events: Option<Vec<MetricEvent>>)
        ensures
            events is Some <==> can_aggregate(views(responses@), top_n as nat, interval_sec),
            events matches Some(e) ==> event_views(e@) == all_events(
                aggregated(views(responses@), top_n as nat, interval_sec),
                instance@,
            ),
    {
        if !Self::can_keep_top_n(&responses) {
            return None;
        }
        let mut kept = Self::keep_top_n(responses, top_n);
        if !Self::can_downsample(&kept, interval_sec) {
            return None;
        }
        Self::downsampling(&mut kept, interval_sec);
        let ghost out = views(kept@);
        let mut events: Vec<MetricEvent> = Vec::new();
        let n = kept.len();
        let mut i: usize = 0;
        proof {
            assert(event_views(events@) =~= all_events(out.take(0), instance@));
        }
        for message in it: kept
            invariant
                i == it.index(),
                n == it.seq().len(),
                out == views(it.seq()),
                event_views(events@) == all_events(out.take(i as int), instance@),
        {
            proof {
                assert(out.take(i + 1).drop_last() == out.take(i as int));
                assert(out.take(i + 1).last() == message@);
            }
            let ghost before = event_views(events@);
            let mut more = Self::parse(message, instance.clone());
            let ghost added = event_views(more@);
            events.append(&mut more);
            proof {
                assert(event_views(events@) =~= before + added);
            }
            i = i + 1;
        }
        proof {
            assert(out.take(i as int) == out);
        }
        Some(events)
    }

    /// The events of a record.
    pub fn parse_tikv_record(record: GroupTagRecord, instance: String) -> (events: Vec<
        MetricEvent,
    >)
        ensures
            event_views(events@) == record_events(record@, instance@),
    {
        let mut events: Vec<MetricEvent> = Vec::new();
        assert(event_views(events@) =~= Seq::<EventView>::empty());
        let (sql_digest, plan_digest, tag_label) = match Self::decode_tag(
            record.resource_group_tag.as_slice(),
        ) {
            Some(labels) => labels,
            None => {
                return events;
            },
        };
        let ghost labels = (sql_digest@, plan_digest@, tag_label@);
        let ghost rv = record@;
        Self::append(&mut events, &record, &instance, &sql_digest, &plan_digest, &tag_label,
            Counter::CpuTimeMs);
        Self::append(&mut events, &record, &instance, &sql_digest, &plan_digest, &tag_label,
            Counter::ReadKeys);
        Self::append(&mut events, &record, &instance, &sql_digest, &plan_digest, &tag_label,
            Counter::WriteKeys);
        proof {
            assert(event_views(events@) =~= record_events(rv, instance@));
        }
        events
    }

    fn append(
        events: &mut Vec<MetricEvent>,
        record: &GroupTagRecord,
        instance: &String,
        sql_digest: &String,
        plan_digest: &String,
        tag_label: &String,
        c: Counter,
    )
        ensures
            event_views(final(events)@) == event_views(old(events)@) + counter_event(
                record@,
                instance@,
                (sql_digest@, plan_digest@, tag_label@),
                c,
            ),
    {
        let points = collect_points(&record.items, c);
        let labels = make_series_labels(
            metric_name_of(c),
            instance.as_str(),
            "tikv",
            sql_digest.as_str(),
            plan_digest.as_str(),
            tag_label.as_str(),
        );
        push_series(events, labels, points);
    }

    /// The labels that a tag gives to the series of its record.
    pub fn decode_tag(tag: &[u8]) -> (labels: Option<(String, String, String)>)
        ensures
            match labels {
                Some((sql, plan, label)) => tag_labels(tag@) == Some((sql@, plan@, label@)),
                None => tag_labels(tag@) is None,
            },
    {
        match ResourceGroupTag::decode(tag) {
            Some(t) => {
                let ResourceGroupTag { sql_digest, plan_digest, label } = t;
                match sql_digest {
                    None => None,
                    Some(sql) => {
                        let plan: Vec<u8> = match plan_digest {
                            Some(plan) => plan,
                            None => Vec::new(),
                        };
                        let text = match label {
                            Some(1) => "row",
                            Some(2) => "index",
                            _ => "unknown",
                        };
                        Some(
                            (
                                hex_encode_upper(sql.as_slice()),
                                hex_encode_upper(plan.as_slice()),
                                text.to_owned(),
                            ),
                        )
                    },
                }
            },
            None => None,
        }
    }

    /// The bytes of the tag with these digests and this label.
    pub fn encode_tag(sql_digest: Vec<u8>, plan_digest: Vec<u8>, label: Option<i32>) -> (tag: Vec<
        u8,
    >)
        ensures
            tag@ == spec_encode(
                TagView { sql_digest: Some(sql_digest@), plan_digest: Some(plan_digest@), label },
            ),
    {
        let t = ResourceGroupTag {
            sql_digest: Some(sql_digest),
            plan_digest: Some(plan_digest),
            label,
        };
        t.encode()
    }
}

} // verus!
