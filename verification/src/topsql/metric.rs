//! The events that the TopSQL source emits: a set of labels and a series of
//! points.

use crate::time::Timestamp;
use vstd::prelude::*;

verus! {

/// A label of an event.
#[derive(Debug, PartialEq, Eq)]
pub struct Label {
    pub name: String,
    pub value: String,
}

/// A label as the contracts see it.
pub struct LabelView {
    pub name: Seq<char>,
    pub value: Seq<char>,
}

impl View for Label {
    type V = LabelView;

    open spec fn view(&self) -> LabelView {
        LabelView { name: self.name@, value: self.value@ }
    }
}

/// One value of a series.
#[derive(Clone, Copy, Debug, PartialEq, Eq, Structural)]
pub struct Point {
    pub timestamp: Timestamp,
    pub value: u64,
}

/// An event: what one series holds for one window.
#[derive(Debug, PartialEq, Eq)]
pub struct MetricEvent {
    pub labels: Vec<Label>,
    pub points: Vec<Point>,
}

/// An event as the contracts see it.
pub struct EventView {
    pub labels: Seq<LabelView>,
    pub points: Seq<Point>,
}

/// The views of a list of labels.
pub open spec fn label_views(labels: Seq<Label>) -> Seq<LabelView> {
    labels.map_values(|l: Label| l@)
}

impl View for MetricEvent {
    type V = EventView;

    open spec fn view(&self) -> EventView {
        EventView { labels: label_views(self.labels@), points: self.points@ }
    }
}

/// The views of a list of events.
pub open spec fn event_views(events: Seq<MetricEvent>) -> Seq<EventView> {
    events.map_values(|e: MetricEvent| e@)
}

/// The start of second `t` as a point in time.
pub open spec fn second_start(t: u64) -> Timestamp {
    Timestamp { nanos: (t * 1_000_000_000) as i128 }
}

/// The start of second `t` as a point in time.
pub fn timestamp_of_second(t: u64) -> (ts: Timestamp)
    ensures
        ts == second_start(t),
{
    Timestamp { nanos: t as i128 * 1_000_000_000 }
}

/// The labels of the series of a record: the name of the metric, the
/// instance and its type, the two digests and the kind of key.
pub open spec fn series_labels(
    name: Seq<char>,
    instance: Seq<char>,
    instance_type: Seq<char>,
    sql_digest: Seq<char>,
    plan_digest: Seq<char>,
    tag_label: Seq<char>,
) -> Seq<LabelView> {
    seq![
        LabelView { name: "__name__"@, value: name },
        LabelView { name: "instance"@, value: instance },
        LabelView { name: "instance_type"@, value: instance_type },
        LabelView { name: "sql_digest"@, value: sql_digest },
        LabelView { name: "plan_digest"@, value: plan_digest },
        LabelView { name: "tag_label"@, value: tag_label },
    ]
}

/// A label with this name and value.
pub fn label(name: &str, value: &str) -> (l: Label)
    ensures
        l@ == (LabelView { name: name@, value: value@ }),
{
    Label { name: name.to_owned(), value: value.to_owned() }
}

/// The labels of the series of a record.
pub fn make_series_labels(
    name: &str,
    instance: &str,
    instance_type: &str,
    sql_digest: &str,
    plan_digest: &str,
    tag_label: &str,
) -> (labels: Vec<Label>)
    ensures
        label_views(labels@) == series_labels(
            name@,
            instance@,
            instance_type@,
            sql_digest@,
            plan_digest@,
            tag_label@,
        ),
{
    let mut labels: Vec<Label> = Vec::new();
    labels.push(label("__name__", name));
    labels.push(label("instance", instance));
    labels.push(label("instance_type", instance_type));
    labels.push(label("sql_digest", sql_digest));
    labels.push(label("plan_digest", plan_digest));
    labels.push(label("tag_label", tag_label));
    proof {
        assert(label_views(labels@) =~= series_labels(
            name@,
            instance@,
            instance_type@,
            sql_digest@,
            plan_digest@,
            tag_label@,
        ));
    }
    labels
}

/// The event of a series, unless the series has no point.
pub open spec fn series_event(labels: Seq<LabelView>, points: Seq<Point>) -> Seq<EventView> {
    if points.len() == 0 {
        seq![]
    } else {
        seq![EventView { labels, points }]
    }
}

/// Appends the event of a series to `events`, unless the series has no point.
pub fn push_series(events: &mut Vec<MetricEvent>, labels: Vec<Label>, points: Vec<Point>)
    ensures
        event_views(final(events)@) == event_views(old(events)@) + series_event(
            label_views(labels@),
            points@,
        ),
{
    let ghost before = event_views(events@);
    if points.len() > 0 {
        let event = MetricEvent { labels, points };
        events.push(event);
        proof {
            assert(event_views(events@) =~= before.push(event@));
            assert(event_views(events@) =~= before + series_event(label_views(labels@), points@));
        }
    } else {
        proof {
            assert(before =~= before + series_event(label_views(labels@), points@));
        }
    }
}

} // verus!
