//! The subscriber of one instance between its events: what it does with a
//! message, with a broken or ended stream, and with the ticks of its clocks.

use super::backoff::RetryState;
use super::controller::InstanceType;
use super::metric::{label, EventView, Label, LabelView, MetricEvent, Point};
use crate::time::Timestamp;
use vstd::prelude::*;

verus! {

/// A window is flushed when no message came for more than ten seconds.
pub const FLUSH_AFTER_NANOS: i128 = 10_000_000_000;

/// What happened on the stream of a subscriber.
pub enum StreamEvent<M> {
    /// A message came.
    Received(M),
    /// The stream broke.
    Failed,
    /// The stream ended.
    Ended,
    /// The clock of one second ticked.
    Tick,
    /// The clock of thirty seconds ticked.
    InstanceTick,
}

/// What the subscriber is to do.
pub enum StreamAction<M> {
    /// Go on waiting.
    Wait,
    /// Hand these messages to the aggregator, in this order.
    Flush(Vec<M>),
    /// Emit the event that tells that the instance is up.
    EmitInstance,
    /// Leave the stream and connect again, at once or after the delay.
    Reconnect(RetryState),
}

/// The messages that wait for aggregation, and when the last one came.
pub struct Window<M> {
    buffer: Vec<M>,
    last_event: Option<Timestamp>,
}

/// Whether a window whose last message came at `last` is flushed at `now`.
pub open spec fn flush_due(last: Option<Timestamp>, now: Timestamp) -> bool {
    last matches Some(t) && now.nanos - t.nanos > FLUSH_AFTER_NANOS
}

impl<M> Window<M> {
    /// The messages that wait.
    pub closed spec fn waiting(&self) -> Seq<M> {
        self.buffer@
    }

    /// When the last message came.
    pub closed spec fn last_seen(&self) -> Option<Timestamp> {
        self.last_event
    }

    /// A window without messages.
    pub fn new() -> (w: Window<M>)
        ensures
            w.waiting() == Seq::<M>::empty(),
            w.last_seen() is None,
    {
        Window { buffer: Vec::new(), last_event: None }
    }

    /// Takes in what happened at `now` and says what is to be done. A message
    /// joins the window. A tick of one second flushes the window when it
    /// holds messages and the last one came more than ten seconds ago.
    pub fn on_event(&mut self, event: StreamEvent<M>, now: Timestamp) -> (action: StreamAction<M>)
        ensures
            match event {
                StreamEvent::Received(m) => action is Wait && final(self).waiting() == old(self).waiting().push(m) && final(self).last_seen() == Some(now),
                StreamEvent::Failed => action matches StreamAction::Reconnect(
                    RetryState::RetryDelay,
                ) && final(self).waiting() == old(self).waiting() && final(self).last_seen() == old(self).last_seen(),
                StreamEvent::Ended => action matches StreamAction::Reconnect(RetryState::RetryNow)
                    && final(self).waiting() == old(self).waiting() && final(self).last_seen()
                    == old(self).last_seen(),
                StreamEvent::Tick => final(self).last_seen() == old(self).last_seen() && if flush_due(
                    old(self).last_seen(),
                    now,
                ) && old(self).waiting().len() > 0 {
                    action matches StreamAction::Flush(messages) && messages@ == old(self).waiting() && final(self).waiting() == Seq::<M>::empty()
                } else {
                    action is Wait && final(self).waiting() == old(self).waiting()
                },
                StreamEvent::InstanceTick => action is EmitInstance && final(self).waiting() == old(self).waiting() && final(self).last_seen() == old(self).last_seen(),
            },
    {
        match event {
            StreamEvent::Received(m) => {
                self.buffer.push(m);
                self.last_event = Some(now);
                StreamAction::Wait
            },
            StreamEvent::Failed => StreamAction::Reconnect(RetryState::RetryDelay),
            StreamEvent::Ended => StreamAction::Reconnect(RetryState::RetryNow),
            StreamEvent::Tick => {
                let due = match self.last_event {
                    Some(t) => t.nanos <= i128::MAX - FLUSH_AFTER_NANOS && now.nanos > t.nanos
                        + FLUSH_AFTER_NANOS,
                    None => false,
                };
                if due && self.buffer.len() > 0 {
                    let mut messages: Vec<M> = Vec::new();
                    core::mem::swap(&mut self.buffer, &mut messages);
                    StreamAction::Flush(messages)
                } else {
                    StreamAction::Wait
                }
            },
            StreamEvent::InstanceTick => StreamAction::EmitInstance,
        }
    }
}

/// The name of an instance type in labels.
pub open spec fn instance_type_text(t: InstanceType) -> Seq<char> {
    match t {
        InstanceType::TiDB => "tidb"@,
        InstanceType::TiKV => "tikv"@,
        InstanceType::TiFlash => "tiflash"@,
        InstanceType::PD => "pd"@,
    }
}

/// The name of an instance type in labels.
pub fn instance_type_name(t: InstanceType) -> (name: &'static str)
    ensures
        name@ == instance_type_text(t),
{
    match t {
        InstanceType::TiDB => "tidb",
        InstanceType::TiKV => "tikv",
        InstanceType::TiFlash => "tiflash",
        InstanceType::PD => "pd",
    }
}

/// The event that tells that an instance is up.
pub open spec fn instance_event_of(instance: Seq<char>, instance_type: Seq<char>, now: Timestamp) -> EventView {
    EventView {
        labels: seq![
            LabelView { name: "__name__"@, value: "topsql_instance"@ },
            LabelView { name: "instance"@, value: instance },
            LabelView { name: "instance_type"@, value: instance_type },
        ],
        points: seq![Point { timestamp: now, value: 1 }],
    }
}

/// The event that tells at `now` that an instance is up.
pub fn instance_event(instance: &str, instance_type: &str, now: Timestamp) -> (event: MetricEvent)
    ensures
        event@ == instance_event_of(instance@, instance_type@, now),
{
    let mut labels: Vec<Label> = Vec::new();
    labels.push(label("__name__", "topsql_instance"));
    labels.push(label("instance", instance));
    labels.push(label("instance_type", instance_type));
    let mut points: Vec<Point> = Vec::new();
    points.push(Point { timestamp: now, value: 1 });
    let event = MetricEvent { labels, points };
    proof {
        let e = instance_event_of(instance@, instance_type@, now);
        assert(event@.labels =~= e.labels);
        assert(event@.points =~= e.points);
    }
    event
}

} // verus!
