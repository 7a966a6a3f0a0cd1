//! Resource usage records of TiKV instances: one record per resource group
//! tag, holding one item per second.

pub mod downsample;
pub mod fold;
pub mod parser;
pub mod tag;
pub mod top_n;

use crate::topsql::fold::Summable;
use crate::topsql::retention::{Group, Ranked};
use vstd::prelude::*;

verus! {

/// The resource usage stream of a TiKV instance.
#[derive(Clone, Copy, Debug, Default, PartialEq, Eq)]
pub struct TiKVUpstream;

/// What one resource group used during one second.
#[derive(Clone, Copy, Debug, Default, PartialEq, Eq)]
pub struct GroupTagRecordItem {
    pub timestamp_sec: u64,
    pub cpu_time_ms: u32,
    pub read_keys: u32,
    pub write_keys: u32,
}

/// The counters of an item.
#[derive(Clone, Copy, Debug, PartialEq, Eq, Structural)]
pub enum Counter {
    CpuTimeMs,
    ReadKeys,
    WriteKeys,
}

impl Summable for GroupTagRecordItem {
    type Counter = Counter;

    open spec fn second(self) -> u64 {
        self.timestamp_sec
    }

    open spec fn amount(self, c: Counter) -> int {
        match c {
            Counter::CpuTimeMs => self.cpu_time_ms as int,
            Counter::ReadKeys => self.read_keys as int,
            Counter::WriteKeys => self.write_keys as int,
        }
    }

    open spec fn limit(c: Counter) -> int {
        u32::MAX as int
    }

    open spec fn plus(self, other: GroupTagRecordItem) -> GroupTagRecordItem {
        GroupTagRecordItem {
            timestamp_sec: self.timestamp_sec,
            cpu_time_ms: (self.cpu_time_ms + other.cpu_time_ms) as u32,
            read_keys: (self.read_keys + other.read_keys) as u32,
            write_keys: (self.write_keys + other.write_keys) as u32,
        }
    }

    open spec fn at(self, t: u64) -> GroupTagRecordItem {
        GroupTagRecordItem { timestamp_sec: t, ..self }
    }

    proof fn lemma_amount(self, c: Counter) {
    }

    proof fn lemma_plus(self, other: GroupTagRecordItem, c: Counter) {
    }

    proof fn lemma_plus_second(self, other: GroupTagRecordItem) {
    }

    proof fn lemma_at(self, t: u64, c: Counter) {
    }
}

impl Ranked for GroupTagRecordItem {
    open spec fn cpu(self) -> u32 {
        self.cpu_time_ms
    }
}

/// The records of one resource group tag.
#[derive(Clone, Debug, Default, PartialEq, Eq)]
pub struct GroupTagRecord {
    pub resource_group_tag: Vec<u8>,
    pub items: Vec<GroupTagRecordItem>,
}

/// A record as the contracts see it: its key is the resource group tag.
pub type RecordView = Group<Seq<u8>, GroupTagRecordItem>;

impl View for GroupTagRecord {
    type V = RecordView;

    open spec fn view(&self) -> RecordView {
        Group { key: self.resource_group_tag@, items: self.items@ }
    }
}

/// The payload of a message of the resource usage stream.
#[derive(Clone, Debug, PartialEq, Eq)]
pub enum RecordOneof {
    Record(GroupTagRecord),
}

/// A message of the resource usage stream.
#[derive(Clone, Debug, Default, PartialEq, Eq)]
pub struct ResourceUsageRecord {
    pub record_oneof: Option<RecordOneof>,
}

impl View for ResourceUsageRecord {
    type V = Option<RecordView>;

    open spec fn view(&self) -> Option<RecordView> {
        match self.record_oneof {
            Some(RecordOneof::Record(record)) => Some(record@),
            None => None,
        }
    }
}

/// The views of a sequence of messages.
pub open spec fn views(messages: Seq<ResourceUsageRecord>) -> Seq<Option<RecordView>> {
    messages.map_values(|m: ResourceUsageRecord| m@)
}

} // verus!
