//! TopSQL records of TiDB instances: one record per statement and plan,
//! holding one item per second.

pub mod downsample;
pub mod fold;
pub mod kv;
pub mod parser;
pub mod top_n;

use crate::topsql::fold::Summable;
use crate::topsql::retention::{Group, Ranked};
use kv::{
    kv_count, kv_merge, kv_views, lemma_kv_count_nonneg, lemma_kv_merge_count, KvExecCount,
    KvView,
};
use vstd::prelude::*;

verus! {

/// The TopSQL stream of a TiDB instance.
#[derive(Clone, Copy, Debug, Default, PartialEq, Eq)]
pub struct TiDBUpstream;

/// What one statement used during one second.
#[derive(Debug, PartialEq, Eq)]
pub struct TopSqlRecordItem {
    pub timestamp_sec: u64,
    pub cpu_time_ms: u32,
    pub stmt_exec_count: u64,
    pub stmt_kv_exec_count: Vec<KvExecCount>,
    pub stmt_duration_sum_ns: u64,
    pub stmt_duration_count: u64,
}

/// An item as the contracts see it.
pub struct ItemView {
    pub timestamp_sec: u64,
    pub cpu_time_ms: u32,
    pub stmt_exec_count: u64,
    pub stmt_kv_exec_count: Seq<KvView>,
    pub stmt_duration_sum_ns: u64,
    pub stmt_duration_count: u64,
}

impl View for TopSqlRecordItem {
    type V = ItemView;

    open spec fn view(&self) -> ItemView {
        ItemView {
            timestamp_sec: self.timestamp_sec,
            cpu_time_ms: self.cpu_time_ms,
            stmt_exec_count: self.stmt_exec_count,
            stmt_kv_exec_count: kv_views(self.stmt_kv_exec_count@),
            stmt_duration_sum_ns: self.stmt_duration_sum_ns,
            stmt_duration_count: self.stmt_duration_count,
        }
    }
}

impl Clone for TopSqlRecordItem {
    fn clone(&self) -> (copy: TopSqlRecordItem)
        ensures
            copy@ == self@,
    {
        TopSqlRecordItem {
            timestamp_sec: self.timestamp_sec,
            cpu_time_ms: self.cpu_time_ms,
            stmt_exec_count: self.stmt_exec_count,
            stmt_kv_exec_count: kv::kv_clone(&self.stmt_kv_exec_count),
            stmt_duration_sum_ns: self.stmt_duration_sum_ns,
            stmt_duration_count: self.stmt_duration_count,
        }
    }
}

impl Default for TopSqlRecordItem {
    fn default() -> (item: TopSqlRecordItem)
        ensures
            item@ == (ItemView {
                timestamp_sec: 0,
                cpu_time_ms: 0,
                stmt_exec_count: 0,
                stmt_kv_exec_count: Seq::<KvView>::empty(),
                stmt_duration_sum_ns: 0,
                stmt_duration_count: 0,
            }),
    {
        let item = TopSqlRecordItem {
            timestamp_sec: 0,
            cpu_time_ms: 0,
            stmt_exec_count: 0,
            stmt_kv_exec_count: Vec::new(),
            stmt_duration_sum_ns: 0,
            stmt_duration_count: 0,
        };
        assert(item@.stmt_kv_exec_count =~= Seq::<KvView>::empty());
        item
    }
}

/// The counters of an item.
pub enum Counter {
    CpuTimeMs,
    StmtExecCount,
    /// The executions on the TiKV instance of this name.
    StmtKvExecCount(Seq<char>),
    StmtDurationSumNs,
    StmtDurationCount,
}

impl Summable for ItemView {
    type Counter = Counter;

    open spec fn second(self) -> u64 {
        self.timestamp_sec
    }

    open spec fn amount(self, c: Counter) -> int {
        match c {
            Counter::CpuTimeMs => self.cpu_time_ms as int,
            Counter::StmtExecCount => self.stmt_exec_count as int,
            Counter::StmtKvExecCount(instance) => kv_count(self.stmt_kv_exec_count, instance),
            Counter::StmtDurationSumNs => self.stmt_duration_sum_ns as int,
            Counter::StmtDurationCount => self.stmt_duration_count as int,
        }
    }

    open spec fn limit(c: Counter) -> int {
        match c {
            Counter::CpuTimeMs => u32::MAX as int,
            _ => u64::MAX as int,
        }
    }

    open spec fn plus(self, other: ItemView) -> ItemView {
        ItemView {
            timestamp_sec: self.timestamp_sec,
            cpu_time_ms: (self.cpu_time_ms + other.cpu_time_ms) as u32,
            stmt_exec_count: (self.stmt_exec_count + other.stmt_exec_count) as u64,
            stmt_kv_exec_count: kv_merge(self.stmt_kv_exec_count, other.stmt_kv_exec_count),
            stmt_duration_sum_ns: (self.stmt_duration_sum_ns + other.stmt_duration_sum_ns) as u64,
            stmt_duration_count: (self.stmt_duration_count + other.stmt_duration_count) as u64,
        }
    }

    open spec fn at(self, t: u64) -> ItemView {
        ItemView { timestamp_sec: t, ..self }
    }

    proof fn lemma_amount(self, c: Counter) {
        if let Counter::StmtKvExecCount(instance) = c {
            lemma_kv_count_nonneg(self.stmt_kv_exec_count, instance);
        }
    }

    proof fn lemma_plus(self, other: ItemView, c: Counter) {
        if let Counter::StmtKvExecCount(instance) = c {
            lemma_kv_merge_count(self.stmt_kv_exec_count, other.stmt_kv_exec_count, instance);
        }
    }

    proof fn lemma_plus_second(self, other: ItemView) {
    }

    proof fn lemma_at(self, t: u64, c: Counter) {
    }
}

impl Ranked for ItemView {
    open spec fn cpu(self) -> u32 {
        self.cpu_time_ms
    }
}

/// The views of a list of items.
pub open spec fn item_views(items: Seq<TopSqlRecordItem>) -> Seq<ItemView> {
    items.map_values(|x: TopSqlRecordItem| x@)
}

/// The digests of a statement and of its plan.
pub type DigestKey = (Seq<u8>, Seq<u8>);

/// The records of one statement and plan.
#[derive(Clone, Debug, Default, PartialEq, Eq)]
pub struct TopSqlRecord {
    pub sql_digest: Vec<u8>,
    pub plan_digest: Vec<u8>,
    pub items: Vec<TopSqlRecordItem>,
}

/// A record as the contracts see it: its key is the pair of digests.
pub type RecordView = Group<DigestKey, ItemView>;

impl View for TopSqlRecord {
    type V = RecordView;

    open spec fn view(&self) -> RecordView {
        Group { key: (self.sql_digest@, self.plan_digest@), items: item_views(self.items@) }
    }
}

/// The text of a statement.
#[derive(Clone, Debug, Default, PartialEq, Eq)]
pub struct SqlMeta {
    pub sql_digest: Vec<u8>,
    pub normalized_sql: String,
    pub is_internal_sql: bool,
}

/// The text of a plan.
#[derive(Clone, Debug, Default, PartialEq, Eq)]
pub struct PlanMeta {
    pub plan_digest: Vec<u8>,
    pub normalized_plan: String,
    pub encoded_normalized_plan: String,
}

/// The payload of a message of the TopSQL stream.
#[derive(Clone, Debug, PartialEq, Eq)]
pub enum RespOneof {
    Record(TopSqlRecord),
    SqlMeta(SqlMeta),
    PlanMeta(PlanMeta),
}

/// A message of the TopSQL stream.
#[derive(Clone, Debug, Default, PartialEq, Eq)]
pub struct TopSqlSubResponse {
    pub resp_oneof: Option<RespOneof>,
}

/// A message as the contracts see it.
pub enum MessageView {
    Record(RecordView),
    SqlMeta { sql_digest: Seq<u8>, normalized_sql: Seq<char>, is_internal_sql: bool },
    PlanMeta { plan_digest: Seq<u8>, normalized_plan: Seq<char>, encoded_normalized_plan: Seq<char> },
    Empty,
}

impl View for TopSqlSubResponse {
    type V = MessageView;

    open spec fn view(&self) -> MessageView {
        match self.resp_oneof {
            Some(RespOneof::Record(record)) => MessageView::Record(record@),
            Some(RespOneof::SqlMeta(meta)) => MessageView::SqlMeta {
                sql_digest: meta.sql_digest@,
                normalized_sql: meta.normalized_sql@,
                is_internal_sql: meta.is_internal_sql,
            },
            Some(RespOneof::PlanMeta(meta)) => MessageView::PlanMeta {
                plan_digest: meta.plan_digest@,
                normalized_plan: meta.normalized_plan@,
                encoded_normalized_plan: meta.encoded_normalized_plan@,
            },
            None => MessageView::Empty,
        }
    }
}

/// The views of a sequence of messages.
pub open spec fn views(messages: Seq<TopSqlSubResponse>) -> Seq<MessageView> {
    messages.map_values(|m: TopSqlSubResponse| m@)
}

} // verus!
