//! What the source makes of the messages of a TiDB instance.

use super::downsample::{all_can_downsample, can_downsample_all, downsample, downsampled};
use super::kv::{kv_find, kv_views, lemma_kv_find_prefix, KvExecCount, KvView};
use super::top_n::{can_keep_top_n, counted_items, digest_samples, keep_top_n, kept_top_n};
use crate::topsql::retention::{kept_in_second, samples_in_second};
use crate::topsql::selection::min_count;
use super::{
    item_views, ItemView, MessageView, PlanMeta, RecordView, RespOneof, SqlMeta, TopSqlRecord,
    TopSqlRecordItem, TopSqlSubResponse, views,
};
use crate::encoding::{hex_encode_upper, hex_upper};
use crate::time::Timestamp;
use crate::topsql::fold::{totals_fit, Summable};
use crate::topsql::metric::{
    event_views, label, make_series_labels, push_series, second_start,
    series_event, series_labels, timestamp_of_second, EventView, Label, LabelView, MetricEvent,
    Point,
};
use vstd::prelude::*;

verus! {

/// The counters that are a plain number.
#[derive(Clone, Copy, Debug, PartialEq, Eq, Structural)]
pub enum Metric {
    CpuTimeMs,
    StmtExecCount,
    StmtDurationSumNs,
    StmtDurationCount,
}

/// The value of a metric in an item.
pub open spec fn metric_value(x: ItemView, m: Metric) -> u64 {
    match m {
        Metric::CpuTimeMs => x.cpu_time_ms as u64,
        Metric::StmtExecCount => x.stmt_exec_count,
        Metric::StmtDurationSumNs => x.stmt_duration_sum_ns,
        Metric::StmtDurationCount => x.stmt_duration_count,
    }
}

/// The name of a metric.
pub open spec fn metric_name(m: Metric) -> Seq<char> {
    match m {
        Metric::CpuTimeMs => "topsql_cpu_time_ms"@,
        Metric::StmtExecCount => "topsql_stmt_exec_count"@,
        Metric::StmtDurationSumNs => "topsql_stmt_duration_sum_ns"@,
        Metric::StmtDurationCount => "topsql_stmt_duration_count"@,
    }
}

/// The points of a metric: one for each item in which it is not zero.
pub open spec fn points_of(items: Seq<ItemView>, m: Metric) -> Seq<Point>
    decreases items.len(),
{
    if items.len() == 0 {
        seq![]
    } else {
        let rest = points_of(items.drop_last(), m);
        let x = items.last();
        if metric_value(x, m) > 0 {
            rest.push(Point { timestamp: second_start(x.timestamp_sec), value: metric_value(x, m) })
        } else {
            rest
        }
    }
}

/// The count of an instance: that of its first entry, or zero.
pub open spec fn kv_get(kv: Seq<KvView>, instance: Seq<char>) -> u64 {
    match kv_find(kv, instance) {
        Some(i) => kv[i].count,
        None => 0,
    }
}

/// The points of the executions on one TiKV instance: one for each item in
/// which their count is not zero.
pub open spec fn kv_points_of(items: Seq<ItemView>, instance: Seq<char>) -> Seq<Point>
    decreases items.len(),
{
    if items.len() == 0 {
        seq![]
    } else {
        let rest = kv_points_of(items.drop_last(), instance);
        let x = items.last();
        if kv_get(x.stmt_kv_exec_count, instance) > 0 {
            rest.push(
                Point {
                    timestamp: second_start(x.timestamp_sec),
                    value: kv_get(x.stmt_kv_exec_count, instance),
                },
            )
        } else {
            rest
        }
    }
}

/// `names` with the instances of `kv` that it lacks, in their order.
pub open spec fn with_instances(names: Seq<Seq<char>>, kv: Seq<KvView>) -> Seq<Seq<char>>
    decreases kv.len(),
{
    if kv.len() == 0 {
        names
    } else {
        let rest = with_instances(names, kv.drop_last());
        if rest.contains(kv.last().instance) {
            rest
        } else {
            rest.push(kv.last().instance)
        }
    }
}

/// The TiKV instances that the items name, each once, in the order in which
/// they first occur.
pub open spec fn kv_instances(items: Seq<ItemView>) -> Seq<Seq<char>>
    decreases items.len(),
{
    if items.len() == 0 {
        seq![]
    } else {
        with_instances(kv_instances(items.drop_last()), items.last().stmt_kv_exec_count)
    }
}

/// The event of one metric of a record, if the metric has a point.
pub open spec fn metric_event(record: RecordView, instance: Seq<char>, m: Metric) -> Seq<
    EventView,
> {
    series_event(
        series_labels(
            metric_name(m),
            instance,
            "tidb"@,
            hex_upper(record.key.0),
            hex_upper(record.key.1),
            ""@,
        ),
        points_of(record.items, m),
    )
}

/// The event of the executions on one TiKV instance, if it has a point.
pub open spec fn kv_event(record: RecordView, instance: Seq<char>) -> Seq<EventView> {
    series_event(
        series_labels(
            "topsql_stmt_exec_count"@,
            instance,
            "tikv"@,
            hex_upper(record.key.0),
            hex_upper(record.key.1),
            ""@,
        ),
        kv_points_of(record.items, instance),
    )
}

/// The events of the executions on the first `n` of the TiKV instances.
pub open spec fn kv_events(record: RecordView, instances: Seq<Seq<char>>, n: nat) -> Seq<
    EventView,
>
    decreases n,
{
    if n == 0 {
        seq![]
    } else {
        kv_events(record, instances, (n - 1) as nat) + kv_event(record, instances[n - 1])
    }
}

/// The events of a record: one for each metric that has a point, for CPU
/// time, executions, the sum of the durations and their number in this
/// order; then one for each TiKV instance on which the statement ran.
pub open spec fn record_events(record: RecordView, instance: Seq<char>) -> Seq<EventView> {
    metric_event(record, instance, Metric::CpuTimeMs) + metric_event(
        record,
        instance,
        Metric::StmtExecCount,
    ) + metric_event(record, instance, Metric::StmtDurationSumNs) + metric_event(
        record,
        instance,
        Metric::StmtDurationCount,
    ) + kv_events(
        record,
        kv_instances(record.items),
        kv_instances(record.items).len(),
    )
}

/// The text of a truth value.
pub open spec fn bool_text(b: bool) -> Seq<char> {
    if b {
        "true"@
    } else {
        "false"@
    }
}

/// The event that tells the text of a statement.
pub open spec fn sql_meta_event(
    sql_digest: Seq<u8>,
    normalized_sql: Seq<char>,
    is_internal_sql: bool,
    now: Timestamp,
) -> EventView {
    EventView {
        labels: seq![
            LabelView { name: "__name__"@, value: "topsql_sql_meta"@ },
            LabelView { name: "sql_digest"@, value: hex_upper(sql_digest) },
            LabelView { name: "normalized_sql"@, value: normalized_sql },
            LabelView { name: "is_internal_sql"@, value: bool_text(is_internal_sql) },
        ],
        points: seq![Point { timestamp: now, value: 1 }],
    }
}

/// The event that tells the text of a plan.
pub open spec fn plan_meta_event(
    plan_digest: Seq<u8>,
    normalized_plan: Seq<char>,
    encoded_normalized_plan: Seq<char>,
    now: Timestamp,
) -> EventView {
    EventView {
        labels: seq![
            LabelView { name: "__name__"@, value: "topsql_plan_meta"@ },
            LabelView { name: "plan_digest"@, value: hex_upper(plan_digest) },
            LabelView { name: "normalized_plan"@, value: normalized_plan },
            LabelView { name: "encoded_normalized_plan"@, value: encoded_normalized_plan },
        ],
        points: seq![Point { timestamp: now, value: 1 }],
    }
}

/// The events of a message that is read at `now`.
pub open spec fn message_events(message: MessageView, instance: Seq<char>, now: Timestamp) -> Seq<
    EventView,
> {
    match message {
        MessageView::Record(record) => record_events(record, instance),
        MessageView::SqlMeta { sql_digest, normalized_sql, is_internal_sql } => seq![
            sql_meta_event(sql_digest, normalized_sql, is_internal_sql, now),
        ],
        MessageView::PlanMeta { plan_digest, normalized_plan, encoded_normalized_plan } => seq![
            plan_meta_event(plan_digest, normalized_plan, encoded_normalized_plan, now),
        ],
        MessageView::Empty => seq![],
    }
}

fn metric_name_of(m: Metric) -> (name: &'static str)
    ensures
        name@ == metric_name(m),
{
    match m {
        Metric::CpuTimeMs => "topsql_cpu_time_ms",
        Metric::StmtExecCount => "topsql_stmt_exec_count",
        Metric::StmtDurationSumNs => "topsql_stmt_duration_sum_ns",
        Metric::StmtDurationCount => "topsql_stmt_duration_count",
    }
}

fn collect_points(items: &Vec<TopSqlRecordItem>, m: Metric) -> (points: Vec<Point>)
    ensures
        points@ == points_of(item_views(items@), m),
{
    let ghost all = item_views(items@);
    let mut points: Vec<Point> = Vec::new();
    let mut i: usize = 0;
    while i < items.len()
        invariant
            i <= items@.len(),
            all == item_views(items@),
            points@ == points_of(all.take(i as int), m),
        decreases items@.len() - i,
    {
        let x = &items[i];
        let value = match m {
            Metric::CpuTimeMs => x.cpu_time_ms as u64,
            Metric::StmtExecCount => x.stmt_exec_count,
            Metric::StmtDurationSumNs => x.stmt_duration_sum_ns,
            Metric::StmtDurationCount => x.stmt_duration_count,
        };
        proof {
            assert(all.take(i + 1).drop_last() == all.take(i as int));
            assert(all.take(i + 1).last() == x@);
        }
        if value > 0 {
            points.push(Point { timestamp: timestamp_of_second(x.timestamp_sec), value });
        }
        i = i + 1;
    }
    proof {
        assert(all.take(i as int) == all);
    }
    points
}

fn get_count(kv: &Vec<KvExecCount>, instance: &String) -> (count: u64)
    ensures
        count == kv_get(kv_views(kv@), instance@),
{
    let mut i: usize = 0;
    while i < kv.len()
        invariant
            i <= kv@.len(),
            kv_find(kv_views(kv@).take(i as int), instance@) is None,
        decreases kv@.len() - i,
    {
        let same = kv[i].instance == *instance;
        proof {
            let v = kv_views(kv@);
            assert(v.take(i + 1).drop_last() == v.take(i as int));
            assert(v[i as int].instance == kv@[i as int].instance@);
        }
        if same {
            proof {
                lemma_kv_find_prefix(kv_views(kv@), instance@, i + 1);
                assert(kv_views(kv@)[i as int].count == kv@[i as int].count);
            }
            return kv[i].count;
        }
        i = i + 1;
    }
    proof {
        assert(kv_views(kv@).take(i as int) == kv_views(kv@));
    }
    0
}

fn collect_kv_points(items: &Vec<TopSqlRecordItem>, instance: &String) -> (points: Vec<Point>)
    ensures
        points@ == kv_points_of(item_views(items@), instance@),
{
    let ghost all = item_views(items@);
    let mut points: Vec<Point> = Vec::new();
    let mut i: usize = 0;
    while i < items.len()
        invariant
            i <= items@.len(),
            all == item_views(items@),
            points@ == kv_points_of(all.take(i as int), instance@),
        decreases items@.len() - i,
    {
        let x = &items[i];
        let value = get_count(&x.stmt_kv_exec_count, instance);
        proof {
            assert(all.take(i + 1).drop_last() == all.take(i as int));
            assert(all.take(i + 1).last() == x@);
        }
        if value > 0 {
            points.push(Point { timestamp: timestamp_of_second(x.timestamp_sec), value });
        }
        i = i + 1;
    }
    proof {
        assert(all.take(i as int) == all);
    }
    points
}

/// The views of a list of names.
pub open spec fn name_views(names: Seq<String>) -> Seq<Seq<char>> {
    names.map_values(|n: String| n@)
}

fn has_name(names: &Vec<String>, name: &String) -> (r: bool)
    ensures
        r == name_views(names@).contains(name@),
{
    let mut i: usize = 0;
    while i < names.len()
        invariant
            i <= names@.len(),
            forall|j: int| 0 <= j < i ==> name_views(names@)[j] != name@,
        decreases names@.len() - i,
    {
        let same = names[i] == *name;
        assert(name_views(names@)[i as int] == names@[i as int]@);
        if same {
            return true;
        }
        i = i + 1;
    }
    false
}

fn collect_instances(items: &Vec<TopSqlRecordItem>) -> (names: Vec<String>)
    ensures
        name_views(names@) == kv_instances(item_views(items@)),
{
    let ghost all = item_views(items@);
    let mut names: Vec<String> = Vec::new();
    let mut i: usize = 0;
    assert(name_views(names@) =~= kv_instances(all.take(0)));
    while i < items.len()
        invariant
            i <= items@.len(),
            all == item_views(items@),
            name_views(names@) == kv_instances(all.take(i as int)),
        decreases items@.len() - i,
    {
        let kv = &items[i].stmt_kv_exec_count;
        let ghost kvv = kv_views(kv@);
        let ghost start = name_views(names@);
        proof {
            assert(all.take(i + 1).drop_last() == all.take(i as int));
            assert(all.take(i + 1).last().stmt_kv_exec_count == kvv);
        }
        let mut j: usize = 0;
        while j < kv.len()
            invariant
                j <= kv@.len(),
                kvv == kv_views(kv@),
                name_views(names@) == with_instances(start, kvv.take(j as int)),
            decreases kv@.len() - j,
        {
            proof {
                assert(kvv.take(j + 1).drop_last() == kvv.take(j as int));
                assert(kvv.take(j + 1).last().instance == kv@[j as int].instance@);
            }
            if !has_name(&names, &kv[j].instance) {
                let ghost before = name_views(names@);
                let name = kv[j].instance.clone();
                names.push(name);
                proof {
                    assert(name_views(names@) =~= before.push(kv@[j as int].instance@));
                }
            }
            j = j + 1;
        }
        proof {
            assert(kvv.take(j as int) == kvv);
        }
        i = i + 1;
    }
    proof {
        assert(all.take(i as int) == all);
    }
    names
}

/// The events of a list of messages, in their order.
pub open spec fn all_events(messages: Seq<MessageView>, instance: Seq<char>, now: Timestamp) -> Seq<EventView>
    decreases messages.len(),
{
    if messages.len() == 0 {
        seq![]
    } else {
        all_events(messages.drop_last(), instance, now) + message_events(
            messages.last(),
            instance, now,
        )
    }
}

/// What a window of messages becomes: the `top_n` of each second are kept and
/// the rest is summed into the "others", the records are downsampled, and
/// every message is turned into its events.
pub open spec fn aggregated(messages: Seq<MessageView>, top_n: nat, interval_sec: u32) -> Seq<MessageView> {
    let kept = kept_top_n(messages, top_n);
    if interval_sec > 1 {
        kept.map_values(|m: MessageView| downsampled(m, interval_sec as u64))
    } else {
        kept
    }
}

/// The window can be aggregated: the totals of every second fit their
/// counters, before and after downsampling.
pub open spec fn can_aggregate(messages: Seq<MessageView>, top_n: nat, interval_sec: u32) -> bool {
    &&& totals_fit(counted_items(messages))
    &&& interval_sec > 1 ==> all_can_downsample(kept_top_n(messages, top_n), interval_sec as u64)
}

/// Turns the messages of a TiDB instance into events, after retention and
/// downsampling where they are asked for.
pub struct TopSqlSubResponseParser;

impl TopSqlSubResponseParser {
    /// The events of a message that is read at `now`.
    pub fn parse(response: TopSqlSubResponse, instance: String, now: Timestamp) -> (events: Vec<
        MetricEvent,
    >)
        ensures
            event_views(events@) == message_events(response@, instance@, now),
    {
        match response.resp_oneof {
            Some(RespOneof::Record(record)) => Self::parse_tidb_record(record, instance),
            Some(RespOneof::SqlMeta(sql_meta)) => Self::parse_tidb_sql_meta(sql_meta, now),
            Some(RespOneof::PlanMeta(plan_meta)) => Self::parse_tidb_plan_meta(plan_meta, now),
            None => {
                let events: Vec<MetricEvent> = Vec::new();
                assert(event_views(events@) =~= Seq::<EventView>::empty());
                events
            },
        }
    }

    /// Keeps of each second the `top_n` samples with the highest CPU time
    /// and sums the rest into the record of the "others".
    pub fn keep_top_n(responses: Vec<TopSqlSubResponse>, top_n: usize) -> (out: Vec<
        TopSqlSubResponse,
    >)
        requires
            totals_fit(counted_items(views(responses@))),
        ensures
            views(out@) == kept_top_n(views(responses@), top_n as nat),
            forall|t: u64| #[trigger]
                kept_in_second(digest_samples(views(responses@)), top_n as nat, t) == min_count(
                    top_n as nat,
                    samples_in_second(digest_samples(views(responses@)), t),
                ),
    {
        keep_top_n(responses, top_n)
    }

    /// Downsamples every record to one item per interval. An interval of at
    /// most one second leaves the records as they are.
    pub fn downsampling(responses: &mut Vec<TopSqlSubResponse>, interval_sec: u32)
        requires
            interval_sec > 1 ==> all_can_downsample(views(old(responses)@), interval_sec as u64),
        ensures
            interval_sec <= 1 ==> views(final(responses)@) == views(old(responses)@),
            interval_sec > 1 ==> views(final(responses)@) == views(old(responses)@).map_values(
                |m: MessageView| downsampled(m, interval_sec as u64),
            ),
    {
        downsample(responses, interval_sec)
    }

    /// Whether retention can be applied to the messages: whether the totals
    /// of every second fit their counters.
    pub fn can_keep_top_n(responses: &Vec<TopSqlSubResponse>) -> (r: bool)
        ensures
            r == totals_fit(counted_items(views(responses@))),
    {
        can_keep_top_n(responses)
    }

    /// Whether the messages can be downsampled: whether the seconds that
    /// stand for the intervals and the totals that meet in them fit.
    pub fn can_downsample(responses: &Vec<TopSqlSubResponse>, interval_sec: u32) -> (r: bool)
        ensures
            r == (interval_sec > 1 ==> all_can_downsample(views(responses@), interval_sec as u64)),
    {
        if interval_sec <= 1 {
            true
        } else {
            can_downsample_all(responses, interval_sec)
        }
    }

    /// Turns a window of messages into events: retention first, then
    /// downsampling, then the events of each message. `None`, and nothing
    /// done, where the totals of some second do not fit their counters.
    pub fn aggregate(
        responses: Vec<TopSqlSubResponse>,
        top_n: usize,
        interval_sec: u32,
        instance: &String,
        now: Timestamp,
    ) -> (events: Option<Vec<MetricEvent>>)
        ensures
            events is Some <==> can_aggregate(views(responses@), top_n as nat, interval_sec),
            events matches Some(e) ==> event_views(e@) == all_events(
                aggregated(views(responses@), top_n as nat, interval_sec),
                instance@, now,
            ),
    {
        if !Self::can_keep_top_n(&responses) {
            return None;
        }
        let mut kept = Self::keep_top_n(responses, top_n);
        if !Self::can_downsample(&kept, interval_sec) {
            return None;
        }
        Self::downsampling(&mut kept, interval_sec);
        let ghost out = views(kept@);
        let mut events: Vec<MetricEvent> = Vec::new();
        let n = kept.len();
        let mut i: usize = 0;
        proof {
            assert(event_views(events@) =~= all_events(out.take(0), instance@, now));
        }
        for message in it: kept
            invariant
                i == it.index(),
                n == it.seq().len(),
                out == views(it.seq()),
                event_views(events@) == all_events(out.take(i as int), instance@, now),
        {
            proof {
                assert(out.take(i + 1).drop_last() == out.take(i as int));
                assert(out.take(i + 1).last() == message@);
            }
            let ghost before = event_views(events@);
            let mut more = Self::parse(message, instance.clone(), now);
            let ghost added = event_views(more@);
            events.append(&mut more);
            proof {
                assert(event_views(events@) =~= before + added);
            }
            i = i + 1;
        }
        proof {
            assert(out.take(i as int) == out);
        }
        Some(events)
    }

    /// The events of a record.
    pub fn parse_tidb_record(record: TopSqlRecord, instance: String) -> (events: Vec<MetricEvent>)
        ensures
            event_views(events@) == record_events(record@, instance@),
    {
        let ghost rv = record@;
        let mut events: Vec<MetricEvent> = Vec::new();
        assert(event_views(events@) =~= Seq::<EventView>::empty());
        let sql_digest = hex_encode_upper(record.sql_digest.as_slice());
        let plan_digest = hex_encode_upper(record.plan_digest.as_slice());
        Self::append(&mut events, &record, &instance, &sql_digest, &plan_digest,
            Metric::CpuTimeMs);
        Self::append(&mut events, &record, &instance, &sql_digest, &plan_digest,
            Metric::StmtExecCount);
        Self::append(&mut events, &record, &instance, &sql_digest, &plan_digest,
            Metric::StmtDurationSumNs);
        Self::append(&mut events, &record, &instance, &sql_digest, &plan_digest,
            Metric::StmtDurationCount);
        let ghost head = event_views(events@);
        let tikv_instances = collect_instances(&record.items);
        let ghost names = name_views(tikv_instances@);
        let mut i: usize = 0;
        assert(head =~= head + kv_events(rv, names, 0));
        while i < tikv_instances.len()
            invariant
                i <= tikv_instances@.len(),
                rv == record@,
                names == name_views(tikv_instances@),
                sql_digest@ == hex_upper(rv.key.0),
                plan_digest@ == hex_upper(rv.key.1),
                event_views(events@) == head + kv_events(rv, names, i as nat),
            decreases tikv_instances@.len() - i,
        {
            let tikv_instance = &tikv_instances[i];
            assert(names[i as int] == tikv_instance@);
            let points = collect_kv_points(&record.items, tikv_instance);
            let labels = make_series_labels(
                "topsql_stmt_exec_count",
                tikv_instance.as_str(),
                "tikv",
                sql_digest.as_str(),
                plan_digest.as_str(),
                "",
            );
            push_series(&mut events, labels, points);
            proof {
                assert(event_views(events@) =~= head + kv_events(rv, names, (i + 1) as nat));
            }
            i = i + 1;
        }
        proof {
            assert(event_views(events@) =~= record_events(rv, instance@));
        }
        events
    }

    fn append(
        events: &mut Vec<MetricEvent>,
        record: &TopSqlRecord,
        instance: &String,
        sql_digest: &String,
        plan_digest: &String,
        m: Metric,
    )
        requires
            sql_digest@ == hex_upper(record@.key.0),
            plan_digest@ == hex_upper(record@.key.1),
        ensures
            event_views(final(events)@) == event_views(old(events)@) + metric_event(
                record@,
                instance@,
                m,
            ),
    {
        let points = collect_points(&record.items, m);
        let labels = make_series_labels(
            metric_name_of(m),
            instance.as_str(),
            "tidb",
            sql_digest.as_str(),
            plan_digest.as_str(),
            "",
        );
        push_series(events, labels, points);
    }

    /// The event that tells the text of a statement.
    pub fn parse_tidb_sql_meta(sql_meta: SqlMeta, now: Timestamp) -> (events: Vec<MetricEvent>)
        ensures
            event_views(events@) == seq![
                sql_meta_event(
                    sql_meta.sql_digest@,
                    sql_meta.normalized_sql@,
                    sql_meta.is_internal_sql,
                    now,
                ),
            ],
    {
        let digest = hex_encode_upper(sql_meta.sql_digest.as_slice());
        let internal = if sql_meta.is_internal_sql {
            "true"
        } else {
            "false"
        };
        let mut labels: Vec<Label> = Vec::new();
        labels.push(label("__name__", "topsql_sql_meta"));
        labels.push(label("sql_digest", digest.as_str()));
        labels.push(label("normalized_sql", sql_meta.normalized_sql.as_str()));
        labels.push(label("is_internal_sql", internal));
        let mut points: Vec<Point> = Vec::new();
        points.push(Point { timestamp: now, value: 1 });
        let mut events: Vec<MetricEvent> = Vec::new();
        events.push(MetricEvent { labels, points });
        proof {
            let e = sql_meta_event(
                sql_meta.sql_digest@,
                sql_meta.normalized_sql@,
                sql_meta.is_internal_sql,
                now,
            );
            assert(events@[0]@.labels =~= e.labels);
            assert(events@[0]@.points =~= e.points);
            assert(event_views(events@) =~= seq![e]);
        }
        events
    }

    /// The event that tells the text of a plan.
    pub fn parse_tidb_plan_meta(plan_meta: PlanMeta, now: Timestamp) -> (events: Vec<MetricEvent>)
        ensures
            event_views(events@) == seq![
                plan_meta_event(
                    plan_meta.plan_digest@,
                    plan_meta.normalized_plan@,
                    plan_meta.encoded_normalized_plan@,
                    now,
                ),
            ],
    {
        let digest = hex_encode_upper(plan_meta.plan_digest.as_slice());
        let mut labels: Vec<Label> = Vec::new();
        labels.push(label("__name__", "topsql_plan_meta"));
        labels.push(label("plan_digest", digest.as_str()));
        labels.push(label("normalized_plan", plan_meta.normalized_plan.as_str()));
        labels.push(label("encoded_normalized_plan", plan_meta.encoded_normalized_plan.as_str()));
        let mut points: Vec<Point> = Vec::new();
        points.push(Point { timestamp: now, value: 1 });
        let mut events: Vec<MetricEvent> = Vec::new();
        events.push(MetricEvent { labels, points });
        proof {
            let e = plan_meta_event(
                plan_meta.plan_digest@,
                plan_meta.normalized_plan@,
                plan_meta.encoded_normalized_plan@,
                now,
            );
            assert(events@[0]@.labels =~= e.labels);
            assert(events@[0]@.points =~= e.points);
            assert(event_views(events@) =~= seq![e]);
        }
        events
    }
}

} // verus!
