use vector_extensions::time::Timestamp;
use vector_extensions::topsql::metric::{MetricEvent, Point};
use vector_extensions::topsql::tidb::kv::{kv_fits, kv_merge_into, kv_total, KvExecCount};
use vector_extensions::topsql::tidb::parser::TopSqlSubResponseParser;
use vector_extensions::topsql::tidb::{
    PlanMeta, RespOneof, SqlMeta, TopSqlRecord, TopSqlRecordItem, TopSqlSubResponse,
};

fn kv(entries: &[(&str, u64)]) -> Vec<KvExecCount> {
    entries.iter().map(|(i, c)| KvExecCount { instance: (*i).to_owned(), count: *c }).collect()
}

fn item(ts: u64, cpu: u32) -> TopSqlRecordItem {
    TopSqlRecordItem {
        timestamp_sec: ts,
        cpu_time_ms: cpu,
        stmt_exec_count: 2,
        stmt_kv_exec_count: kv(&[("tikv-0", 1), ("tikv-1", 3)]),
        stmt_duration_sum_ns: 1000,
        stmt_duration_count: 2,
    }
}

fn record(sql: &[u8], items: Vec<TopSqlRecordItem>) -> TopSqlSubResponse {
    TopSqlSubResponse {
        resp_oneof: Some(RespOneof::Record(TopSqlRecord {
            sql_digest: sql.to_vec(),
            plan_digest: if sql.is_empty() { vec![] } else { vec![0xbe, 0xef] },
            items,
        })),
    }
}

fn records_of(out: &Vec<TopSqlSubResponse>) -> Vec<&TopSqlRecord> {
    let mut records = Vec::new();
    for r in out {
        if let Some(RespOneof::Record(record)) = &r.resp_oneof {
            records.push(record);
        }
    }
    records
}

fn mock_responses() -> Vec<TopSqlSubResponse> {
    // the seconds 1709646891..=1709646924 without 1709646906
    let seconds: Vec<u64> = (1709646891u64..=1709646924).filter(|s| *s != 1709646906).collect();
    let mut responses = Vec::new();
    for d in 0u32..12 {
        let mut items = Vec::new();
        for s in &seconds {
            items.push(item(*s, 10 * (d + 1)));
        }
        responses.push(record(&[d as u8 + 1], items));
    }
    let mut others = Vec::new();
    for s in &seconds {
        others.push(item(*s, 900));
    }
    responses.push(record(&[], others));
    responses
}

fn sum_items(items: &Vec<TopSqlRecordItem>) -> (u64, u64, u64, u64, Vec<(String, u64)>) {
    let mut cpu = 0u64;
    let mut exec = 0u64;
    let mut dur_sum = 0u64;
    let mut dur_count = 0u64;
    let mut by_instance: std::collections::BTreeMap<String, u64> = std::collections::BTreeMap::new();
    for i in items {
        cpu += i.cpu_time_ms as u64;
        exec += i.stmt_exec_count;
        dur_sum += i.stmt_duration_sum_ns;
        dur_count += i.stmt_duration_count;
        for e in &i.stmt_kv_exec_count {
            *by_instance.entry(e.instance.clone()).or_insert(0) += e.count;
        }
    }
    (cpu, exec, dur_sum, dur_count, by_instance.into_iter().collect())
}

#[test]
fn parser_test_keep_top_n() {
    let responses = mock_responses();
    assert!(TopSqlSubResponseParser::can_keep_top_n(&responses));
    let top_n = TopSqlSubResponseParser::keep_top_n(responses, 10);
    assert_eq!(top_n.len(), 11);
    let mut top_cpu_time = vec![];
    let mut others_cpu_time = 0;
    for response in top_n {
        if let Some(RespOneof::Record(record)) = response.resp_oneof {
            let cpu_time: u32 = record.items.iter().map(|i| i.cpu_time_ms).sum();
            if record.sql_digest.is_empty() {
                others_cpu_time = cpu_time;
            } else {
                top_cpu_time.push(cpu_time);
            }
        }
    }
    top_cpu_time.sort_by(|a, b| b.cmp(a));
    let expected: Vec<u32> = (2u32..12).rev().map(|d| 33 * 10 * (d + 1)).collect();
    assert_eq!(top_cpu_time, expected);
    assert_eq!(others_cpu_time, 33 * 900 + 33 * 10 + 33 * 20);
}

#[test]
fn parser_test_downsampling() {
    let mut responses = mock_responses();
    let mut items = vec![];
    for response in &responses {
        if let Some(RespOneof::Record(record)) = &response.resp_oneof {
            if record.sql_digest.is_empty() {
                items = record.items.clone();
            }
        }
    }
    let mut timestamps: Vec<u64> = items.clone().into_iter().map(|i| i.timestamp_sec).collect();
    timestamps.sort();
    assert_eq!(
        timestamps, // 21:54:51 ~ 21:55:24
        [
            1709646891, 1709646892, 1709646893, 1709646894, 1709646895, 1709646896, 1709646897,
            1709646898, 1709646899, 1709646900, 1709646901, 1709646902, 1709646903, 1709646904,
            1709646905, 1709646907, 1709646908, 1709646909, 1709646910, 1709646911, 1709646912,
            1709646913, 1709646914, 1709646915, 1709646916, 1709646917, 1709646918, 1709646919,
            1709646920, 1709646921, 1709646922, 1709646923, 1709646924
        ]
    );
    let sum_old = sum_items(&items);

    assert!(TopSqlSubResponseParser::can_downsample(&responses, 15));
    TopSqlSubResponseParser::downsampling(&mut responses, 15);

    let mut items = vec![];
    for response in &responses {
        if let Some(RespOneof::Record(record)) = &response.resp_oneof {
            if record.sql_digest.is_empty() {
                items = record.items.clone();
            }
        }
    }
    let timestamps: Vec<u64> = items.clone().into_iter().map(|i| i.timestamp_sec).collect();
    assert_eq!(
        timestamps,
        [
            1709646900, // 21:55:00
            1709646915, // 21:55:15
            1709646930, // 21:55:30
        ]
    );
    let sum_new = sum_items(&items);

    assert_eq!(sum_old.0, sum_new.0);
    assert_eq!(sum_old.1, sum_new.1);
    assert_eq!(sum_old.2, sum_new.2);
    assert_eq!(sum_old.3, sum_new.3);
    assert_eq!(sum_old.4, sum_new.4);
    // nine, fourteen and ten seconds fall into the three intervals
    assert_eq!(items[0].cpu_time_ms, 9 * 900);
    assert_eq!(items[1].cpu_time_ms, 14 * 900);
    assert_eq!(items[2].cpu_time_ms, 10 * 900);
    assert_eq!(items[1].stmt_kv_exec_count, kv(&[("tikv-0", 14), ("tikv-1", 42)]));
}

#[test]
fn tidb_keep_top_n_with_ties() {
    let input = vec![
        record(&[1], vec![item(100, 90)]),
        record(&[2], vec![item(100, 60)]),
        record(&[3], vec![item(100, 50)]),
        record(&[4], vec![item(100, 50)]),
        record(&[5], vec![item(100, 50)]),
        record(&[6], vec![item(100, 40)]),
    ];
    let out = TopSqlSubResponseParser::keep_top_n(input, 3);
    let records = records_of(&out);
    assert_eq!(records.len(), 4);
    let kept: Vec<u32> = records[0..3].iter().map(|r| r.items[0].cpu_time_ms).collect();
    assert_eq!(kept, vec![90, 60, 50]);
    assert_eq!(records[2].sql_digest, vec![3]);
    let others = records[3];
    assert!(others.sql_digest.is_empty());
    assert!(others.plan_digest.is_empty());
    assert_eq!(others.items.len(), 1);
    assert_eq!(others.items[0].timestamp_sec, 100);
    assert_eq!(others.items[0].cpu_time_ms, 140);
    assert_eq!(others.items[0].stmt_exec_count, 6);
    assert_eq!(others.items[0].stmt_duration_sum_ns, 3000);
    assert_eq!(others.items[0].stmt_duration_count, 6);
    assert_eq!(others.items[0].stmt_kv_exec_count, kv(&[("tikv-0", 3), ("tikv-1", 9)]));
    assert_eq!(kept.iter().sum::<u32>() + others.items[0].cpu_time_ms, 340);
}

#[test]
fn tidb_keep_top_n_passes_other_messages_through() {
    let sql_meta = TopSqlSubResponse {
        resp_oneof: Some(RespOneof::SqlMeta(SqlMeta {
            sql_digest: vec![1],
            normalized_sql: "select ?".to_owned(),
            is_internal_sql: false,
        })),
    };
    let plan_meta = TopSqlSubResponse {
        resp_oneof: Some(RespOneof::PlanMeta(PlanMeta {
            plan_digest: vec![2],
            normalized_plan: "plan".to_owned(),
            encoded_normalized_plan: "encoded".to_owned(),
        })),
    };
    let empty = TopSqlSubResponse { resp_oneof: None };
    let input = vec![
        record(&[1], vec![item(100, 90)]),
        sql_meta.clone(),
        record(&[], vec![item(100, 1), item(100, 2)]),
        plan_meta.clone(),
        record(&[1], vec![item(101, 7)]),
        empty.clone(),
    ];
    let out = TopSqlSubResponseParser::keep_top_n(input, 5);
    assert_eq!(out.len(), 5);
    assert_eq!(out[0], sql_meta);
    assert_eq!(out[1], plan_meta);
    assert_eq!(out[2], empty);
    let records = records_of(&out);
    assert_eq!(records[0].sql_digest, vec![1]);
    assert_eq!(records[0].plan_digest, vec![0xbe, 0xef]);
    assert_eq!(records[0].items, vec![item(100, 90), item(101, 7)]);
    // the two items of the others that share a second are summed
    assert_eq!(records[1].items.len(), 1);
    assert_eq!(records[1].items[0].cpu_time_ms, 3);
    assert_eq!(records[1].items[0].stmt_kv_exec_count, kv(&[("tikv-0", 2), ("tikv-1", 6)]));
}

#[test]
fn tidb_downsampling_merges_instances() {
    let mut a = item(16, 1);
    a.stmt_kv_exec_count = kv(&[("tikv-0", 1)]);
    let mut b = item(17, 2);
    b.stmt_kv_exec_count = kv(&[("tikv-1", 5), ("tikv-0", 2)]);
    let mut responses = vec![record(&[1], vec![a, b])];
    TopSqlSubResponseParser::downsampling(&mut responses, 15);
    let records = records_of(&responses);
    assert_eq!(records[0].items.len(), 1);
    assert_eq!(records[0].items[0].timestamp_sec, 30);
    assert_eq!(records[0].items[0].cpu_time_ms, 3);
    assert_eq!(records[0].items[0].stmt_exec_count, 4);
    assert_eq!(records[0].items[0].stmt_kv_exec_count, kv(&[("tikv-0", 3), ("tikv-1", 5)]));
}

#[test]
fn tidb_overflow_is_detected() {
    let mut big = item(100, 1);
    big.stmt_exec_count = u64::MAX;
    let input = vec![record(&[1], vec![big.clone()]), record(&[2], vec![item(100, 1)])];
    assert!(!TopSqlSubResponseParser::can_keep_top_n(&input));
    assert_eq!(
        TopSqlSubResponseParser::aggregate(input, 1, 0, &"db".to_owned(), Timestamp::from_nanos(0)),
        None
    );
    let mut dup = item(100, 1);
    dup.stmt_kv_exec_count = kv(&[("tikv-0", u64::MAX), ("tikv-0", 1)]);
    assert!(!TopSqlSubResponseParser::can_keep_top_n(&vec![record(&[1], vec![dup])]));
    let mut kv_big = item(100, 1);
    kv_big.stmt_kv_exec_count = kv(&[("tikv-0", u64::MAX)]);
    assert!(TopSqlSubResponseParser::can_keep_top_n(&vec![record(&[1], vec![kv_big.clone()])]));
    assert!(!TopSqlSubResponseParser::can_keep_top_n(&vec![
        record(&[1], vec![kv_big.clone()]),
        record(&[2], vec![item(100, 1)])
    ]));
    assert!(!TopSqlSubResponseParser::can_downsample(&vec![record(&[1], vec![kv_big, item(101, 1)])], 15));
    assert!(TopSqlSubResponseParser::can_downsample(&vec![record(&[1], vec![big, item(101, 1)])], 0));
}

#[test]
fn kv_counts() {
    let mut acc = kv(&[("a", 1), ("b", 2)]);
    kv_merge_into(&mut acc, kv(&[("b", 3), ("c", 4), ("c", 5)]));
    assert_eq!(acc, kv(&[("a", 1), ("b", 5), ("c", 9)]));
    assert_eq!(kv_total(&kv(&[("a", 1), ("b", 2), ("a", 4)]), &"a".to_owned()), Some(5));
    assert_eq!(kv_total(&kv(&[("a", 1)]), &"z".to_owned()), Some(0));
    assert_eq!(kv_total(&kv(&[("a", u64::MAX), ("a", 1)]), &"a".to_owned()), None);
    assert!(kv_fits(&kv(&[("a", 1)]), &kv(&[("a", u64::MAX - 1)])));
    assert!(!kv_fits(&kv(&[("a", 2)]), &kv(&[("a", u64::MAX - 1)])));
    assert!(!kv_fits(&kv(&[("a", 1)]), &kv(&[("a", u64::MAX - 1), ("a", 1)])));
}

fn labels_of(e: &MetricEvent) -> Vec<(String, String)> {
    e.labels.iter().map(|l| (l.name.clone(), l.value.clone())).collect()
}

fn point(sec: i128, value: u64) -> Point {
    Point { timestamp: Timestamp::from_nanos(sec * 1_000_000_000), value }
}

fn series(name: &str, instance: &str, instance_type: &str) -> Vec<(String, String)> {
    vec![
        ("__name__".to_owned(), name.to_owned()),
        ("instance".to_owned(), instance.to_owned()),
        ("instance_type".to_owned(), instance_type.to_owned()),
        ("sql_digest".to_owned(), "DEAD".to_owned()),
        ("plan_digest".to_owned(), "BEEF".to_owned()),
        ("tag_label".to_owned(), "".to_owned()),
    ]
}

#[test]
fn tidb_parse_record() {
    let first = TopSqlRecordItem {
        timestamp_sec: 1661396787,
        cpu_time_ms: 80,
        stmt_exec_count: 0,
        stmt_kv_exec_count: kv(&[("kv-b", 2), ("kv-a", 0)]),
        stmt_duration_sum_ns: 7,
        stmt_duration_count: 1,
    };
    let second = TopSqlRecordItem {
        timestamp_sec: 1661396788,
        cpu_time_ms: 443,
        stmt_exec_count: 3,
        stmt_kv_exec_count: kv(&[("kv-a", 4), ("kv-b", 5)]),
        stmt_duration_sum_ns: 0,
        stmt_duration_count: 0,
    };
    let response = TopSqlSubResponse {
        resp_oneof: Some(RespOneof::Record(TopSqlRecord {
            sql_digest: vec![0xde, 0xad],
            plan_digest: vec![0xbe, 0xef],
            items: vec![first, second],
        })),
    };
    let events = TopSqlSubResponseParser::parse(response, "db:10080".to_owned(), Timestamp::from_nanos(5));
    assert_eq!(events.len(), 6);
    assert_eq!(labels_of(&events[0]), series("topsql_cpu_time_ms", "db:10080", "tidb"));
    assert_eq!(events[0].points, vec![point(1661396787, 80), point(1661396788, 443)]);
    assert_eq!(labels_of(&events[1]), series("topsql_stmt_exec_count", "db:10080", "tidb"));
    assert_eq!(events[1].points, vec![point(1661396788, 3)]);
    assert_eq!(labels_of(&events[2]), series("topsql_stmt_duration_sum_ns", "db:10080", "tidb"));
    assert_eq!(events[2].points, vec![point(1661396787, 7)]);
    assert_eq!(labels_of(&events[3]), series("topsql_stmt_duration_count", "db:10080", "tidb"));
    assert_eq!(events[3].points, vec![point(1661396787, 1)]);
    assert_eq!(labels_of(&events[4]), series("topsql_stmt_exec_count", "kv-b", "tikv"));
    assert_eq!(events[4].points, vec![point(1661396787, 2), point(1661396788, 5)]);
    assert_eq!(labels_of(&events[5]), series("topsql_stmt_exec_count", "kv-a", "tikv"));
    assert_eq!(events[5].points, vec![point(1661396788, 4)]);
}

#[test]
fn tidb_parse_meta() {
    let now = Timestamp::from_nanos(1_000_000_007);
    let sql_meta = TopSqlSubResponse {
        resp_oneof: Some(RespOneof::SqlMeta(SqlMeta {
            sql_digest: vec![0x0a, 0xff],
            normalized_sql: "select ?".to_owned(),
            is_internal_sql: true,
        })),
    };
    let events = TopSqlSubResponseParser::parse(sql_meta, "db".to_owned(), now);
    assert_eq!(events.len(), 1);
    assert_eq!(
        labels_of(&events[0]),
        vec![
            ("__name__".to_owned(), "topsql_sql_meta".to_owned()),
            ("sql_digest".to_owned(), "0AFF".to_owned()),
            ("normalized_sql".to_owned(), "select ?".to_owned()),
            ("is_internal_sql".to_owned(), "true".to_owned()),
        ]
    );
    assert_eq!(events[0].points, vec![Point { timestamp: now, value: 1 }]);
    let plan_meta = TopSqlSubResponse {
        resp_oneof: Some(RespOneof::PlanMeta(PlanMeta {
            plan_digest: vec![0x01],
            normalized_plan: "plan".to_owned(),
            encoded_normalized_plan: "encoded".to_owned(),
        })),
    };
    let events = TopSqlSubResponseParser::parse(plan_meta, "db".to_owned(), now);
    assert_eq!(
        labels_of(&events[0]),
        vec![
            ("__name__".to_owned(), "topsql_plan_meta".to_owned()),
            ("plan_digest".to_owned(), "01".to_owned()),
            ("normalized_plan".to_owned(), "plan".to_owned()),
            ("encoded_normalized_plan".to_owned(), "encoded".to_owned()),
        ]
    );
    assert_eq!(
        TopSqlSubResponseParser::parse(TopSqlSubResponse { resp_oneof: None }, "db".to_owned(), now),
        vec![]
    );
}

#[test]
fn tidb_item_default_and_clone() {
    let d = TopSqlRecordItem::default();
    assert_eq!(d.timestamp_sec, 0);
    assert_eq!(d.stmt_kv_exec_count, vec![]);
    let x = item(5, 6);
    assert_eq!(x.clone(), x);
}
