use vector_extensions::topsql::metric::{MetricEvent, Point};
use vector_extensions::topsql::selection::{select_top_n, RankKey};
use vector_extensions::topsql::tikv::parser::ResourceUsageRecordParser;
use vector_extensions::topsql::tikv::tag::ResourceGroupTag;
use vector_extensions::topsql::tikv::{
    GroupTagRecord, GroupTagRecordItem, RecordOneof, ResourceUsageRecord,
};
use vector_extensions::time::Timestamp;

fn item(ts: u64, cpu: u32, read: u32, write: u32) -> GroupTagRecordItem {
    GroupTagRecordItem { timestamp_sec: ts, cpu_time_ms: cpu, read_keys: read, write_keys: write }
}

fn record(sql: &[u8], items: Vec<GroupTagRecordItem>) -> ResourceUsageRecord {
    ResourceUsageRecord {
        record_oneof: Some(RecordOneof::Record(GroupTagRecord {
            resource_group_tag: ResourceUsageRecordParser::encode_tag(sql.to_vec(), vec![0xbe, 0xef], None),
            items,
        })),
    }
}

fn records_of(out: &Vec<ResourceUsageRecord>) -> Vec<&GroupTagRecord> {
    let mut records = Vec::new();
    for r in out {
        if let Some(RecordOneof::Record(record)) = &r.record_oneof {
            records.push(record);
        }
    }
    records
}

fn is_others(record: &GroupTagRecord) -> bool {
    match ResourceUsageRecordParser::decode_tag(&record.resource_group_tag) {
        Some((sql, _, _)) => sql.is_empty(),
        None => false,
    }
}

fn mock_records() -> Vec<ResourceUsageRecord> {
    // twelve statements over the seconds 1709654611..=1709654639, and the
    // "others" with one item for each of those seconds
    let mut records = Vec::new();
    for d in 0u32..12 {
        let mut items = Vec::new();
        for s in 0u64..29 {
            items.push(item(1709654611 + s, 10 * (d + 1) + (s as u32 % 3), d, 2 * d));
        }
        records.push(record(&[d as u8 + 1], items));
    }
    let mut others = Vec::new();
    for s in 0u64..29 {
        others.push(item(1709654611 + s, 1000, 5, 7));
    }
    records.push(record(&[], others));
    records
}

#[test]
fn tikv_parser_test_keep_top_n() {
    let records = mock_records();
    let mut total_cpu: u64 = 0;
    for r in records_of(&records) {
        for i in &r.items {
            total_cpu += i.cpu_time_ms as u64;
        }
    }
    assert!(ResourceUsageRecordParser::can_keep_top_n(&records));
    let top_n = ResourceUsageRecordParser::keep_top_n(records, 10);
    assert_eq!(top_n.len(), 11);
    let mut top_cpu_time = vec![];
    let mut others_cpu_time = 0;
    for response in top_n {
        if let Some(RecordOneof::Record(record)) = response.record_oneof {
            let cpu_time: u32 = record.items.iter().map(|i| i.cpu_time_ms).sum();
            match ResourceUsageRecordParser::decode_tag(&record.resource_group_tag) {
                None => others_cpu_time = cpu_time,
                Some((sql_digest, _, _)) => {
                    if sql_digest.is_empty() {
                        others_cpu_time = cpu_time;
                    } else {
                        top_cpu_time.push(cpu_time);
                    }
                }
            }
        }
    }
    top_cpu_time.sort_by(|a, b| b.cmp(a));
    // statement d has, over the 29 seconds, 29 * 10 * (d + 1) + 28
    let expected: Vec<u32> = (2u32..12).rev().map(|d| 290 * (d + 1) + 28).collect();
    assert_eq!(top_cpu_time, expected);
    // the two lowest statements went to the others
    assert_eq!(others_cpu_time, 29 * 1000 + (290 + 28) + (580 + 28));
    let kept: u64 = top_cpu_time.iter().map(|c| *c as u64).sum();
    assert_eq!(kept + others_cpu_time as u64, total_cpu);
}

#[test]
fn tikv_parser_test_downsampling() {
    let mut records = mock_records();
    let mut items = vec![];
    for record in &records {
        if let Some(RecordOneof::Record(record)) = &record.record_oneof {
            if is_others(record) {
                items = record.items.clone();
            }
        }
    }
    let mut timestamps: Vec<u64> = items.clone().into_iter().map(|i| i.timestamp_sec).collect();
    timestamps.sort();
    let expected: Vec<u64> = (1709654611u64..=1709654639).collect();
    assert_eq!(timestamps, expected);
    let mut sum_old = GroupTagRecordItem::default();
    for item in items {
        sum_old.cpu_time_ms += item.cpu_time_ms;
        sum_old.read_keys += item.read_keys;
        sum_old.write_keys += item.write_keys;
    }

    assert!(ResourceUsageRecordParser::can_downsample(&records, 15));
    ResourceUsageRecordParser::downsampling(&mut records, 15);

    let mut items = vec![];
    for record in &records {
        if let Some(RecordOneof::Record(record)) = &record.record_oneof {
            if is_others(record) {
                items = record.items.clone();
            }
        }
    }
    let timestamps: Vec<u64> = items.clone().into_iter().map(|i| i.timestamp_sec).collect();
    assert_eq!(
        timestamps,
        [
            1709654625, // 00:03:45
            1709654640, // 00:04:00
        ]
    );
    let mut sum_new = GroupTagRecordItem::default();
    for item in items {
        sum_new.cpu_time_ms += item.cpu_time_ms;
        sum_new.read_keys += item.read_keys;
        sum_new.write_keys += item.write_keys;
    }

    assert_eq!(sum_old.cpu_time_ms, sum_new.cpu_time_ms);
    assert_eq!(sum_old.read_keys, sum_new.read_keys);
    assert_eq!(sum_old.write_keys, sum_new.write_keys);
}

#[test]
fn tikv_downsampling_puts_multiples_into_the_next_interval() {
    let mut records = vec![record(&[1], vec![item(30, 1, 0, 0), item(29, 2, 0, 0), item(31, 4, 0, 0)])];
    ResourceUsageRecordParser::downsampling(&mut records, 15);
    let out = records_of(&records);
    assert_eq!(out[0].items, vec![item(30, 2, 0, 0), item(45, 5, 0, 0)]);
}

#[test]
fn tikv_downsampling_with_small_interval_changes_nothing() {
    let mut records = vec![record(&[1], vec![item(30, 1, 0, 0), item(29, 2, 0, 0)])];
    let copy = records.clone();
    ResourceUsageRecordParser::downsampling(&mut records, 1);
    assert_eq!(records, copy);
    ResourceUsageRecordParser::downsampling(&mut records, 0);
    assert_eq!(records, copy);
}

#[test]
fn tikv_keep_top_n_with_ties() {
    let input = vec![
        record(&[1], vec![item(100, 90, 1, 1)]),
        record(&[2], vec![item(100, 60, 1, 1)]),
        record(&[3], vec![item(100, 50, 1, 1)]),
        record(&[4], vec![item(100, 50, 1, 1)]),
        record(&[5], vec![item(100, 50, 1, 1)]),
        record(&[6], vec![item(100, 40, 1, 1)]),
    ];
    let out = ResourceUsageRecordParser::keep_top_n(input, 3);
    let records = records_of(&out);
    assert_eq!(records.len(), 4);
    let mut kept: Vec<u32> = Vec::new();
    let mut others = 0;
    for r in &records {
        assert_eq!(r.items.len(), 1);
        assert_eq!(r.items[0].timestamp_sec, 100);
        if is_others(r) {
            others = r.items[0].cpu_time_ms;
            assert_eq!(r.items[0].read_keys, 3);
            assert_eq!(r.items[0].write_keys, 3);
        } else {
            kept.push(r.items[0].cpu_time_ms);
        }
    }
    assert_eq!(kept, vec![90, 60, 50]);
    assert_eq!(others, 140);
    assert_eq!(kept.iter().sum::<u32>() + others, 340);
    // of the equal ones the first stays
    assert_eq!(
        records[2].resource_group_tag,
        ResourceUsageRecordParser::encode_tag(vec![3], vec![0xbe, 0xef], None)
    );
    // the others come last, under the tag of the empty digests
    assert_eq!(records[3].resource_group_tag, ResourceUsageRecordParser::encode_tag(vec![], vec![], None));
}

#[test]
fn tikv_keep_top_n_merges_into_existing_others_and_drops_unreadable() {
    let unreadable = ResourceUsageRecord {
        record_oneof: Some(RecordOneof::Record(GroupTagRecord {
            resource_group_tag: vec![0xff],
            items: vec![item(100, 1000, 0, 0)],
        })),
    };
    let empty = ResourceUsageRecord { record_oneof: None };
    let input = vec![
        record(&[], vec![item(101, 7, 0, 0), item(100, 5, 0, 0)]),
        record(&[1], vec![item(100, 9, 0, 0), item(101, 1, 0, 0)]),
        unreadable,
        record(&[2], vec![item(100, 3, 0, 0), item(101, 2, 0, 0)]),
        empty,
        record(&[1], vec![item(102, 4, 0, 0)]),
    ];
    let out = ResourceUsageRecordParser::keep_top_n(input, 1);
    assert_eq!(out.len(), 4);
    assert_eq!(out[0].record_oneof, None);
    let records = records_of(&out);
    assert_eq!(records.len(), 3);
    assert_eq!(records[0].resource_group_tag, ResourceUsageRecordParser::encode_tag(vec![1], vec![0xbe, 0xef], None));
    assert_eq!(records[0].items, vec![item(100, 9, 0, 0), item(102, 4, 0, 0)]);
    assert_eq!(records[1].items, vec![item(101, 2, 0, 0)]);
    assert!(is_others(records[2]));
    assert_eq!(records[2].items, vec![item(100, 8, 0, 0), item(101, 8, 0, 0)]);
}

#[test]
fn tikv_keep_top_n_of_zero_moves_everything_to_others() {
    let input = vec![record(&[1], vec![item(100, 9, 1, 2)]), record(&[2], vec![item(100, 3, 4, 5)])];
    let out = ResourceUsageRecordParser::keep_top_n(input, 0);
    let records = records_of(&out);
    assert_eq!(records.len(), 1);
    assert_eq!(records[0].items, vec![item(100, 12, 5, 7)]);
}

#[test]
fn tikv_keep_top_n_without_eviction_has_no_others() {
    let input = vec![record(&[1], vec![item(100, 9, 1, 2)]), record(&[2], vec![item(100, 3, 4, 5)])];
    let out = ResourceUsageRecordParser::keep_top_n(input.clone(), 2);
    assert_eq!(out, input);
}

#[test]
fn tikv_overflow_is_detected() {
    let input = vec![
        record(&[1], vec![item(100, u32::MAX, 0, 0)]),
        record(&[2], vec![item(100, 1, 0, 0)]),
    ];
    assert!(!ResourceUsageRecordParser::can_keep_top_n(&input));
    assert_eq!(ResourceUsageRecordParser::aggregate(input, 1, 0, &"kv:1".to_owned()), None);
    let fine = vec![
        record(&[1], vec![item(100, u32::MAX, 0, 0)]),
        record(&[2], vec![item(101, 1, 0, 0)]),
    ];
    assert!(ResourceUsageRecordParser::can_keep_top_n(&fine));
    // downsampling would sum the two
    assert!(!ResourceUsageRecordParser::can_downsample(
        &vec![record(&[1], vec![item(100, u32::MAX, 0, 0), item(101, 1, 0, 0)])],
        15
    ));
    assert!(ResourceUsageRecordParser::can_downsample(
        &vec![record(&[1], vec![item(100, u32::MAX, 0, 0), item(101, 1, 0, 0)])],
        1
    ));
    assert!(!ResourceUsageRecordParser::can_downsample(&vec![record(&[1], vec![item(u64::MAX - 3, 1, 0, 0)])], 15));
}

fn labels_of(e: &MetricEvent) -> Vec<(String, String)> {
    e.labels.iter().map(|l| (l.name.clone(), l.value.clone())).collect()
}

fn point(sec: i128, value: u64) -> Point {
    Point { timestamp: Timestamp::from_nanos(sec * 1_000_000_000), value }
}

#[test]
fn tikv_parse_record() {
    let tag = ResourceUsageRecordParser::encode_tag(vec![0xde, 0xad], vec![0xbe, 0xef], Some(1));
    let response = ResourceUsageRecord {
        record_oneof: Some(RecordOneof::Record(GroupTagRecord {
            resource_group_tag: tag,
            items: vec![item(10, 80, 0, 3), item(11, 0, 0, 4), item(12, 443, 0, 0)],
        })),
    };
    let events = ResourceUsageRecordParser::parse(response, "kv:20160".to_owned());
    assert_eq!(events.len(), 2);
    let expected_labels = |name: &str| -> Vec<(String, String)> {
        vec![
            ("__name__".to_owned(), name.to_owned()),
            ("instance".to_owned(), "kv:20160".to_owned()),
            ("instance_type".to_owned(), "tikv".to_owned()),
            ("sql_digest".to_owned(), "DEAD".to_owned()),
            ("plan_digest".to_owned(), "BEEF".to_owned()),
            ("tag_label".to_owned(), "row".to_owned()),
        ]
    };
    assert_eq!(labels_of(&events[0]), expected_labels("topsql_cpu_time_ms"));
    assert_eq!(events[0].points, vec![point(10, 80), point(12, 443)]);
    assert_eq!(labels_of(&events[1]), expected_labels("topsql_write_keys"));
    assert_eq!(events[1].points, vec![point(10, 3), point(11, 4)]);
}

#[test]
fn tikv_parse_of_unreadable_or_empty_message_gives_nothing() {
    let unreadable = ResourceUsageRecord {
        record_oneof: Some(RecordOneof::Record(GroupTagRecord {
            resource_group_tag: vec![0x0a],
            items: vec![item(10, 80, 0, 3)],
        })),
    };
    assert_eq!(ResourceUsageRecordParser::parse(unreadable, "kv".to_owned()), vec![]);
    assert_eq!(
        ResourceUsageRecordParser::parse(ResourceUsageRecord { record_oneof: None }, "kv".to_owned()),
        vec![]
    );
}

#[test]
fn tikv_aggregate_window() {
    let input = vec![
        record(&[1], vec![item(16, 9, 0, 0), item(17, 1, 0, 0)]),
        record(&[2], vec![item(16, 3, 0, 0), item(17, 2, 0, 0)]),
    ];
    let events = ResourceUsageRecordParser::aggregate(input, 1, 15, &"kv:1".to_owned()).unwrap();
    // statement 1 keeps second 16, statement 2 keeps second 17, the others get the rest;
    // all of them land in the interval that ends at 30
    assert_eq!(events.len(), 3);
    assert_eq!(events[0].points, vec![point(30, 9)]);
    assert_eq!(events[1].points, vec![point(30, 2)]);
    assert_eq!(events[2].points, vec![point(30, 4)]);
    assert_eq!(labels_of(&events[2])[3], ("sql_digest".to_owned(), "".to_owned()));
    assert_eq!(labels_of(&events[2])[5], ("tag_label".to_owned(), "unknown".to_owned()));
}

#[test]
fn decode_tag_labels() {
    let tag = ResourceUsageRecordParser::encode_tag(vec![0x01, 0xab], vec![], Some(2));
    assert_eq!(
        ResourceUsageRecordParser::decode_tag(&tag),
        Some(("01AB".to_owned(), "".to_owned(), "index".to_owned()))
    );
    let tag = ResourceUsageRecordParser::encode_tag(vec![0xff], vec![0x10], Some(7));
    assert_eq!(
        ResourceUsageRecordParser::decode_tag(&tag),
        Some(("FF".to_owned(), "10".to_owned(), "unknown".to_owned()))
    );
    let tag = ResourceUsageRecordParser::encode_tag(vec![0xff], vec![0x10], None);
    assert_eq!(
        ResourceUsageRecordParser::decode_tag(&tag),
        Some(("FF".to_owned(), "10".to_owned(), "unknown".to_owned()))
    );
    // a tag without a statement digest names nothing
    let no_sql = ResourceGroupTag { sql_digest: None, plan_digest: Some(vec![1]), label: Some(1) };
    assert_eq!(ResourceUsageRecordParser::decode_tag(&no_sql.encode()), None);
    assert_eq!(ResourceUsageRecordParser::decode_tag(&[]), None);
}

#[test]
fn others_tag_bytes() {
    assert_eq!(ResourceUsageRecordParser::encode_tag(vec![], vec![], None), vec![0x0a, 0x00, 0x12, 0x00]);
}

#[test]
fn select_top_n_ranks_within_each_second() {
    let keys = vec![
        RankKey { timestamp_sec: 1, cpu_time_ms: 5 },
        RankKey { timestamp_sec: 2, cpu_time_ms: 1 },
        RankKey { timestamp_sec: 1, cpu_time_ms: 7 },
        RankKey { timestamp_sec: 1, cpu_time_ms: 5 },
        RankKey { timestamp_sec: 2, cpu_time_ms: 9 },
        RankKey { timestamp_sec: 1, cpu_time_ms: 6 },
    ];
    assert_eq!(select_top_n(&keys, 0), vec![false; 6]);
    assert_eq!(select_top_n(&keys, 1), vec![false, false, true, false, true, false]);
    assert_eq!(select_top_n(&keys, 2), vec![false, true, true, false, true, true]);
    assert_eq!(select_top_n(&keys, 3), vec![true, true, true, false, true, true]);
    assert_eq!(select_top_n(&keys, 4), vec![true; 6]);
    assert_eq!(select_top_n(&keys, usize::MAX), vec![true; 6]);
    assert_eq!(select_top_n(&vec![], 3), Vec::<bool>::new());
}
