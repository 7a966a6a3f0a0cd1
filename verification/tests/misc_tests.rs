use vector_extensions::config::{
    default_delay_upload_secs, default_downsampling_interval, default_enable_tikv_heap_profile,
    default_expire_after_secs, default_init_retry_delay, default_top_n,
    default_topology_fetch_interval, PartitionKey, VMImportDefaultBatchSettings,
};
use vector_extensions::schema_cache::{
    table_details, DBInfo, DBName, PartitionDefinition, PartitionInfo, SchemaCache, TableDetail,
    TableInfo,
};
use vector_extensions::text::{check_header_text, copy_range, find_bytes, parse_number, same_bytes};

#[test]
fn defaults() {
    assert_eq!(default_delay_upload_secs(), 10);
    assert_eq!(default_expire_after_secs(), 1800);
    assert_eq!(default_top_n(), 0);
    assert_eq!(default_downsampling_interval(), 0);
    assert!(!default_enable_tikv_heap_profile());
    assert_eq!(default_init_retry_delay().nanos, 1_000_000_000);
    assert_eq!(default_topology_fetch_interval().nanos, 30_000_000_000);
    assert_eq!(VMImportDefaultBatchSettings::max_events(), Some(1000));
    assert_eq!(VMImportDefaultBatchSettings::max_bytes(), None);
    assert_eq!(VMImportDefaultBatchSettings::timeout_millis(), 1000);
}

#[test]
fn partition_key() {
    let key = PartitionKey::new("http://localhost:8080/metrics/10086".to_owned());
    assert_eq!(key.endpoint, "http://localhost:8080/metrics/10086");
    assert_eq!(key.clone(), key);
}

#[test]
fn find_bytes_finds_first_occurrence() {
    assert_eq!(find_bytes(b"abcabc", b"bc"), Some(1));
    assert_eq!(find_bytes(b"abcabc", b"abc"), Some(0));
    assert_eq!(find_bytes(b"abcabc", b"cab"), Some(2));
    assert_eq!(find_bytes(b"abcabc", b""), Some(0));
    assert_eq!(find_bytes(b"", b""), Some(0));
    assert_eq!(find_bytes(b"abc", b"abcd"), None);
    assert_eq!(find_bytes(b"abc", b"d"), None);
    assert_eq!(find_bytes(b"aab", b"ab"), Some(1));
}

#[test]
fn parse_number_reads_decimal_digits() {
    assert_eq!(parse_number(b"0"), Some(0));
    assert_eq!(parse_number(b"007"), Some(7));
    assert_eq!(parse_number(b"+42"), Some(42));
    assert_eq!(parse_number(b"8388607"), Some(8388607));
    assert_eq!(parse_number(usize::MAX.to_string().as_bytes()), Some(usize::MAX));
    assert_eq!(parse_number(b"18446744073709551616"), "18446744073709551616".parse::<usize>().ok());
    assert_eq!(parse_number(b"99999999999999999999999"), None);
    assert_eq!(parse_number(b""), None);
    assert_eq!(parse_number(b"+"), None);
    assert_eq!(parse_number(b"-1"), None);
    assert_eq!(parse_number(b"++1"), None);
    assert_eq!(parse_number(b"1 "), None);
    assert_eq!(parse_number(b"1a"), None);
}

#[test]
fn header_text_is_visible_ascii() {
    assert!(check_header_text(b"bytes=0-1\t"));
    assert!(check_header_text(b""));
    assert!(!check_header_text(b"a\n"));
    assert!(!check_header_text(&[0x7f]));
    assert!(!check_header_text(&[0x80]));
}

#[test]
fn bytes_helpers() {
    assert!(same_bytes(b"abc", b"abc"));
    assert!(!same_bytes(b"abc", b"abd"));
    assert!(!same_bytes(b"abc", b"ab"));
    assert!(same_bytes(b"", b""));
    assert_eq!(copy_range(b"abcdef", 2, 4), b"cd".to_vec());
    assert_eq!(copy_range(b"abcdef", 6, 6), Vec::<u8>::new());
}

fn name(s: &str) -> DBName {
    DBName { o: s.to_owned() }
}

#[test]
fn schema_cache_details() {
    let table = TableInfo {
        id: 7,
        name: name("orders"),
        indices: vec![],
        partition: Some(PartitionInfo {
            definitions: vec![
                PartitionDefinition { id: 8, name: name("north") },
                PartitionDefinition { id: 9, name: name("south") },
            ],
        }),
    };
    let details = table_details(&"shop".to_owned(), &table);
    assert_eq!(
        details,
        vec![
            TableDetail { name: "orders".to_owned(), db: "shop".to_owned(), id: 7 },
            TableDetail { name: "orders/north".to_owned(), db: "shop".to_owned(), id: 8 },
            TableDetail { name: "orders/south".to_owned(), db: "shop".to_owned(), id: 9 },
        ]
    );
    let plain = TableInfo { id: 1, name: name("t"), indices: vec![], partition: None };
    assert_eq!(table_details(&"d".to_owned(), &plain).len(), 1);

    let mut cache = SchemaCache::new();
    assert_eq!(cache.schema_version(), -1);
    assert_eq!(cache.get(7), None);
    let mut fresh = SchemaCache::new();
    for d in details {
        fresh.insert(d);
    }
    cache.replace(fresh, 42);
    assert_eq!(cache.schema_version(), 42);
    assert_eq!(cache.get(8), Some(TableDetail { name: "orders/north".to_owned(), db: "shop".to_owned(), id: 8 }));
    assert_eq!(cache.get(10), None);
}

#[test]
fn schema_cache_tables_of_a_database() {
    let db = DBInfo { id: 1, db_name: name("shop"), state: 5 };
    let none = DBInfo { id: 2, db_name: name("gone"), state: 0 };
    assert!(SchemaCache::wants(&db));
    assert!(!SchemaCache::wants(&none));
    let tables = vec![
        TableInfo { id: 7, name: name("orders"), indices: vec![], partition: None },
        TableInfo {
            id: 8,
            name: name("items"),
            indices: vec![],
            partition: Some(PartitionInfo {
                definitions: vec![PartitionDefinition { id: 7, name: name("first") }],
            }),
        },
    ];
    let mut cache = SchemaCache::new();
    cache.add_tables(&db, &tables);
    assert_eq!(cache.get(8), Some(TableDetail { name: "items".to_owned(), db: "shop".to_owned(), id: 8 }));
    // the partition came later than the table of the same identifier
    assert_eq!(cache.get(7), Some(TableDetail { name: "items/first".to_owned(), db: "shop".to_owned(), id: 7 }));
    assert_eq!(cache.get(9), None);
    assert_eq!(cache.schema_version(), -1);
}
