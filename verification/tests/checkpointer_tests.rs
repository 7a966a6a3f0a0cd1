use vector_extensions::checkpointer::{
    same_records, stable_file_name, tmp_file_name, CheckPointsView, Checkpoint, Checkpointer,
    FileRead, State, UploadEvent, UploadKey,
};
use vector_extensions::time::{Span, Timestamp};

fn key(name: &str) -> UploadKey {
    UploadKey {
        filename: format!("/tmp/{}", name),
        bucket: "b".to_owned(),
        object_key: format!("folder/{}", name),
    }
}

fn ts(secs: i128) -> Timestamp {
    Timestamp::from_nanos(secs * 1_000_000_000)
}

fn state_of(plan: Option<State>) -> State {
    match plan {
        Some(state) => state,
        None => panic!("a write was expected"),
    }
}

#[test]
fn upload_key_from_event() {
    let event = UploadEvent { message: Some("/tmp/a.txt".to_owned()), key: Some("folder/a".to_owned()) };
    let k = UploadKey::from_event(&event, "b").unwrap();
    assert_eq!(k.filename, "/tmp/a.txt");
    assert_eq!(k.bucket, "b");
    assert_eq!(k.object_key, "folder/a");
}

#[test]
fn upload_key_needs_both_fields() {
    let no_key = UploadEvent { message: Some("/tmp/a.txt".to_owned()), key: None };
    let no_message = UploadEvent { message: None, key: Some("folder/a".to_owned()) };
    let neither = UploadEvent { message: None, key: None };
    assert_eq!(UploadKey::from_event(&no_key, "b"), None);
    assert_eq!(UploadKey::from_event(&no_message, "b"), None);
    assert_eq!(UploadKey::from_event(&neither, "b"), None);
}

#[test]
fn upload_keys_are_compared_by_all_fields() {
    assert!(key("a").same(&key("a")));
    assert!(!key("a").same(&key("b")));
    let mut other_bucket = key("a");
    other_bucket.bucket = "c".to_owned();
    assert!(!key("a").same(&other_bucket));
}

#[test]
fn file_names() {
    assert_eq!(tmp_file_name(), "checkpoints.new.json");
    assert_eq!(stable_file_name(), "checkpoints.json");
}

#[test]
fn new_checkpointer_contains_nothing() {
    let c = Checkpointer::new();
    assert!(!c.contains(&key("a"), ts(0)));
}

#[test]
fn contains_compares_with_upload_time() {
    let mut c = Checkpointer::new();
    c.update(key("a"), ts(100), Span::from_secs(1800));
    assert!(c.contains(&key("a"), ts(99)));
    assert!(c.contains(&key("a"), ts(100)));
    assert!(!c.contains(&key("a"), ts(101)));
    assert!(!c.contains(&key("b"), ts(0)));
}

#[test]
fn last_update_wins() {
    let mut c = Checkpointer::new();
    c.update(key("a"), ts(100), Span::from_secs(1800));
    c.update(key("a"), ts(50), Span::from_secs(1800));
    assert!(c.contains(&key("a"), ts(50)));
    assert!(!c.contains(&key("a"), ts(51)));
}

#[test]
fn write_prunes_expired_entries() {
    let mut c = Checkpointer::new();
    c.update(key("a"), ts(100), Span::from_secs(10));
    c.update(key("b"), ts(100), Span::from_secs(1000));
    let plan = c.write_checkpoints(ts(111));
    assert_eq!(plan.count, 1);
    assert!(!c.contains(&key("a"), ts(0)));
    assert!(c.contains(&key("b"), ts(100)));
    match state_of(plan.state) {
        State::V1 { checkpoints } => {
            assert_eq!(checkpoints.len(), 1);
            assert_eq!(checkpoints[0].upload_key, key("b"));
            assert_eq!(checkpoints[0].upload_at, ts(100));
            assert_eq!(checkpoints[0].expire_at, ts(1100));
        }
    }
}

#[test]
fn entry_that_expires_now_is_kept() {
    let mut c = Checkpointer::new();
    c.update(key("a"), ts(100), Span::from_secs(10));
    let plan = c.write_checkpoints(ts(110));
    assert_eq!(plan.count, 1);
    let plan = c.write_checkpoints(Timestamp::from_nanos(110_000_000_001));
    assert_eq!(plan.count, 0);
}

#[test]
fn unchanged_state_is_not_written_again() {
    let mut c = Checkpointer::new();
    c.update(key("a"), ts(100), Span::from_secs(1800));
    let plan = c.write_checkpoints(ts(101));
    let state = state_of(plan.state);
    c.written(state);
    let again = c.write_checkpoints(ts(102));
    assert_eq!(again.count, 1);
    assert_eq!(again.state, None);
    // a failed write is offered again
    c.update(key("b"), ts(103), Span::from_secs(1800));
    let failed = c.write_checkpoints(ts(104));
    assert!(failed.state.is_some());
    let retry = c.write_checkpoints(ts(105));
    assert!(retry.state.is_some());
    assert_eq!(retry.count, 2);
}

#[test]
fn empty_checkpointer_writes_nothing() {
    let mut c = Checkpointer::new();
    let plan = c.write_checkpoints(ts(0));
    assert_eq!(plan.count, 0);
    assert_eq!(plan.state, None);
}

#[test]
fn checkpoint_round_trip() {
    let mut c = Checkpointer::new();
    c.update(key("a"), ts(100), Span::from_secs(1800));
    c.update(key("b"), ts(200), Span::from_secs(1800));
    c.update(key("old"), ts(10), Span::from_secs(5));
    c.update(key("a"), ts(300), Span::from_secs(1800));
    let state = state_of(c.write_checkpoints(ts(400)).state);

    let mut fresh = Checkpointer::new();
    let promote = fresh.read_checkpoints(FileRead::NotFound, FileRead::Loaded(state));
    assert!(!promote);
    assert!(fresh.contains(&key("a"), ts(300)));
    assert!(fresh.contains(&key("a"), ts(0)));
    assert!(!fresh.contains(&key("a"), ts(301)));
    assert!(fresh.contains(&key("b"), ts(200)));
    assert!(!fresh.contains(&key("b"), ts(201)));
    assert!(!fresh.contains(&key("old"), ts(0)));
    // what was read is what is on disk: nothing to write
    let plan = fresh.write_checkpoints(ts(400));
    assert_eq!(plan.count, 2);
    assert_eq!(plan.state, None);
}

#[test]
fn tmp_file_is_preferred_and_promoted() {
    let tmp = State::V1 {
        checkpoints: vec![Checkpoint { upload_key: key("new"), upload_at: ts(5), expire_at: ts(500) }],
    };
    let stable = State::V1 {
        checkpoints: vec![Checkpoint { upload_key: key("old"), upload_at: ts(1), expire_at: ts(500) }],
    };
    let mut c = Checkpointer::new();
    let promote = c.read_checkpoints(FileRead::Loaded(tmp), FileRead::Loaded(stable));
    assert!(promote);
    assert!(c.contains(&key("new"), ts(5)));
    assert!(!c.contains(&key("old"), ts(0)));
}

#[test]
fn unreadable_files_leave_state_empty() {
    let mut c = Checkpointer::new();
    assert!(!c.read_checkpoints(FileRead::Failed, FileRead::Failed));
    assert!(!c.contains(&key("a"), ts(0)));
    assert!(!c.read_checkpoints(FileRead::NotFound, FileRead::NotFound));
    assert!(!c.read_tmp_checkpoints(FileRead::Failed));
    assert!(!c.read_stable_checkpoints(FileRead::NotFound));
    let stable = State::V1 {
        checkpoints: vec![Checkpoint { upload_key: key("a"), upload_at: ts(1), expire_at: ts(500) }],
    };
    assert!(!c.read_checkpoints(FileRead::Failed, FileRead::Loaded(stable)));
    assert!(c.contains(&key("a"), ts(1)));
}

#[test]
fn later_entry_of_a_file_wins() {
    let state = State::V1 {
        checkpoints: vec![
            Checkpoint { upload_key: key("a"), upload_at: ts(1), expire_at: ts(500) },
            Checkpoint { upload_key: key("a"), upload_at: ts(9), expire_at: ts(500) },
        ],
    };
    let mut c = Checkpointer::new();
    c.read_checkpoints(FileRead::NotFound, FileRead::Loaded(state));
    assert!(c.contains(&key("a"), ts(9)));
}

#[test]
fn checkpoints_view_operations() {
    let mut v = CheckPointsView::new();
    assert_eq!(v.len(), 0);
    v.update(key("a"), ts(1), ts(10));
    v.update(key("b"), ts(2), ts(20));
    v.update(key("a"), ts(3), ts(30));
    assert_eq!(v.len(), 2);
    assert!(v.contains(&key("a"), ts(3)));
    assert!(!v.contains(&key("a"), ts(4)));
    v.remove_expired(ts(21));
    assert_eq!(v.len(), 1);
    assert!(v.contains(&key("a"), ts(3)));
    let state = v.get_state();
    let mut w = CheckPointsView::new();
    w.set_state(&state);
    assert_eq!(w.len(), 1);
    assert!(same_records(&state, &w.get_state()));
}

#[test]
fn same_records_ignores_order() {
    let a = State::V1 {
        checkpoints: vec![
            Checkpoint { upload_key: key("a"), upload_at: ts(1), expire_at: ts(500) },
            Checkpoint { upload_key: key("b"), upload_at: ts(2), expire_at: ts(500) },
        ],
    };
    let b = State::V1 {
        checkpoints: vec![
            Checkpoint { upload_key: key("b"), upload_at: ts(2), expire_at: ts(500) },
            Checkpoint { upload_key: key("a"), upload_at: ts(1), expire_at: ts(500) },
        ],
    };
    let c = State::V1 {
        checkpoints: vec![Checkpoint { upload_key: key("a"), upload_at: ts(1), expire_at: ts(500) }],
    };
    assert!(same_records(&a, &b));
    assert!(!same_records(&a, &c));
    assert!(!same_records(&c, &a));
}

#[test]
fn timestamps_and_spans() {
    assert_eq!(Span::from_secs(2).nanos, 2_000_000_000);
    assert_eq!(Span::from_nanos(5).nanos, 5);
    assert_eq!(ts(1).plus(Span::from_secs(2)), ts(3));
    assert_eq!(ts(-5).plus(Span::from_secs(2)), ts(-3));
    assert_eq!(Timestamp::from_nanos(i128::MAX).checked_add(Span::from_nanos(1)), None);
    assert_eq!(
        Timestamp::from_nanos(i128::MAX - 1).checked_add(Span::from_nanos(1)),
        Some(Timestamp::from_nanos(i128::MAX))
    );
    assert_eq!(
        Timestamp::from_nanos(i128::MIN).checked_add(Span::from_nanos(u128::MAX)),
        Some(Timestamp::from_nanos(i128::MAX))
    );
    assert_eq!(
        Timestamp::from_nanos(-1).checked_add(Span::from_nanos(i128::MAX as u128 + 1)),
        Some(Timestamp::from_nanos(i128::MAX))
    );
    assert_eq!(Timestamp::from_nanos(0).checked_add(Span::from_nanos(i128::MAX as u128 + 1)), None);
    assert!(ts(1).before(&ts(2)));
    assert!(!ts(2).before(&ts(2)));
    assert!(ts(2).at_or_before(&ts(2)));
    assert!(!ts(3).at_or_before(&ts(2)));
}
