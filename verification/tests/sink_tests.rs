use vector_extensions::checkpointer::{Checkpointer, UploadEvent, UploadKey};
use vector_extensions::sink::{EventStatus, Intake, KeySet, UploadEnd, UploadResponse, UploadSink};
use vector_extensions::time::{Span, Timestamp};

fn ts(secs: i128) -> Timestamp {
    Timestamp::from_nanos(secs * 1_000_000_000)
}

fn event() -> UploadEvent {
    UploadEvent { message: Some("/tmp/a.txt".to_owned()), key: Some("folder/a".to_owned()) }
}

fn sink() -> UploadSink {
    UploadSink::new("b".to_owned(), Span::from_secs(1800), Checkpointer::new())
}

fn key_of(sink: &UploadSink) -> UploadKey {
    sink.upload_key(&event()).unwrap()
}

#[test]
fn small_file_upload_is_delivered_and_recorded() {
    let mut s = sink();
    let key = key_of(&s);
    assert_eq!(key.bucket, "b");
    let action = s.intake(Some(key.clone()), Some(ts(10)));
    assert_eq!(action, Intake::Enqueue(key.clone()));
    s.fire(&key);
    let end = s.finish(key.clone(), ts(20), Some(UploadResponse { count: 1, events_byte_size: 5 }));
    assert_eq!(
        end,
        UploadEnd {
            status: EventStatus::Delivered,
            sent: Some(UploadResponse { count: 1, events_byte_size: 5 }),
            log_upload: true,
        }
    );
    let plan = s.write_checkpoints(ts(21));
    assert_eq!(plan.count, 1);
    assert!(plan.state.is_some());
}

#[test]
fn duplicate_event_is_suppressed_while_pending() {
    let mut s = sink();
    let key = key_of(&s);
    assert_eq!(s.intake(Some(key.clone()), Some(ts(10))), Intake::Enqueue(key.clone()));
    assert_eq!(s.intake(Some(key.clone()), Some(ts(10))), Intake::Deliver);
    assert_eq!(s.intake(Some(key.clone()), Some(ts(11))), Intake::Deliver);
}

#[test]
fn same_event_after_upload_is_not_uploaded_again() {
    let mut s = sink();
    let key = key_of(&s);
    assert_eq!(s.intake(Some(key.clone()), Some(ts(10))), Intake::Enqueue(key.clone()));
    s.fire(&key);
    s.finish(key.clone(), ts(20), Some(UploadResponse { count: 1, events_byte_size: 5 }));
    s.write_checkpoints(ts(21));
    assert_eq!(s.intake(Some(key.clone()), Some(ts(10))), Intake::Deliver);
    assert_eq!(s.intake(Some(key.clone()), Some(ts(20))), Intake::Deliver);
}

#[test]
fn file_modified_after_upload_is_uploaded_again() {
    let mut s = sink();
    let key = key_of(&s);
    s.intake(Some(key.clone()), Some(ts(10)));
    s.fire(&key);
    s.finish(key.clone(), ts(20), Some(UploadResponse { count: 1, events_byte_size: 5 }));
    assert_eq!(s.intake(Some(key.clone()), Some(ts(21))), Intake::Enqueue(key.clone()));
}

#[test]
fn expired_record_allows_upload_again() {
    let mut s = sink();
    let key = key_of(&s);
    s.intake(Some(key.clone()), Some(ts(10)));
    s.fire(&key);
    s.finish(key.clone(), ts(20), Some(UploadResponse { count: 1, events_byte_size: 5 }));
    let plan = s.write_checkpoints(ts(20 + 1801));
    assert_eq!(plan.count, 0);
    assert_eq!(s.intake(Some(key.clone()), Some(ts(10))), Intake::Enqueue(key.clone()));
}

#[test]
fn failed_upload_is_rejected_and_not_recorded() {
    let mut s = sink();
    let key = key_of(&s);
    s.intake(Some(key.clone()), Some(ts(10)));
    s.fire(&key);
    let end = s.finish(key.clone(), ts(20), None);
    assert_eq!(end, UploadEnd { status: EventStatus::Rejected, sent: None, log_upload: false });
    let plan = s.write_checkpoints(ts(21));
    assert_eq!(plan.count, 0);
    assert_eq!(plan.state, None);
    assert_eq!(s.intake(Some(key.clone()), Some(ts(10))), Intake::Enqueue(key.clone()));
}

#[test]
fn skipped_upload_is_delivered_without_log() {
    let mut s = sink();
    let key = key_of(&s);
    s.intake(Some(key.clone()), Some(ts(10)));
    s.fire(&key);
    let end = s.finish(key.clone(), ts(20), Some(UploadResponse { count: 0, events_byte_size: 0 }));
    assert_eq!(end.status, EventStatus::Delivered);
    assert!(!end.log_upload);
    assert_eq!(end.sent, Some(UploadResponse { count: 0, events_byte_size: 0 }));
    assert_eq!(s.intake(Some(key.clone()), Some(ts(10))), Intake::Deliver);
}

#[test]
fn event_without_key_or_file_is_rejected() {
    let mut s = sink();
    let key = key_of(&s);
    assert_eq!(s.intake(None, Some(ts(10))), Intake::Reject);
    assert_eq!(s.intake(Some(key.clone()), None), Intake::Reject);
    assert_eq!(s.intake(None, None), Intake::Reject);
    let missing = UploadEvent { message: None, key: Some("k".to_owned()) };
    assert_eq!(s.upload_key(&missing), None);
    // nothing was enqueued by the rejected events
    assert_eq!(s.intake(Some(key.clone()), Some(ts(10))), Intake::Enqueue(key));
}

#[test]
fn written_state_is_not_offered_again() {
    let mut s = sink();
    let key = key_of(&s);
    s.intake(Some(key.clone()), Some(ts(10)));
    s.fire(&key);
    s.finish(key, ts(20), Some(UploadResponse { count: 1, events_byte_size: 5 }));
    let plan = s.write_checkpoints(ts(21));
    s.written(plan.state.unwrap());
    assert_eq!(s.write_checkpoints(ts(22)).state, None);
}

#[test]
fn key_set_operations() {
    let mut set = KeySet::new();
    let a = UploadKey { filename: "a".to_owned(), bucket: "b".to_owned(), object_key: "k".to_owned() };
    let b = UploadKey { filename: "b".to_owned(), bucket: "b".to_owned(), object_key: "k".to_owned() };
    assert!(!set.contains(&a));
    set.insert(a.clone());
    set.insert(a.clone());
    set.insert(b.clone());
    assert!(set.contains(&a));
    assert!(set.contains(&b));
    assert_eq!(set.as_vec().len(), 3);
    set.remove(&a);
    assert!(!set.contains(&a));
    assert!(set.contains(&b));
    set.remove(&a);
    assert!(set.contains(&b));
}
