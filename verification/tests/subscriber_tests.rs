use vector_extensions::time::{Span, Timestamp};
use vector_extensions::topsql::backoff::{Backoff, RetryState, MAX_RETRY_DELAY_NANOS};
use vector_extensions::topsql::controller::{Component, Controller, InstanceType};
use vector_extensions::topsql::subscriber::{
    instance_event, instance_type_name, StreamAction, StreamEvent, Window,
};

const SEC: u128 = 1_000_000_000;

#[test]
fn backoff_doubles_up_to_a_minute() {
    let mut b = Backoff::new(Span::from_secs(1));
    let delays: Vec<u128> = (0..9).map(|_| b.on_failure().nanos / SEC).collect();
    assert_eq!(delays, vec![1, 2, 4, 8, 16, 32, 60, 60, 60]);
}

#[test]
fn backoff_starts_over_after_success() {
    let mut b = Backoff::new(Span::from_nanos(500_000_000));
    assert_eq!(b.on_failure().nanos, 500_000_000);
    assert_eq!(b.on_failure().nanos, 1_000_000_000);
    assert_eq!(b.on_failure().nanos, 2_000_000_000);
    b.on_connected();
    assert_eq!(b.on_failure().nanos, 500_000_000);
    assert_eq!(b.on_failure().nanos, 1_000_000_000);
}

#[test]
fn backoff_is_capped_from_the_start() {
    let mut b = Backoff::new(Span::from_secs(100));
    assert_eq!(b.on_failure().nanos, MAX_RETRY_DELAY_NANOS);
    assert_eq!(b.on_failure().nanos, MAX_RETRY_DELAY_NANOS);
    let mut c = Backoff::new(Span::from_secs(45));
    assert_eq!(c.on_failure().nanos, 45 * SEC);
    assert_eq!(c.on_failure().nanos, 60 * SEC);
    let mut z = Backoff::new(Span::from_secs(0));
    assert_eq!(z.on_failure().nanos, 0);
    assert_eq!(z.on_failure().nanos, 0);
    let mut huge = Backoff::new(Span::from_nanos(u128::MAX));
    assert_eq!(huge.on_failure().nanos, MAX_RETRY_DELAY_NANOS);
}

#[test]
fn ended_stream_is_retried_at_once() {
    let mut b = Backoff::new(Span::from_secs(1));
    assert_eq!(b.next_attempt(RetryState::RetryNow), None);
    assert_eq!(b.next_attempt(RetryState::RetryDelay), Some(Span::from_secs(1)));
    assert_eq!(b.next_attempt(RetryState::RetryNow), None);
    assert_eq!(b.next_attempt(RetryState::RetryDelay), Some(Span::from_secs(2)));
}

fn ts(secs: i128) -> Timestamp {
    Timestamp::from_nanos(secs * 1_000_000_000)
}

#[test]
fn window_flushes_after_ten_quiet_seconds() {
    let mut w: Window<u32> = Window::new();
    assert!(matches!(w.on_event(StreamEvent::Tick, ts(100)), StreamAction::Wait));
    assert!(matches!(w.on_event(StreamEvent::Received(1), ts(100)), StreamAction::Wait));
    assert!(matches!(w.on_event(StreamEvent::Received(2), ts(103)), StreamAction::Wait));
    assert!(matches!(w.on_event(StreamEvent::Tick, ts(104)), StreamAction::Wait));
    assert!(matches!(w.on_event(StreamEvent::Tick, ts(113)), StreamAction::Wait));
    match w.on_event(StreamEvent::Tick, Timestamp::from_nanos(113_000_000_001)) {
        StreamAction::Flush(messages) => assert_eq!(messages, vec![1, 2]),
        _ => panic!("a flush was expected"),
    }
    // the window is empty now
    assert!(matches!(w.on_event(StreamEvent::Tick, ts(200)), StreamAction::Wait));
    assert!(matches!(w.on_event(StreamEvent::Received(3), ts(201)), StreamAction::Wait));
    match w.on_event(StreamEvent::Tick, ts(212)) {
        StreamAction::Flush(messages) => assert_eq!(messages, vec![3]),
        _ => panic!("a flush was expected"),
    }
}

#[test]
fn window_reports_stream_end_and_failure() {
    let mut w: Window<u32> = Window::new();
    w.on_event(StreamEvent::Received(1), ts(100));
    assert!(matches!(
        w.on_event(StreamEvent::Failed, ts(101)),
        StreamAction::Reconnect(RetryState::RetryDelay)
    ));
    assert!(matches!(
        w.on_event(StreamEvent::Ended, ts(101)),
        StreamAction::Reconnect(RetryState::RetryNow)
    ));
    assert!(matches!(w.on_event(StreamEvent::InstanceTick, ts(101)), StreamAction::EmitInstance));
    // the message is still there
    match w.on_event(StreamEvent::Tick, ts(111)) {
        StreamAction::Flush(messages) => assert_eq!(messages, vec![1]),
        _ => panic!("a flush was expected"),
    }
}

#[test]
fn instance_event_labels() {
    let e = instance_event("db:10080", instance_type_name(InstanceType::TiDB), ts(7));
    let labels: Vec<(String, String)> = e.labels.iter().map(|l| (l.name.clone(), l.value.clone())).collect();
    assert_eq!(
        labels,
        vec![
            ("__name__".to_owned(), "topsql_instance".to_owned()),
            ("instance".to_owned(), "db:10080".to_owned()),
            ("instance_type".to_owned(), "tidb".to_owned()),
        ]
    );
    assert_eq!(e.points.len(), 1);
    assert_eq!(e.points[0].timestamp, ts(7));
    assert_eq!(e.points[0].value, 1);
    assert_eq!(instance_type_name(InstanceType::TiKV), "tikv");
    assert_eq!(instance_type_name(InstanceType::TiFlash), "tiflash");
    assert_eq!(instance_type_name(InstanceType::PD), "pd");
}

fn component(t: InstanceType, host: &str) -> Component {
    Component { instance_type: t, host: host.to_owned(), primary_port: 4000, secondary_port: 10080 }
}

#[test]
fn topsql_address_of_components() {
    assert_eq!(component(InstanceType::TiDB, "db").topsql_address(), Some("db:10080".to_owned()));
    assert_eq!(component(InstanceType::TiKV, "kv").topsql_address(), Some("kv:4000".to_owned()));
    assert_eq!(component(InstanceType::PD, "pd").topsql_address(), None);
    assert_eq!(component(InstanceType::TiFlash, "flash").topsql_address(), None);
}

#[test]
fn controller_follows_topology() {
    let mut c = Controller::new();
    let db = component(InstanceType::TiDB, "db");
    let kv1 = component(InstanceType::TiKV, "kv1");
    let kv2 = component(InstanceType::TiKV, "kv2");
    let pd = component(InstanceType::PD, "pd");

    let change = c.fetch_and_update(&vec![db.clone(), pd.clone(), kv1.clone(), db.clone()]);
    assert!(change.has_change);
    assert_eq!(change.started, vec![db.clone(), kv1.clone()]);
    assert_eq!(change.stopped, vec![]);

    // the same topology again: nothing to do, the PD is still no subscriber
    let change = c.fetch_and_update(&vec![kv1.clone(), db.clone(), pd.clone()]);
    assert!(!change.has_change);
    assert_eq!(change.started, vec![]);
    assert_eq!(change.stopped, vec![]);

    let change = c.fetch_and_update(&vec![db.clone(), kv2.clone()]);
    assert!(change.has_change);
    assert_eq!(change.started, vec![kv2.clone()]);
    assert_eq!(change.stopped, vec![kv1.clone()]);

    let change = c.fetch_and_update(&vec![]);
    assert_eq!(change.started, vec![]);
    assert_eq!(change.stopped.len(), 2);
    assert!(change.stopped.contains(&db));
    assert!(change.stopped.contains(&kv2));

    // a component that comes back is started again
    let change = c.fetch_and_update(&vec![kv1.clone()]);
    assert_eq!(change.started, vec![kv1]);
}

#[test]
fn controller_start_and_stop() {
    let mut c = Controller::new();
    let db = component(InstanceType::TiDB, "db");
    let pd = component(InstanceType::PD, "pd");
    assert_eq!(c.start_component(&db), Some("db:10080".to_owned()));
    assert_eq!(c.start_component(&pd), None);
    assert!(c.stop_component(&db));
    assert!(!c.stop_component(&db));
    assert!(!c.stop_component(&pd));
}
