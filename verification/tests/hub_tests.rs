use presence_hub::event::StatusEvent;
use presence_hub::hub::{Hub, HubError, RecvOutcome};

fn ev(user_id: &str, status: &str) -> StatusEvent {
    StatusEvent::new(user_id.to_string(), status.to_string()).expect("non-empty strings")
}

fn expect_event(out: RecvOutcome) -> StatusEvent {
    match out {
        RecvOutcome::Event(e) => e,
        other => panic!("expected an event, got {:?}", other),
    }
}

#[test]
fn early_subscriber_sees_all_in_order() {
    let mut hub = Hub::new(10);
    let h = hub.subscribe().expect("open hub");
    for i in 0..5u32 {
        let delivered = hub.publish(ev("alice", &format!("status-{}", i))).expect("open hub");
        assert_eq!(delivered, 1);
    }
    for i in 0..5u32 {
        let e = expect_event(hub.recv(&h));
        assert_eq!(e.user_id(), "alice");
        assert_eq!(e.status(), &format!("status-{}", i));
    }
    assert!(matches!(hub.recv(&h), RecvOutcome::Pending));
}

#[test]
fn late_subscriber_misses_earlier_events() {
    let mut hub = Hub::new(10);
    hub.publish(ev("alice", "connected")).unwrap();
    hub.publish(ev("alice", "away")).unwrap();
    let h = hub.subscribe().expect("open hub");
    assert!(matches!(hub.recv(&h), RecvOutcome::Pending));
    hub.publish(ev("bob", "connected")).unwrap();
    let e = expect_event(hub.recv(&h));
    assert_eq!(e.user_id(), "bob");
    assert!(matches!(hub.recv(&h), RecvOutcome::Pending));
}

#[test]
fn lagged_subscriber_gets_lag_then_resumes_at_oldest_buffered() {
    let mut hub = Hub::new(2);
    let h = hub.subscribe().expect("open hub");
    for i in 1..=5u32 {
        hub.publish(ev("alice", &format!("s{}", i))).unwrap();
    }
    // 5 events published, buffer of 2: the first read reports the lag,
    // it does not hand out events 1-3.
    assert!(matches!(hub.recv(&h), RecvOutcome::Lagged));
    // The next reads resume at the oldest event still buffered.
    assert_eq!(expect_event(hub.recv(&h)).status(), "s4");
    assert_eq!(expect_event(hub.recv(&h)).status(), "s5");
    assert!(matches!(hub.recv(&h), RecvOutcome::Pending));
}

#[test]
fn exactly_buffer_size_behind_is_not_lagged() {
    let mut hub = Hub::new(3);
    let h = hub.subscribe().expect("open hub");
    for i in 1..=3u32 {
        hub.publish(ev("alice", &format!("s{}", i))).unwrap();
    }
    assert_eq!(expect_event(hub.recv(&h)).status(), "s1");
    assert_eq!(expect_event(hub.recv(&h)).status(), "s2");
    assert_eq!(expect_event(hub.recv(&h)).status(), "s3");
}

#[test]
fn publish_reports_number_of_subscribers() {
    let mut hub = Hub::new(4);
    assert_eq!(hub.publish(ev("a", "x")).unwrap(), 0);
    let h1 = hub.subscribe().unwrap();
    let _h2 = hub.subscribe().unwrap();
    assert_eq!(hub.publish(ev("a", "y")).unwrap(), 2);
    hub.unsubscribe(&h1);
    assert_eq!(hub.publish(ev("a", "z")).unwrap(), 1);
}

#[test]
fn closed_hub_refuses_publish_and_subscribe() {
    let mut hub = Hub::new(4);
    let h = hub.subscribe().unwrap();
    hub.publish(ev("a", "x")).unwrap();
    hub.close();
    assert!(matches!(hub.publish(ev("a", "y")), Err(HubError::Closed)));
    assert!(matches!(hub.subscribe(), Err(HubError::Closed)));
    // Every read after shutdown yields the closed indicator, even with an
    // event still unread.
    assert!(matches!(hub.recv(&h), RecvOutcome::Closed));
    assert!(matches!(hub.recv(&h), RecvOutcome::Closed));
}

#[test]
fn unsubscribed_handle_reads_closed() {
    let mut hub = Hub::new(4);
    let h = hub.subscribe().unwrap();
    hub.publish(ev("a", "x")).unwrap();
    hub.unsubscribe(&h);
    assert!(matches!(hub.recv(&h), RecvOutcome::Closed));
}

#[test]
fn slow_subscriber_never_blocks_or_fails_publish() {
    let mut hub = Hub::new(2);
    let _h = hub.subscribe().unwrap();
    for i in 0..100u32 {
        let delivered = hub.publish(ev("a", &format!("s{}", i))).expect("publish never fails");
        assert_eq!(delivered, 1);
    }
    assert_eq!(hub.published(), 100);
    assert_eq!(hub.capacity(), 2);
}

#[test]
fn lag_gap_is_omission_never_reordering() {
    let mut hub = Hub::new(2);
    let h = hub.subscribe().unwrap();
    for i in 1..=7u32 {
        hub.publish(ev("a", &format!("s{}", i))).unwrap();
    }
    assert!(matches!(hub.recv(&h), RecvOutcome::Lagged));
    let first = expect_event(hub.recv(&h)).status().clone();
    let second = expect_event(hub.recv(&h)).status().clone();
    assert_eq!(first, "s6");
    assert_eq!(second, "s7");
}
