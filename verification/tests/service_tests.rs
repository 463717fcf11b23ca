use presence_hub::hub::RecvOutcome;
use presence_hub::service::{status_or_default, ServiceError, StatusService};

#[test]
fn update_then_get_returns_just_written_status() {
    let mut svc = StatusService::new(10);
    svc.update_status("alice".to_string(), "connected".to_string()).expect("store reachable");
    let read = svc.get_status(&"alice".to_string()).expect("store reachable");
    assert_eq!(read, Some("connected".to_string()));
}

#[test]
fn every_write_fully_replaces_the_prior_value() {
    let mut svc = StatusService::new(10);
    svc.update_status("alice".to_string(), "connected".to_string()).unwrap();
    svc.update_status("alice".to_string(), "away".to_string()).unwrap();
    let read = svc.get_status(&"alice".to_string()).unwrap();
    assert_eq!(read, Some("away".to_string()));
}

#[test]
fn get_without_prior_write_is_absent_and_maps_to_default() {
    let mut svc = StatusService::new(10);
    svc.update_status("alice".to_string(), "connected".to_string()).unwrap();
    let read = svc.get_status(&"bob".to_string()).expect("store reachable");
    assert_eq!(read, None);
    assert_eq!(status_or_default(read), "déconnecté");
}

#[test]
fn status_or_default_passes_a_present_status_through() {
    assert_eq!(status_or_default(Some("away".to_string())), "away");
    assert_eq!(status_or_default(None), "déconnecté");
}

#[test]
fn empty_user_id_is_rejected_before_store_and_hub() {
    let mut svc = StatusService::new(10);
    let h = svc.subscribe().unwrap();
    let r = svc.update_status("".to_string(), "connected".to_string());
    assert!(matches!(r, Err(ServiceError::InvalidInput)));
    let r = svc.update_status("alice".to_string(), "".to_string());
    assert!(matches!(r, Err(ServiceError::InvalidInput)));
    assert!(matches!(svc.recv(&h), RecvOutcome::Pending));
    assert_eq!(svc.get_status(&"alice".to_string()).unwrap(), None);
}

#[test]
fn store_failure_fails_the_whole_update_and_broadcasts_nothing() {
    let mut svc = StatusService::new(10);
    let h = svc.subscribe().unwrap();
    svc.set_store_available(false);
    let r = svc.update_status("alice".to_string(), "connected".to_string());
    assert!(matches!(r, Err(ServiceError::StoreUnavailable)));
    // Zero deliveries to any subscriber for that call.
    assert!(matches!(svc.recv(&h), RecvOutcome::Pending));
    // Nothing was durably recorded either.
    svc.set_store_available(true);
    assert_eq!(svc.get_status(&"alice".to_string()).unwrap(), None);
}

#[test]
fn get_status_reports_store_unavailable() {
    let mut svc = StatusService::new(10);
    svc.set_store_available(false);
    let r = svc.get_status(&"alice".to_string());
    assert!(matches!(r, Err(ServiceError::StoreUnavailable)));
}

#[test]
fn subscriber_before_both_updates_sees_both_in_order() {
    let mut svc = StatusService::new(10);
    let h = svc.subscribe().unwrap();
    svc.update_status("alice".to_string(), "connected".to_string()).unwrap();
    svc.update_status("alice".to_string(), "away".to_string()).unwrap();
    match svc.recv(&h) {
        RecvOutcome::Event(e) => {
            assert_eq!(e.user_id(), "alice");
            assert_eq!(e.status(), "connected");
        },
        other => panic!("expected the first event, got {:?}", other),
    }
    match svc.recv(&h) {
        RecvOutcome::Event(e) => {
            assert_eq!(e.user_id(), "alice");
            assert_eq!(e.status(), "away");
        },
        other => panic!("expected the second event, got {:?}", other),
    }
    assert_eq!(svc.get_status(&"alice".to_string()).unwrap(), Some("away".to_string()));
}

#[test]
fn small_buffer_reports_lag_before_events() {
    let mut svc = StatusService::new(2);
    let h = svc.subscribe().unwrap();
    for i in 1..=5u32 {
        svc.update_status("alice".to_string(), format!("s{}", i)).unwrap();
    }
    // The subscriber's first read must report the lag, not events 1-3.
    assert!(matches!(svc.recv(&h), RecvOutcome::Lagged));
    match svc.recv(&h) {
        RecvOutcome::Event(e) => assert_eq!(e.status(), "s4"),
        other => panic!("expected an event, got {:?}", other),
    }
}

#[test]
fn write_still_succeeds_when_hub_is_closed() {
    let mut svc = StatusService::new(10);
    svc.close_hub();
    let e = svc
        .update_status("alice".to_string(), "connected".to_string())
        .expect("the store is the source of truth");
    assert_eq!(e.status(), "connected");
    assert_eq!(svc.get_status(&"alice".to_string()).unwrap(), Some("connected".to_string()));
}
