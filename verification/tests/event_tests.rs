use presence_hub::event::{InputError, StatusEvent};

#[test]
fn both_strings_are_kept_as_given() {
    let e = StatusEvent::new("alice".to_string(), "connected".to_string()).unwrap();
    assert_eq!(e.user_id(), "alice");
    assert_eq!(e.status(), "connected");
    let copy = e.duplicate();
    assert_eq!(copy.user_id(), "alice");
    assert_eq!(copy.status(), "connected");
}

#[test]
fn empty_strings_are_refused() {
    assert!(matches!(
        StatusEvent::new("".to_string(), "connected".to_string()),
        Err(InputError::Empty)
    ));
    assert!(matches!(
        StatusEvent::new("alice".to_string(), "".to_string()),
        Err(InputError::Empty)
    ));
    assert!(matches!(StatusEvent::new("".to_string(), "".to_string()), Err(InputError::Empty)));
}

#[test]
fn any_non_empty_status_string_is_accepted() {
    let e = StatusEvent::new("alice".to_string(), "en réunion".to_string()).unwrap();
    assert_eq!(e.status(), "en réunion");
}
