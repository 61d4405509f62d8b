use gap::provider::{ConnectionTracker, RequestDisplay, RequestEvent};

#[test]
fn request_on_known_connection_is_tracked() {
    let mut t: ConnectionTracker<&'static str> = ConnectionTracker::new();
    t.connected(1, Some("abcd".to_owned()));
    assert_eq!(t.request_started(1, 7, "bar-7"), Some("abcd".to_owned()));
    let requests = t.closed(1).expect("connection was tracked");
    assert_eq!(requests.len(), 1);
    assert_eq!(requests.get(&7), Some(&"bar-7"));
}

#[test]
fn unknown_endpoint_is_shown_as_question_mark() {
    let mut t: ConnectionTracker<u32> = ConnectionTracker::new();
    t.connected(3, None);
    assert_eq!(t.request_started(3, 1, 0), Some("?".to_owned()));
}

#[test]
fn request_on_unknown_connection_is_refused() {
    let mut t: ConnectionTracker<u32> = ConnectionTracker::new();
    assert_eq!(t.request_started(9, 1, 0), None);
    assert!(t.closed(9).is_none());
}

#[test]
fn finished_request_is_no_longer_cleared_on_close() {
    let mut t: ConnectionTracker<u32> = ConnectionTracker::new();
    t.connected(1, Some("x".to_owned()));
    t.request_started(1, 1, 10);
    t.request_started(1, 2, 20);
    t.request_finished(1, 1);
    let requests = t.closed(1).expect("tracked");
    assert_eq!(requests.keys().copied().collect::<Vec<_>>(), vec![2]);
}

#[test]
fn closed_connection_ignores_late_updates() {
    let mut t: ConnectionTracker<u32> = ConnectionTracker::new();
    t.connected(5, Some("p".to_owned()));
    assert!(t.closed(5).is_some());
    t.request_finished(5, 1);
    assert_eq!(t.request_started(5, 1, 0), None);
    assert!(t.closed(5).is_none());
}

#[test]
fn reconnect_replaces_requests() {
    let mut t: ConnectionTracker<u32> = ConnectionTracker::new();
    t.connected(1, Some("a".to_owned()));
    t.request_started(1, 1, 1);
    t.connected(1, Some("b".to_owned()));
    assert_eq!(t.request_started(1, 2, 2), Some("b".to_owned()));
    let requests = t.closed(1).expect("tracked");
    assert_eq!(requests.keys().copied().collect::<Vec<_>>(), vec![2]);
}

#[test]
fn request_updates_drive_the_bar_and_finish_untracks() {
    let mut t: ConnectionTracker<&'static str> = ConnectionTracker::new();
    t.connected(1, Some("abcd".to_owned()));
    t.request_started(1, 7, "bar-7");
    let d = t.request_update(1, 7, RequestEvent::Started { index: 2, size: 100, hash: "h" });
    assert!(matches!(d, RequestDisplay::Describe { index: 2, size: 100, hash: "h" }));
    let d = t.request_update::<&str>(1, 7, RequestEvent::Progress(40));
    assert!(matches!(d, RequestDisplay::SetPosition(40)));
    let d = t.request_update::<&str>(1, 7, RequestEvent::Completed);
    assert!(matches!(d, RequestDisplay::Untracked));
    assert!(t.closed(1).expect("tracked").is_empty());
}

#[test]
fn aborted_request_is_untracked_too() {
    let mut t: ConnectionTracker<u8> = ConnectionTracker::new();
    t.connected(2, None);
    t.request_started(2, 1, 10);
    t.request_started(2, 3, 30);
    let d = t.request_update::<u8>(2, 1, RequestEvent::Aborted);
    assert!(matches!(d, RequestDisplay::Untracked));
    let left = t.closed(2).expect("tracked");
    assert_eq!(left.len(), 1);
    assert_eq!(left.get(&3), Some(&30));
}
