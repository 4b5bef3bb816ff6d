use kube_runtime::object_ref::{Object, ObjectMeta};
use kube_runtime::store::WatchEvent;
use kube_runtime::watcher::{
    next_request, step, watch_error_input, Request, WatcherInput, WatcherState,
};

fn object(name: &str, version: &str) -> Object {
    Object {
        kind: "Pod".to_string(),
        metadata: ObjectMeta {
            name: name.to_string(),
            namespace: "ns".to_string(),
            resource_version: version.to_string(),
            deletion_timestamp: None,
            finalizers: Vec::new(),
        },
        data: Vec::new(),
    }
}

fn streaming(rv: &str) -> WatcherState {
    WatcherState::Streaming { resource_version: rv.to_string() }
}

#[test]
fn list_emits_restart_and_starts_streaming() {
    let (s, e) = step(
        WatcherState::Initializing { failures: 2 },
        WatcherInput::Listed { resource_version: "10".to_string(), objects: vec![object("a", "9")] },
    );
    assert_eq!(s, streaming("10"));
    assert_eq!(e, Some(WatchEvent::Restarted(vec![object("a", "9")])));
    assert_eq!(
        next_request(&s, 100, 1000),
        Request::Watch { resource_version: "10".to_string() }
    );
}

#[test]
fn watch_changes_become_applied_and_deleted() {
    let (s, e) = step(streaming("10"), WatcherInput::Added(object("a", "11")));
    assert_eq!(s, streaming("11"));
    assert_eq!(e, Some(WatchEvent::Applied(object("a", "11"))));
    let (s, e) = step(s, WatcherInput::Modified(object("a", "12")));
    assert_eq!(s, streaming("12"));
    assert_eq!(e, Some(WatchEvent::Applied(object("a", "12"))));
    let (s, e) = step(s, WatcherInput::Removed(object("a", "13")));
    assert_eq!(s, streaming("13"));
    assert_eq!(e, Some(WatchEvent::Deleted(object("a", "13"))));
}

#[test]
fn expired_version_relists_at_once() {
    let (s, e) = step(streaming("10"), WatcherInput::Expired);
    assert_eq!(s, WatcherState::Initializing { failures: 0 });
    assert_eq!(e, None);
    assert_eq!(next_request(&s, 100, 1000), Request::List { delay_ms: 0 });
}

#[test]
fn failures_back_off_and_never_end_the_stream() {
    let (s, e) = step(streaming("10"), WatcherInput::Disconnected);
    assert_eq!(e, None);
    assert_eq!(next_request(&s, 100, 1000), Request::List { delay_ms: 100 });
    let (s, _) = step(s, WatcherInput::ListFailed);
    assert_eq!(next_request(&s, 100, 1000), Request::List { delay_ms: 200 });
    let mut s = s;
    for _ in 0..10 {
        s = step(s, WatcherInput::ListFailed).0;
    }
    assert_eq!(s, WatcherState::Initializing { failures: 12 });
    assert_eq!(next_request(&s, 100, 1000), Request::List { delay_ms: 1000 });
    let (s, e) = step(
        WatcherState::Initializing { failures: u32::MAX },
        WatcherInput::ListFailed,
    );
    assert_eq!(s, WatcherState::Initializing { failures: u32::MAX });
    assert_eq!(e, None);
}

#[test]
fn out_of_phase_answers_are_ignored() {
    let (s, e) = step(
        WatcherState::Initializing { failures: 1 },
        WatcherInput::Added(object("a", "1")),
    );
    assert_eq!(s, WatcherState::Initializing { failures: 1 });
    assert_eq!(e, None);
    let (s, e) = step(
        streaming("5"),
        WatcherInput::Listed { resource_version: "6".to_string(), objects: Vec::new() },
    );
    assert_eq!(s, streaming("5"));
    assert_eq!(e, None);
}

#[test]
fn bookmark_moves_version_without_event() {
    let (s, e) = step(
        streaming("10"),
        WatcherInput::Bookmark { resource_version: "20".to_string() },
    );
    assert_eq!(s, streaming("20"));
    assert_eq!(e, None);
}

#[test]
fn gone_means_expired() {
    assert_eq!(watch_error_input(410), WatcherInput::Expired);
    assert_eq!(watch_error_input(500), WatcherInput::Disconnected);
}
