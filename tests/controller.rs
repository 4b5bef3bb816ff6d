use kube_runtime::backoff::error_backoff;
use kube_runtime::controller::{requeue_after, Scheduler};
use kube_runtime::finalizer::Action;
use kube_runtime::object_ref::{Object, ObjectMeta, ObjectRef};
use kube_runtime::reflector::Writer;
use kube_runtime::store::WatchEvent;

fn object(name: &str, version: &str) -> Object {
    Object {
        kind: "ConfigMap".to_string(),
        metadata: ObjectMeta {
            name: name.to_string(),
            namespace: "default".to_string(),
            resource_version: version.to_string(),
            deletion_timestamp: None,
            finalizers: Vec::new(),
        },
        data: Vec::new(),
    }
}

#[test]
fn two_triggers_before_start_run_once_with_latest_snapshot() {
    let mut w = Writer::default();
    let v1 = object("a", "1");
    let v2 = object("a", "2");
    let key = ObjectRef::from_obj(&v1);
    let mut s = Scheduler::new(4);
    w.apply_watcher_event(&WatchEvent::Applied(v1));
    s.trigger(&key);
    w.apply_watcher_event(&WatchEvent::Applied(v2.clone()));
    s.trigger(&key);
    let (k, snap) = s.next(&w.as_reader()).unwrap();
    assert_eq!(k, key);
    assert_eq!(snap, Some(v2));
    assert!(s.next(&w.as_reader()).is_none());
    assert_eq!(s.complete::<String>(&key, &Ok(Action::Await), 1000), None);
    assert!(s.next(&w.as_reader()).is_none());
}

#[test]
fn trigger_while_running_runs_again_once() {
    let mut w = Writer::default();
    let o = object("a", "1");
    let key = ObjectRef::from_obj(&o);
    w.apply_watcher_event(&WatchEvent::Applied(o.clone()));
    let mut s = Scheduler::new(4);
    s.trigger(&key);
    assert!(s.next(&w.as_reader()).is_some());
    s.trigger(&key);
    s.trigger(&key);
    assert!(s.next(&w.as_reader()).is_none());
    assert_eq!(s.complete::<String>(&key, &Ok(Action::RequeueAfter(300)), 1000), Some(300));
    let (k, snap) = s.next(&w.as_reader()).unwrap();
    assert_eq!(k, key);
    assert_eq!(snap, Some(o));
    assert!(s.next(&w.as_reader()).is_none());
}

#[test]
fn concurrency_bound_holds_back_work() {
    let mut w = Writer::default();
    let a = object("a", "1");
    let b = object("b", "1");
    w.apply_watcher_event(&WatchEvent::Applied(a.clone()));
    w.apply_watcher_event(&WatchEvent::Applied(b.clone()));
    let ka = ObjectRef::from_obj(&a);
    let kb = ObjectRef::from_obj(&b);
    let mut s = Scheduler::new(1);
    s.trigger(&ka);
    s.trigger(&kb);
    let (k, _) = s.next(&w.as_reader()).unwrap();
    assert_eq!(k, ka);
    assert!(s.next(&w.as_reader()).is_none());
    assert_eq!(s.complete(&ka, &Err::<Action, String>("x".to_string()), 250), Some(250));
    let (k, _) = s.next(&w.as_reader()).unwrap();
    assert_eq!(k, kb);
}

#[test]
fn missing_object_is_skipped() {
    let w = Writer::default();
    let key = ObjectRef::from_obj(&object("gone", "1"));
    let mut s = Scheduler::new(2);
    s.trigger(&key);
    let (k, snap) = s.next(&w.as_reader()).unwrap();
    assert_eq!(k, key);
    assert_eq!(snap, None);
    assert!(s.next(&w.as_reader()).is_none());
    s.trigger(&key);
    assert!(s.next(&w.as_reader()).is_some());
}

#[test]
fn requeue_directives() {
    assert_eq!(requeue_after::<String>(&Ok(Action::Await), 10), None);
    assert_eq!(requeue_after::<String>(&Ok(Action::RequeueAfter(42)), 10), Some(42));
    assert_eq!(requeue_after(&Err::<Action, String>("e".to_string()), 10), Some(10));
}

#[test]
fn backoff_doubles_up_to_ceiling() {
    assert_eq!(error_backoff(100, 1000, 0), 100);
    assert_eq!(error_backoff(100, 1000, 1), 200);
    assert_eq!(error_backoff(100, 1000, 3), 800);
    assert_eq!(error_backoff(100, 1000, 4), 1000);
    assert_eq!(error_backoff(100, 1000, 200), 1000);
    assert_eq!(error_backoff(500, 500, 5), 500);
    assert_eq!(error_backoff(700, 500, 0), 500);
    assert_eq!(error_backoff(u64::MAX, u64::MAX, 3), u64::MAX);
}
