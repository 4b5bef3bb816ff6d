use kube_runtime::controller::{requeue_after, Scheduler};
use kube_runtime::finalizer::{
    add_finalizer, delete_result, finish_cleanup, finalizer_state, has_finalizer, mark, plan,
    remove_finalizer, Action, DeleteOutcome, FinalizerState, FinalizerStep,
};
use kube_runtime::object_ref::{Object, ObjectMeta, ObjectRef};
use kube_runtime::reflector::Writer;
use kube_runtime::store::WatchEvent;

const TOKEN: &str = "example.com/cleanup";

fn object(deleting: bool, finalizers: &[&str]) -> Object {
    Object {
        kind: "ConfigMap".to_string(),
        metadata: ObjectMeta {
            name: "a".to_string(),
            namespace: "default".to_string(),
            resource_version: "1".to_string(),
            deletion_timestamp: if deleting { Some("2020-01-01T00:00:00Z".to_string()) } else { None },
            finalizers: finalizers.iter().map(|f| f.to_string()).collect(),
        },
        data: Vec::new(),
    }
}

#[test]
fn four_states_from_two_facts() {
    let t = TOKEN.to_string();
    assert_eq!(finalizer_state(&object(false, &[]), &t), FinalizerState::Unmarked);
    assert_eq!(finalizer_state(&object(false, &[TOKEN]), &t), FinalizerState::Active);
    assert_eq!(finalizer_state(&object(true, &[TOKEN]), &t), FinalizerState::Finalizing);
    assert_eq!(finalizer_state(&object(true, &["other"]), &t), FinalizerState::Released);
    assert_eq!(plan(&object(false, &[]), &t), FinalizerStep::AddToken);
    assert_eq!(plan(&object(false, &[TOKEN]), &t), FinalizerStep::RunApply);
    assert_eq!(plan(&object(true, &[TOKEN]), &t), FinalizerStep::RunCleanup);
    assert_eq!(plan(&object(true, &[]), &t), FinalizerStep::Nothing);
}

#[test]
fn first_cycle_adds_token_then_apply_runs() {
    let t = TOKEN.to_string();
    let o = object(false, &["other"]);
    assert_eq!(plan(&o, &t), FinalizerStep::AddToken);
    let patched = mark(&o, &t).unwrap();
    assert_eq!(patched.metadata.finalizers, vec!["other".to_string(), TOKEN.to_string()]);
    assert!(has_finalizer(&patched, &t));
    assert_eq!(plan(&patched, &t), FinalizerStep::RunApply);
    assert_eq!(mark(&patched, &t), None);
}

#[test]
fn add_finalizer_is_idempotent() {
    let t = TOKEN.to_string();
    let mut o = object(false, &[TOKEN]);
    add_finalizer(&mut o, &t);
    assert_eq!(o.metadata.finalizers, vec![TOKEN.to_string()]);
}

#[test]
fn successful_cleanup_removes_token_for_good() {
    let t = TOKEN.to_string();
    let o = object(true, &["x", TOKEN, "y", TOKEN]);
    assert_eq!(plan(&o, &t), FinalizerStep::RunCleanup);
    let (patch, result) = finish_cleanup::<String>(&o, &t, Ok(Action::Await));
    let patched = patch.unwrap();
    assert_eq!(result, Ok(Action::Await));
    assert_eq!(patched.metadata.finalizers, vec!["x".to_string(), "y".to_string()]);
    assert_eq!(plan(&patched, &t), FinalizerStep::Nothing);
}

#[test]
fn failed_cleanup_keeps_token_and_requeues() {
    let t = TOKEN.to_string();
    let o = object(true, &[TOKEN]);
    let key = ObjectRef::from_obj(&o);
    let (patch, result) = finish_cleanup(&o, &t, Err::<Action, String>("boom".to_string()));
    assert_eq!(patch, None);
    assert!(has_finalizer(&o, &t));
    assert_eq!(plan(&o, &t), FinalizerStep::RunCleanup);
    assert_eq!(requeue_after(&result, 5000), Some(5000));

    let mut w = Writer::default();
    w.apply_watcher_event(&WatchEvent::Applied(o.clone()));
    let mut s = Scheduler::new(1);
    s.trigger(&key);
    let (k, snap) = s.next(&w.as_reader()).unwrap();
    assert_eq!(k, key);
    assert_eq!(snap, Some(o));
    assert_eq!(s.complete(&key, &result, 5000), Some(5000));
}

#[test]
fn remove_finalizer_keeps_others() {
    let t = TOKEN.to_string();
    let mut o = object(false, &["x"]);
    remove_finalizer(&mut o, &t);
    assert_eq!(o.metadata.finalizers, vec!["x".to_string()]);
}

#[test]
fn cleanup_of_missing_side_effect_succeeds() {
    assert_eq!(delete_result(DeleteOutcome::NotFound), Ok(()));
    assert_eq!(delete_result(DeleteOutcome::Deleted), Ok(()));
    assert_eq!(
        delete_result(DeleteOutcome::Rejected("forbidden".to_string())),
        Err("forbidden".to_string())
    );
}
