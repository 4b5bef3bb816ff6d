use kube_runtime::object_ref::{identity, IdentityError, Object, ObjectMeta, ObjectRef};

fn named(name: &str) -> Object {
    Object {
        kind: "Secret".to_string(),
        metadata: ObjectMeta {
            name: name.to_string(),
            namespace: "ns".to_string(),
            resource_version: "3".to_string(),
            deletion_timestamp: None,
            finalizers: Vec::new(),
        },
        data: Vec::new(),
    }
}

#[test]
fn identity_needs_a_name() {
    assert_eq!(identity(&named("")), Err(IdentityError::MissingName));
    let k = identity(&named("s")).unwrap();
    assert_eq!(
        k,
        ObjectRef { kind: "Secret".to_string(), namespace: "ns".to_string(), name: "s".to_string() }
    );
}

#[test]
fn refs_ignore_content() {
    let a = named("s");
    let mut b = named("s");
    b.metadata.resource_version = "9".to_string();
    b.data.push(("k".to_string(), "v".to_string()));
    assert_eq!(ObjectRef::from_obj(&a), ObjectRef::from_obj(&b));
    assert!(ObjectRef::from_obj(&a).matches(&b));
    assert!(!ObjectRef::from_obj(&a).matches(&named("t")));
}

#[test]
fn clone_keeps_every_field() {
    let mut a = named("s");
    a.metadata.deletion_timestamp = Some("t".to_string());
    a.metadata.finalizers.push("f".to_string());
    a.data.push(("k".to_string(), "v".to_string()));
    assert_eq!(a.clone(), a);
}
