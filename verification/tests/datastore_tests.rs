//! Datastore get, set, and delete.

use coreconf::{CoreconfModel, Datastore, Val};

const SAMPLE_SID: &str = r#"{
    "assignment-range": [{"entry-point": 60000, "size": 10}],
    "module-name": "example-1",
    "module-revision": "unknown",
    "item": [
        {"namespace": "module", "identifier": "example-1", "sid": 60000},
        {"namespace": "data", "identifier": "/example-1:greeting", "sid": 60001},
        {"namespace": "data", "identifier": "/example-1:greeting/author", "sid": 60002, "type": "string"},
        {"namespace": "data", "identifier": "/example-1:greeting/message", "sid": 60003, "type": "string"}
    ],
    "key-mapping": {}
}"#;

#[test]
fn test_datastore_set_get() {
    let model: CoreconfModel = SAMPLE_SID.parse().unwrap();
    let mut ds = Datastore::new(model);

    ds.set_by_path("/example-1:greeting/author", Val::Text("Obi".into()))
        .unwrap();

    let value = ds.get_by_path("/example-1:greeting/author").unwrap();
    assert_eq!(value, Some(Val::Text("Obi".into())));
}

#[test]
fn test_datastore_delete() {
    let model: CoreconfModel = SAMPLE_SID.parse().unwrap();
    let mut ds = Datastore::new(model);

    ds.set_by_path("/example-1:greeting/author", Val::Text("Obi".into()))
        .unwrap();
    let deleted = ds.delete_by_path("/example-1:greeting/author").unwrap();

    assert!(deleted);
    assert_eq!(ds.get_by_path("/example-1:greeting/author").unwrap(), None);
}

#[test]
fn test_datastore_from_json() {
    let model: CoreconfModel = SAMPLE_SID.parse().unwrap();
    let json = r#"{"example-1:greeting": {"author": "Obi", "message": "Hello!"}}"#;
    let ds = Datastore::from_json(model, json).unwrap();

    let author = ds.get_by_path("/example-1:greeting/author").unwrap();
    assert_eq!(author, Some(Val::Text("Obi".into())));
}

#[test]
fn test_set_twice_same_value_is_idempotent() {
    // Applying the same set twice leaves the same tree as applying it
    // once.
    let model: CoreconfModel = SAMPLE_SID.parse().unwrap();
    let mut once = Datastore::new(model.clone());
    once.set_by_sid(60002, Val::Text("Obi".into())).unwrap();
    let after_once = once.get_all().dup();

    let mut twice = Datastore::new(model);
    twice.set_by_sid(60002, Val::Text("Obi".into())).unwrap();
    twice.set_by_sid(60002, Val::Text("Obi".into())).unwrap();
    assert_eq!(*twice.get_all(), after_once);
}

#[test]
fn test_delete_then_get_then_delete_again() {
    // delete(sid) then get(sid) finds nothing; a second delete(sid)
    // reports "not present".
    let model: CoreconfModel = SAMPLE_SID.parse().unwrap();
    let json = r#"{"example-1:greeting": {"author": "Obi", "message": "Hello!"}}"#;
    let mut ds = Datastore::from_json(model, json).unwrap();

    assert_eq!(ds.delete_by_sid(60002).unwrap(), true);
    assert_eq!(ds.get_by_sid(60002).unwrap(), None);
    assert_eq!(ds.delete_by_sid(60002).unwrap(), false);
}

#[test]
fn test_unknown_sid_is_identifier_not_found() {
    let model: CoreconfModel = SAMPLE_SID.parse().unwrap();
    let ds = Datastore::new(model);
    let r = ds.get_by_sid(424242);
    assert!(matches!(
        r,
        Err(coreconf::CoreconfError::IdentifierNotFound(424242))
    ));
}

#[test]
fn test_set_creates_intermediate_containers() {
    let model: CoreconfModel = SAMPLE_SID.parse().unwrap();
    let mut ds = Datastore::new(model);
    ds.set_by_sid(60003, Val::Text("Hi".into())).unwrap();
    let tree = ds.get_by_path("/example-1:greeting").unwrap().unwrap();
    assert_eq!(
        tree,
        Val::Obj(vec![("message".to_string(), Val::Text("Hi".into()))])
    );
}
