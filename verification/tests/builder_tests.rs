//! Client-side request building.

use coreconf::{CoreconfModel, RequestBuilder, Val};

const SAMPLE_SID: &str = r#"{
    "assignment-range": [{"entry-point": 60000, "size": 10}],
    "module-name": "example-1",
    "module-revision": "unknown",
    "item": [
        {"namespace": "module", "identifier": "example-1", "sid": 60000},
        {"namespace": "data", "identifier": "/example-1:greeting", "sid": 60001},
        {"namespace": "data", "identifier": "/example-1:greeting/author", "sid": 60002, "type": "string"},
        {"namespace": "data", "identifier": "/example-1:greeting/message", "sid": 60003, "type": "string"}
    ],
    "key-mapping": {}
}"#;

#[test]
fn test_build_fetch() {
    let model: CoreconfModel = SAMPLE_SID.parse().unwrap();
    let builder = RequestBuilder::new(model);

    let payload = builder
        .build_fetch(&vec!["/example-1:greeting".to_string()])
        .unwrap();
    assert!(!payload.is_empty());
}

#[test]
fn test_build_ipatch() {
    let model: CoreconfModel = SAMPLE_SID.parse().unwrap();
    let builder = RequestBuilder::new(model);

    let payload = builder
        .build_ipatch(&vec![(
            "/example-1:greeting/author".to_string(),
            Some(Val::Text("Luke".into())),
        )])
        .unwrap();
    assert!(!payload.is_empty());
}

#[test]
fn test_build_fetch_sids() {
    let model: CoreconfModel = SAMPLE_SID.parse().unwrap();
    let builder = RequestBuilder::new(model);

    let payload = builder.build_fetch_sids(&vec![60001, 60002]).unwrap();
    assert!(!payload.is_empty());
}

#[test]
fn test_build_fetch_unknown_path_fails() {
    let model: CoreconfModel = SAMPLE_SID.parse().unwrap();
    let builder = RequestBuilder::new(model);
    let r = builder.build_fetch(&vec!["/example-1:missing".to_string()]);
    assert!(matches!(r, Err(coreconf::CoreconfError::SidNotFound(_))));
}

#[test]
fn test_build_post_and_parse_response() {
    let model: CoreconfModel = SAMPLE_SID.parse().unwrap();
    let builder = RequestBuilder::new(model);
    let payload = builder
        .build_post("/example-1:greeting", Some(Val::Text("in".into())))
        .unwrap();
    // The POST payload is itself a one-instance sequence.
    let pairs = builder.parse_response(&payload).unwrap();
    assert_eq!(pairs, vec![(60001i64, Val::Text("in".into()))]);
}

#[test]
fn test_parse_response_json_keys_by_identifier() {
    let model: CoreconfModel = SAMPLE_SID.parse().unwrap();
    let builder = RequestBuilder::new(model);
    let payload = builder
        .build_ipatch_sids(&vec![(60002, Some(Val::Text("Obi".into())))])
        .unwrap();
    let obj = builder.parse_response_json(&payload).unwrap();
    assert_eq!(
        obj,
        Val::Obj(vec![(
            "/example-1:greeting/author".to_string(),
            Val::Text("Obi".into())
        )])
    );
}

#[test]
fn test_yang_path_deltas_are_relative() {
    // The identifier payload for a nested path carries the delta chain
    // 60001 then 1, not two absolute SIDs.
    let model: CoreconfModel = SAMPLE_SID.parse().unwrap();
    let builder = RequestBuilder::new(model);
    let payload = builder
        .build_fetch(&vec!["/example-1:greeting/author".to_string()])
        .unwrap();
    let decoded: ciborium::value::Value = ciborium::from_reader(payload.as_slice()).unwrap();
    match decoded {
        ciborium::value::Value::Array(items) => {
            assert_eq!(items.len(), 2);
            assert_eq!(items[0], ciborium::value::Value::Integer(60001.into()));
            assert_eq!(items[1], ciborium::value::Value::Integer(1.into()));
        }
        other => panic!("expected an array, got {:?}", other),
    }
}
