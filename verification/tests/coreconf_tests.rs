//! JSON/CBOR transcoding.

use coreconf::CoreconfModel;

const SAMPLE_SID: &str = r#"{
    "assignment-range": [{"entry-point": 60000, "size": 10}],
    "module-name": "example-1",
    "module-revision": "unknown",
    "item": [
        {"namespace": "module", "identifier": "example-1", "status": "unstable", "sid": 60000},
        {"namespace": "data", "identifier": "/example-1:greeting", "status": "unstable", "sid": 60001},
        {"namespace": "data", "identifier": "/example-1:greeting/author", "status": "unstable", "sid": 60002, "type": "string"},
        {"namespace": "data", "identifier": "/example-1:greeting/message", "status": "unstable", "sid": 60003, "type": "string"}
    ],
    "key-mapping": {}
}"#;

const SAMPLE_JSON: &str = r#"{"example-1:greeting": {"author": "Obi", "message": "Hello there!"}}"#;

#[test]
fn test_to_coreconf() {
    let model = CoreconfModel::from_str(SAMPLE_SID).unwrap();
    let cbor = model.to_coreconf(SAMPLE_JSON).unwrap();

    assert!(!cbor.is_empty());
}

#[test]
fn test_roundtrip() {
    let model = CoreconfModel::from_str(SAMPLE_SID).unwrap();

    let cbor = model.to_coreconf(SAMPLE_JSON).unwrap();

    let json = model.to_json(&cbor).unwrap();
    let decoded: serde_json::Value = serde_json::from_str(&json).unwrap();

    assert!(decoded.is_object());
    let greeting = &decoded["example-1:greeting"];
    assert_eq!(greeting["author"], "Obi");
    assert_eq!(greeting["message"], "Hello there!");
}

#[test]
fn test_wire_bytes_match_ciborium() {
    // Cross-check of the built-in CBOR encoder against ciborium on the
    // delta-keyed tree {"60001": {"1": "Obi", "2": "Hi"}}.
    let model = CoreconfModel::from_str(SAMPLE_SID).unwrap();
    let cbor = model
        .to_coreconf(r#"{"example-1:greeting":{"author":"Obi","message":"Hi"}}"#)
        .unwrap();

    let inner = ciborium::value::Value::Map(vec![
        (
            ciborium::value::Value::Text("1".to_string()),
            ciborium::value::Value::Text("Obi".to_string()),
        ),
        (
            ciborium::value::Value::Text("2".to_string()),
            ciborium::value::Value::Text("Hi".to_string()),
        ),
    ]);
    let outer = ciborium::value::Value::Map(vec![(
        ciborium::value::Value::Text("60001".to_string()),
        inner,
    )]);
    let mut expected: Vec<u8> = Vec::new();
    ciborium::into_writer(&outer, &mut expected).unwrap();

    assert_eq!(cbor, expected);
}

#[test]
fn test_unknown_key_is_sid_not_found() {
    let model = CoreconfModel::from_str(SAMPLE_SID).unwrap();
    let r = model.to_coreconf(r#"{"example-1:greeting":{"nonsense":"x"}}"#);
    match r {
        Err(coreconf::CoreconfError::SidNotFound(p)) => {
            assert_eq!(p, "/example-1:greeting/nonsense");
        }
        other => panic!("expected SidNotFound, got {:?}", other.is_ok()),
    }
}

#[test]
fn test_malformed_json_is_json_error() {
    let model = CoreconfModel::from_str(SAMPLE_SID).unwrap();
    let r = model.to_coreconf("{broken");
    assert!(matches!(r, Err(coreconf::CoreconfError::Json(_))));
}

#[test]
fn test_malformed_cbor_is_decode_error() {
    let model = CoreconfModel::from_str(SAMPLE_SID).unwrap();
    let r = model.to_value(&[0xffu8, 0x00u8]);
    assert!(matches!(r, Err(coreconf::CoreconfError::CborDecode(_))));
}

#[test]
fn test_unknown_delta_is_identifier_not_found() {
    let model = CoreconfModel::from_str(SAMPLE_SID).unwrap();
    // {"99999": null} as CBOR: map with a delta no catalog item has.
    let v = ciborium::value::Value::Map(vec![(
        ciborium::value::Value::Text("99999".to_string()),
        ciborium::value::Value::Null,
    )]);
    let mut bytes: Vec<u8> = Vec::new();
    ciborium::into_writer(&v, &mut bytes).unwrap();
    let r = model.to_value(&bytes);
    assert!(matches!(
        r,
        Err(coreconf::CoreconfError::IdentifierNotFound(99999))
    ));
}
