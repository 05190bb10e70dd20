//! Instance-identifier and instance codecs.

use coreconf::instance_id::{decode_instances, encode_instances, Instance, InstancePath};
use coreconf::Val;

#[test]
fn test_instance_path_single_delta() {
    let mut path = InstancePath::new();
    path.push_delta(60001);

    let cbor = path.encode_cbor().unwrap();
    let decoded = InstancePath::decode_cbor(&cbor).unwrap();

    assert_eq!(decoded.absolute_sid(), Some(60001));
}

#[test]
fn test_instance_path_with_key() {
    let mut path = InstancePath::new();
    path.push_delta(1756);
    path.push_key(Val::Text("myserver".into()));

    let value = path.to_cbor_value();
    assert!(matches!(value, Val::Arr(_)));
}

#[test]
fn test_encode_instances() {
    let mut path = InstancePath::new();
    path.push_delta(1755);
    let instance = Instance::new(path, Val::Bool(true));

    let bytes = encode_instances(&vec![instance]).unwrap();
    let decoded = decode_instances(&bytes).unwrap();

    assert_eq!(decoded.len(), 1);
    assert_eq!(decoded[0].value, Some(Val::Bool(true)));
}

#[test]
fn test_instances_roundtrip_many() {
    // Several instances, values and a delete, back to back.
    let mut p1 = InstancePath::new();
    p1.push_delta(60002);
    let mut p2 = InstancePath::new();
    p2.push_delta(60003);
    let mut p3 = InstancePath::new();
    p3.push_delta(-7);
    let instances = vec![
        Instance::new(p1, Val::Text("a".into())),
        Instance::delete(p2),
        Instance::new(p3, Val::Int(-1)),
    ];
    let bytes = encode_instances(&instances).unwrap();
    let decoded = decode_instances(&bytes).unwrap();
    assert_eq!(decoded.len(), 3);
    assert_eq!(decoded[0].path.absolute_sid(), Some(60002));
    assert_eq!(decoded[0].value, Some(Val::Text("a".into())));
    assert_eq!(decoded[1].path.absolute_sid(), Some(60003));
    assert_eq!(decoded[1].value, None);
    assert_eq!(decoded[2].path.absolute_sid(), Some(-7));
    assert_eq!(decoded[2].value, Some(Val::Int(-1)));
}

#[test]
fn test_path_codec_preserves_count_and_sid() {
    // A path of alternating deltas and keys: the decoded path has the
    // same component count and the same absolute SID.
    let mut path = InstancePath::new();
    path.push_delta(1700);
    path.push_key(Val::Text("eth0".into()));
    path.push_delta(3);
    let cbor = path.encode_cbor().unwrap();
    let decoded = InstancePath::decode_cbor(&cbor).unwrap();
    assert_eq!(decoded.len(), 3);
    assert_eq!(decoded.absolute_sid(), Some(1703));
}

#[test]
fn test_empty_path_encodes_as_null() {
    let path = InstancePath::new();
    let cbor = path.encode_cbor().unwrap();
    assert_eq!(cbor, vec![0xf6u8]);
    let decoded = InstancePath::decode_cbor(&cbor).unwrap();
    assert!(decoded.is_empty());
    assert_eq!(decoded.absolute_sid(), None);
}

#[test]
fn test_path_decode_rejects_non_integer_delta() {
    // An array whose first element is a text string has no delta where
    // one is required.
    let v = ciborium::value::Value::Array(vec![ciborium::value::Value::Text("x".to_string())]);
    let mut bytes: Vec<u8> = Vec::new();
    ciborium::into_writer(&v, &mut bytes).unwrap();
    let r = InstancePath::decode_cbor(&bytes);
    assert!(matches!(
        r,
        Err(coreconf::CoreconfError::TypeConversion(_))
    ));
}

#[test]
fn test_decode_instances_reads_ciborium_bytes() {
    // Bytes produced by ciborium decode to the same instances.
    let v = ciborium::value::Value::Map(vec![(
        ciborium::value::Value::Text("60002".to_string()),
        ciborium::value::Value::Text("Obi".to_string()),
    )]);
    let mut bytes: Vec<u8> = Vec::new();
    ciborium::into_writer(&v, &mut bytes).unwrap();
    let decoded = decode_instances(&bytes).unwrap();
    assert_eq!(decoded.len(), 1);
    assert_eq!(decoded[0].path.absolute_sid(), Some(60002));
    assert_eq!(decoded[0].value, Some(Val::Text("Obi".into())));
}

#[test]
fn test_decode_byte_string_value() {
    // A CBOR byte-string value arrives as the typed bytes carrier.
    let v = ciborium::value::Value::Map(vec![(
        ciborium::value::Value::Text("5".to_string()),
        ciborium::value::Value::Bytes(vec![1, 2, 255]),
    )]);
    let mut bytes: Vec<u8> = Vec::new();
    ciborium::into_writer(&v, &mut bytes).unwrap();
    let decoded = decode_instances(&bytes).unwrap();
    assert_eq!(decoded[0].value, Some(Val::Bytes(vec![1, 2, 255])));
}
