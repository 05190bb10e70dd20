//! Edge cases of the text codecs and the query parser.

use coreconf::coap_types::{ContentFormat, Method, QueryParams, Request, Response, ResponseCode};
use coreconf::json::{parse_json, to_json_text};
use coreconf::yang::cast_to_coreconf;
use coreconf::{SidFile, Val, YangType};

#[test]
fn test_json_escapes_roundtrip() {
    let text = r#"{"a": "line\nbreak \"quoted\" back\\slash \t tab"}"#;
    let v = parse_json(text).unwrap();
    assert_eq!(
        v,
        Val::Obj(vec![(
            "a".to_string(),
            Val::Text("line\nbreak \"quoted\" back\\slash \t tab".to_string())
        )])
    );
    let printed = to_json_text(&v);
    let again = parse_json(&printed).unwrap();
    assert_eq!(again, v);
}

#[test]
fn test_json_numbers_and_literals() {
    let text = r#" { "n": -42, "big": 18446744073709551615, "t": true, "f": false, "z": null, "l": [1, 2] } "#;
    let v = parse_json(text).unwrap();
    assert_eq!(
        v,
        Val::Obj(vec![
            ("n".to_string(), Val::Int(-42)),
            ("big".to_string(), Val::UInt(18446744073709551615)),
            ("t".to_string(), Val::Bool(true)),
            ("f".to_string(), Val::Bool(false)),
            ("z".to_string(), Val::Null),
            ("l".to_string(), Val::Arr(vec![Val::Int(1), Val::Int(2)])),
        ])
    );
}

#[test]
fn test_json_trailing_garbage_refused() {
    assert!(parse_json("{} x").is_err());
    assert!(parse_json("").is_err());
    assert!(parse_json("[1,]").is_err());
}

#[test]
fn test_json_printer_compact_form() {
    let v = Val::Obj(vec![
        ("a".to_string(), Val::Int(1)),
        ("b".to_string(), Val::Arr(vec![Val::Null, Val::Bool(true)])),
    ]);
    assert_eq!(to_json_text(&v), r#"{"a":1,"b":[null,true]}"#);
}

#[test]
fn test_cast_identityref_resolves_through_catalog() {
    let sid_text = r#"{
        "module-name": "m",
        "module-revision": "r",
        "item": [
            {"identifier": "m", "sid": 1},
            {"identifier": "cipher-aes", "sid": 77}
        ]
    }"#;
    let cat: SidFile = sid_text.parse().unwrap();
    let v = Val::Text("m:cipher-aes".to_string());
    let wire = cast_to_coreconf(&v, &YangType::Identityref, Some(&cat)).unwrap();
    assert_eq!(wire, Val::Int(77));
    // Without a catalog the value passes through.
    let pass = cast_to_coreconf(&v, &YangType::Identityref, None).unwrap();
    assert_eq!(pass, v);
}

#[test]
fn test_cast_boolean_default_false() {
    let v = Val::Int(1);
    let r = cast_to_coreconf(&v, &YangType::Boolean, None).unwrap();
    assert_eq!(r, Val::Bool(false));
    let s = cast_to_coreconf(&Val::Text("false".to_string()), &YangType::Boolean, None).unwrap();
    assert_eq!(s, Val::Bool(false));
}

#[test]
fn test_query_params_ignore_unknown_keys() {
    let p = QueryParams::parse("x=1&c=n&junk");
    assert_eq!(p.content, coreconf::coap_types::ContentParam::Nonconfig);
    assert_eq!(p.defaults, coreconf::coap_types::DefaultsParam::All);
    let empty = QueryParams::parse("");
    assert_eq!(empty, QueryParams::parse("&&"));
}

#[test]
fn test_method_not_allowed_message() {
    let r = Response::method_not_allowed(Method::Post);
    assert_eq!(r.code, ResponseCode::MethodNotAllowed);
    assert_eq!(r.payload, b"Method POST not allowed".to_vec());
}

#[test]
fn test_request_builders_set_fields() {
    let req = Request::new(Method::Fetch).with_payload(vec![1, 2], ContentFormat::YangDataCbor);
    assert_eq!(req.method, Method::Fetch);
    assert_eq!(req.payload, vec![1, 2]);
    assert_eq!(req.content_format, Some(ContentFormat::YangDataCbor));
}

#[test]
fn test_cbor_integer_widths_match_ciborium() {
    // One value in each header width class, checked against ciborium.
    for n in [0i64, 23, 24, 255, 256, 65535, 65536, 4294967295, 4294967296, -1, -25, -300] {
        let ours = coreconf::cbor::cbor_encode(&Val::Int(n));
        let mut theirs: Vec<u8> = Vec::new();
        ciborium::into_writer(&ciborium::value::Value::Integer(n.into()), &mut theirs).unwrap();
        assert_eq!(ours, theirs);
    }
}
