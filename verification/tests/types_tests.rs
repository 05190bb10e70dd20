//! Transport types, YANG type names, and leaf casts.

use coreconf::coap_types::{ContentFormat, ContentParam, DefaultsParam, QueryParams, ResponseCode};
use coreconf::yang::{cast_from_coreconf, cast_to_coreconf};
use coreconf::{Val, YangType};

#[test]
fn test_content_format_conversion() {
    assert_eq!(
        ContentFormat::from_u16(112),
        Some(ContentFormat::YangDataCbor)
    );
    assert_eq!(ContentFormat::YangInstancesCborSeq.as_u16(), 313);
}

#[test]
fn test_response_code() {
    assert_eq!(ResponseCode::Content.to_code_pair(), (2, 5));
    assert!(ResponseCode::Changed.is_success());
    assert!(!ResponseCode::NotFound.is_success());
}

#[test]
fn test_query_params_parse() {
    let params = QueryParams::parse("c=c&d=t");
    assert_eq!(params.content, ContentParam::Config);
    assert_eq!(params.defaults, DefaultsParam::Trim);
}

#[test]
fn test_yang_type_from_string() {
    assert_eq!(YangType::from_string("string"), YangType::String);
    assert_eq!(YangType::from_string("uint8"), YangType::Uint8);
    assert_eq!(YangType::from_string("boolean"), YangType::Boolean);
    assert_eq!(YangType::from_string("inet:uri"), YangType::Uri);
}

#[test]
fn test_cast_string() {
    let value = Val::Text("hello".to_string());
    let result = cast_to_coreconf(&value, &YangType::String, None).unwrap();
    assert_eq!(result, Val::Text("hello".to_string()));
}

#[test]
fn test_cast_integer() {
    let value = Val::Int(42);
    let result = cast_to_coreconf(&value, &YangType::Uint8, None).unwrap();
    assert_eq!(result, Val::UInt(42));
}

#[test]
fn test_cast_boolean() {
    let value = Val::Text("true".to_string());
    let result = cast_to_coreconf(&value, &YangType::Boolean, None).unwrap();
    assert_eq!(result, Val::Bool(true));
}

#[test]
fn test_cast_integer_from_text() {
    let value = Val::Text("-17".to_string());
    let result = cast_to_coreconf(&value, &YangType::Int32, None).unwrap();
    assert_eq!(result, Val::Int(-17));
}

#[test]
fn test_cast_integer_rejects_bad_text() {
    let value = Val::Text("abc".to_string());
    let result = cast_to_coreconf(&value, &YangType::Uint32, None);
    assert!(matches!(
        result,
        Err(coreconf::CoreconfError::TypeConversion(_))
    ));
}

#[test]
fn test_cast_binary_roundtrip() {
    // "hi" in base64; a wrapper handing its input back unchanged would
    // fail both directions.
    let value = Val::Text("aGk=".to_string());
    let wire = cast_to_coreconf(&value, &YangType::Binary, None).unwrap();
    assert_eq!(wire, Val::Bytes(vec![104u8, 105u8]));
    let back = cast_from_coreconf(&wire, &YangType::Binary, None, "m").unwrap();
    assert_eq!(back, Val::Text("aGk=".to_string()));
}

#[test]
fn test_cast_binary_rejects_bad_text() {
    let value = Val::Text("!!!".to_string());
    let result = cast_to_coreconf(&value, &YangType::Binary, None);
    assert!(matches!(
        result,
        Err(coreconf::CoreconfError::TypeConversion(_))
    ));
}

#[test]
fn test_cast_enumeration_both_ways() {
    let t = YangType::Enumeration(vec![("up".to_string(), 1), ("down".to_string(), 2)]);
    let wire = cast_to_coreconf(&Val::Text("down".to_string()), &t, None).unwrap();
    assert_eq!(wire, Val::Int(2));
    let back = cast_from_coreconf(&Val::Int(2), &t, None, "m").unwrap();
    assert_eq!(back, Val::Text("down".to_string()));
    let unknown = cast_to_coreconf(&Val::Text("sideways".to_string()), &t, None);
    assert!(matches!(
        unknown,
        Err(coreconf::CoreconfError::TypeConversion(_))
    ));
}

#[test]
fn test_cast_union_first_success_wins() {
    let t = YangType::Union(vec![YangType::Uint8, YangType::String]);
    let as_num = cast_to_coreconf(&Val::Int(7), &t, None).unwrap();
    assert_eq!(as_num, Val::UInt(7));
    let as_text = cast_to_coreconf(&Val::Bool(true), &t, None).unwrap();
    // Uint8 fails on a boolean, the string member coerces it to "".
    assert_eq!(as_text, Val::Text(String::new()));
}
