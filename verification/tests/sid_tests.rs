//! Catalog loading and lookup.

use coreconf::{SidFile, YangType};

const SAMPLE_SID: &str = r#"{
    "assignment-range": [{"entry-point": 60000, "size": 10}],
    "module-name": "example-1",
    "module-revision": "unknown",
    "item": [
        {"namespace": "module", "identifier": "example-1", "status": "unstable", "sid": 60000},
        {"namespace": "data", "identifier": "/example-1:greeting", "status": "unstable", "sid": 60001},
        {"namespace": "data", "identifier": "/example-1:greeting/author", "status": "unstable", "sid": 60002, "type": "string"},
        {"namespace": "data", "identifier": "/example-1:greeting/message", "status": "unstable", "sid": 60003, "type": "string"}
    ],
    "key-mapping": {}
}"#;

#[test]
fn test_parse_sid_file() {
    let sid_file: SidFile = SAMPLE_SID.parse().unwrap();

    assert_eq!(sid_file.module_name, "example-1");
    assert_eq!(sid_file.module_revision, "unknown");
    assert_eq!(sid_file.module_prefix, "/example-1:");
}

#[test]
fn test_sid_lookup() {
    let sid_file: SidFile = SAMPLE_SID.parse().unwrap();

    assert_eq!(sid_file.get_sid("/example-1:greeting"), Some(60001));
    assert_eq!(sid_file.get_sid("/example-1:greeting/author"), Some(60002));
    assert_eq!(
        sid_file.get_identifier(60003),
        Some("/example-1:greeting/message")
    );
}

#[test]
fn test_type_lookup() {
    let sid_file: SidFile = SAMPLE_SID.parse().unwrap();

    assert_eq!(
        sid_file.get_type("/example-1:greeting/author"),
        Some(&YangType::String)
    );
}

#[test]
fn test_items_alias_accepted() {
    let alias = r#"{
        "module-name": "m",
        "module-revision": "r",
        "items": [
            {"identifier": "m", "sid": 1},
            {"identifier": "/m:leaf", "sid": 2, "type": "uint8"}
        ]
    }"#;
    let sid_file: SidFile = alias.parse().unwrap();
    assert_eq!(sid_file.get_sid("/m:leaf"), Some(2));
    assert_eq!(sid_file.get_type("/m:leaf"), Some(&YangType::Uint8));
}

#[test]
fn test_key_mapping_parsed() {
    let text = r#"{
        "module-name": "m",
        "module-revision": "r",
        "item": [{"identifier": "m", "sid": 1}],
        "key-mapping": {"1700": [1701, 1702]}
    }"#;
    let sid_file: SidFile = text.parse().unwrap();
    assert_eq!(sid_file.get_keys(1700), Some(&vec![1701i64, 1702i64]));
    assert_eq!(sid_file.get_keys(9), None);
}

#[test]
fn test_malformed_sid_file_refused() {
    let r = SidFile::from_json_str("not json at all");
    assert!(matches!(r, Err(coreconf::CoreconfError::InvalidSidFile(_))));

    let missing = r#"{"module-name": "m"}"#;
    let r2 = SidFile::from_json_str(missing);
    assert!(matches!(r2, Err(coreconf::CoreconfError::InvalidSidFile(_))));
}

#[test]
fn test_duplicate_sid_keeps_first_binding() {
    let text = r#"{
        "module-name": "m",
        "module-revision": "r",
        "item": [
            {"identifier": "/m:a", "sid": 5},
            {"identifier": "/m:b", "sid": 5}
        ]
    }"#;
    let sid_file: SidFile = text.parse().unwrap();
    assert_eq!(sid_file.get_sid("/m:a"), Some(5));
    assert_eq!(sid_file.get_sid("/m:b"), None);
    assert_eq!(sid_file.get_identifier(5), Some("/m:a"));
}
