//! End-to-end: transcoding and the handler over one catalog.

use coreconf::coap_types::{ContentFormat, Method, Request, ResponseCode};
use coreconf::{CoreconfModel, Datastore, RequestBuilder, RequestHandler, Val};

const SAMPLE_SID: &str = r#"{
    "assignment-range": [{"entry-point": 60000, "size": 10}],
    "module-name": "example-1",
    "module-revision": "unknown",
    "item": [
        {"namespace": "module", "identifier": "example-1", "sid": 60000},
        {"namespace": "data", "identifier": "/example-1:greeting", "sid": 60001},
        {"namespace": "data", "identifier": "/example-1:greeting/author", "sid": 60002, "type": "string"},
        {"namespace": "data", "identifier": "/example-1:greeting/message", "sid": 60003, "type": "string"}
    ],
    "key-mapping": {}
}"#;

const SAMPLE_JSON: &str = r#"{"example-1:greeting": {"author": "Obi", "message": "Hello there!"}}"#;

#[test]
fn test_coreconf_roundtrip() {
    let model: CoreconfModel = SAMPLE_SID.parse().expect("Failed to parse SID");

    let cbor = model.to_coreconf(SAMPLE_JSON).expect("Failed to encode");
    assert!(!cbor.is_empty());

    let json = model.to_json(&cbor).expect("Failed to decode");

    let decoded: serde_json::Value = serde_json::from_str(&json).unwrap();
    assert_eq!(decoded["example-1:greeting"]["author"], "Obi");
    assert_eq!(decoded["example-1:greeting"]["message"], "Hello there!");
}

#[test]
fn test_handler_get() {
    let model: CoreconfModel = SAMPLE_SID.parse().unwrap();
    let datastore = Datastore::from_json(model, SAMPLE_JSON).unwrap();
    let mut handler = RequestHandler::new(datastore);

    let request = Request::new(Method::Get);
    let response = handler.handle(&request);

    assert!(response.code.is_success());
    assert!(!response.payload.is_empty());
}

#[test]
fn test_handler_fetch() {
    let model: CoreconfModel = SAMPLE_SID.parse().unwrap();
    let datastore = Datastore::from_json(model.clone(), SAMPLE_JSON).unwrap();
    let mut handler = RequestHandler::new(datastore);
    let builder = RequestBuilder::new(model);

    let payload = builder.build_fetch_sids(&vec![60002]).unwrap();
    let request =
        Request::new(Method::Fetch).with_payload(payload, ContentFormat::YangIdentifiersCbor);

    let response = handler.handle(&request);

    assert!(response.code.is_success());
}

#[test]
fn test_handler_ipatch() {
    let model: CoreconfModel = SAMPLE_SID.parse().unwrap();
    let datastore = Datastore::from_json(model.clone(), SAMPLE_JSON).unwrap();
    let mut handler = RequestHandler::new(datastore);
    let builder = RequestBuilder::new(model);

    let payload = builder
        .build_ipatch_sids(&vec![(60002, Some(Val::Text("General Kenobi".into())))])
        .unwrap();

    let request =
        Request::new(Method::IPatch).with_payload(payload, ContentFormat::YangInstancesCborSeq);

    let response = handler.handle(&request);
    assert!(response.code.is_success());

    let value = handler.datastore().get_by_sid(60002).unwrap();
    assert_eq!(value, Some(Val::Text("General Kenobi".into())));
}

#[test]
fn test_fetch_returns_requested_instance() {
    // FETCH of SID 60002 answers 2.05 and the response decodes to the
    // one instance {60002: "Obi"}.
    let model: CoreconfModel = SAMPLE_SID.parse().unwrap();
    let datastore = Datastore::from_json(model.clone(), SAMPLE_JSON).unwrap();
    let mut handler = RequestHandler::new(datastore);
    let builder = RequestBuilder::new(model);

    let payload = builder.build_fetch_sids(&vec![60002]).unwrap();
    let request =
        Request::new(Method::Fetch).with_payload(payload, ContentFormat::YangIdentifiersCbor);
    let response = handler.handle(&request);

    assert_eq!(response.code, ResponseCode::Content);
    assert_eq!(
        response.content_format,
        Some(ContentFormat::YangInstancesCborSeq)
    );
    let pairs = builder.parse_response(&response.payload).unwrap();
    assert_eq!(pairs, vec![(60002i64, Val::Text("Obi".into()))]);
}

#[test]
fn test_fetch_skips_unknown_sids() {
    // A FETCH naming a known and an unknown SID answers 2.05 with the
    // known instance only, not an error.
    let model: CoreconfModel = SAMPLE_SID.parse().unwrap();
    let datastore = Datastore::from_json(model.clone(), SAMPLE_JSON).unwrap();
    let mut handler = RequestHandler::new(datastore);
    let builder = RequestBuilder::new(model);

    let payload = builder.build_fetch_sids(&vec![99999, 60002]).unwrap();
    let request =
        Request::new(Method::Fetch).with_payload(payload, ContentFormat::YangIdentifiersCbor);
    let response = handler.handle(&request);

    assert_eq!(response.code, ResponseCode::Content);
    let pairs = builder.parse_response(&response.payload).unwrap();
    assert_eq!(pairs, vec![(60002i64, Val::Text("Obi".into()))]);
}

#[test]
fn test_fetch_only_unknown_sid_is_empty_content() {
    let model: CoreconfModel = SAMPLE_SID.parse().unwrap();
    let datastore = Datastore::from_json(model.clone(), SAMPLE_JSON).unwrap();
    let mut handler = RequestHandler::new(datastore);
    let builder = RequestBuilder::new(model);

    let payload = builder.build_fetch_sids(&vec![99999]).unwrap();
    let request =
        Request::new(Method::Fetch).with_payload(payload, ContentFormat::YangIdentifiersCbor);
    let response = handler.handle(&request);

    assert_eq!(response.code, ResponseCode::Content);
    assert!(response.payload.is_empty());
}

#[test]
fn test_ipatch_then_get_shows_change() {
    // iPATCH {60002: "General Kenobi"} answers 2.04 and a follow-up GET
    // carries the changed author.
    let model: CoreconfModel = SAMPLE_SID.parse().unwrap();
    let datastore = Datastore::from_json(model.clone(), SAMPLE_JSON).unwrap();
    let mut handler = RequestHandler::new(datastore);
    let builder = RequestBuilder::new(model.clone());

    let payload = builder
        .build_ipatch_sids(&vec![(60002, Some(Val::Text("General Kenobi".into())))])
        .unwrap();
    let patch =
        Request::new(Method::IPatch).with_payload(payload, ContentFormat::YangInstancesCborSeq);
    assert_eq!(handler.handle(&patch).code, ResponseCode::Changed);

    let get = handler.handle(&Request::new(Method::Get));
    assert_eq!(get.code, ResponseCode::Content);
    let tree = model.to_value(&get.payload).unwrap();
    assert_eq!(
        tree,
        Val::Obj(vec![(
            "example-1:greeting".to_string(),
            Val::Obj(vec![
                ("author".to_string(), Val::Text("General Kenobi".into())),
                ("message".to_string(), Val::Text("Hello there!".into())),
            ])
        )])
    );
}
