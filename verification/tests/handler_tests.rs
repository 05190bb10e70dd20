//! Request handling.

use coreconf::coap_types::{ContentFormat, Method, Request, ResponseCode};
use coreconf::instance_id::{encode_instances, Instance, InstancePath};
use coreconf::{CoreconfModel, Datastore, RequestHandler, Val};

const SAMPLE_SID: &str = r#"{
    "assignment-range": [{"entry-point": 60000, "size": 10}],
    "module-name": "example-1",
    "module-revision": "unknown",
    "item": [
        {"namespace": "module", "identifier": "example-1", "sid": 60000},
        {"namespace": "data", "identifier": "/example-1:greeting", "sid": 60001},
        {"namespace": "data", "identifier": "/example-1:greeting/author", "sid": 60002, "type": "string"},
        {"namespace": "data", "identifier": "/example-1:greeting/message", "sid": 60003, "type": "string"}
    ],
    "key-mapping": {}
}"#;

fn create_handler() -> RequestHandler {
    let model = CoreconfModel::from_str(SAMPLE_SID).unwrap();
    let json = r#"{"example-1:greeting": {"author": "Obi", "message": "Hello!"}}"#;
    let datastore = Datastore::from_json(model, json).unwrap();
    RequestHandler::new(datastore)
}

#[test]
fn test_handle_get() {
    let mut handler = create_handler();
    let request = Request::new(Method::Get);
    let response = handler.handle(&request);

    assert!(response.code.is_success());
    assert!(!response.payload.is_empty());
}

#[test]
fn test_handle_ipatch() {
    let mut handler = create_handler();

    let mut path = InstancePath::new();
    path.push_delta(60002);
    let instance = Instance::new(path, Val::Text("Luke".into()));
    let payload = encode_instances(&vec![instance]).unwrap();

    let request =
        Request::new(Method::IPatch).with_payload(payload, ContentFormat::YangInstancesCborSeq);

    let response = handler.handle(&request);
    assert_eq!(response.code, ResponseCode::Changed);

    let value = handler.datastore().get_by_sid(60002).unwrap();
    assert_eq!(value, Some(Val::Text("Luke".into())));
}

#[test]
fn test_get_payload_decodes_to_datastore_tree() {
    // GET answers 2.05 and the payload decodes back to the stored tree;
    // on the wire the top-level key is the delta "60001" and the inner
    // keys are "1" and "2".
    let model = CoreconfModel::from_str(SAMPLE_SID).unwrap();
    let json = r#"{"example-1:greeting":{"author":"Obi","message":"Hi"}}"#;
    let datastore = Datastore::from_json(model.clone(), json).unwrap();
    let mut handler = RequestHandler::new(datastore);

    let response = handler.handle(&Request::new(Method::Get));
    assert_eq!(response.code, ResponseCode::Content);
    assert_eq!(
        response.content_format,
        Some(ContentFormat::YangDataCbor)
    );

    let decoded: ciborium::value::Value =
        ciborium::from_reader(response.payload.as_slice()).unwrap();
    match decoded {
        ciborium::value::Value::Map(outer) => {
            assert_eq!(outer.len(), 1);
            assert_eq!(
                outer[0].0,
                ciborium::value::Value::Text("60001".to_string())
            );
            match &outer[0].1 {
                ciborium::value::Value::Map(inner) => {
                    assert_eq!(
                        inner[0],
                        (
                            ciborium::value::Value::Text("1".to_string()),
                            ciborium::value::Value::Text("Obi".to_string())
                        )
                    );
                    assert_eq!(
                        inner[1],
                        (
                            ciborium::value::Value::Text("2".to_string()),
                            ciborium::value::Value::Text("Hi".to_string())
                        )
                    );
                }
                other => panic!("inner not a map: {:?}", other),
            }
        }
        other => panic!("outer not a map: {:?}", other),
    }

    let tree = model.to_value(&response.payload).unwrap();
    assert_eq!(
        tree,
        Val::Obj(vec![(
            "example-1:greeting".to_string(),
            Val::Obj(vec![
                ("author".to_string(), Val::Text("Obi".into())),
                ("message".to_string(), Val::Text("Hi".into())),
            ])
        )])
    );
}

#[test]
fn test_ipatch_delete_removes_key() {
    // iPATCH {60002: null} answers 2.04 and a follow-up read has no
    // author key any more.
    let mut handler = create_handler();
    let mut path = InstancePath::new();
    path.push_delta(60002);
    let payload = encode_instances(&vec![Instance::delete(path)]).unwrap();
    let request =
        Request::new(Method::IPatch).with_payload(payload, ContentFormat::YangInstancesCborSeq);

    let response = handler.handle(&request);
    assert_eq!(response.code, ResponseCode::Changed);
    assert_eq!(handler.datastore().get_by_sid(60002).unwrap(), None);
    let greeting = handler.datastore().get_by_sid(60001).unwrap().unwrap();
    assert_eq!(
        greeting,
        Val::Obj(vec![("message".to_string(), Val::Text("Hello!".into()))])
    );
}

#[test]
fn test_ipatch_wrong_format_is_unsupported() {
    // A well-formed payload under a format iPATCH does not take still
    // answers 4.15.
    let mut handler = create_handler();
    let mut path = InstancePath::new();
    path.push_delta(60002);
    let payload = encode_instances(&vec![Instance::new(path, Val::Text("x".into()))]).unwrap();
    let request =
        Request::new(Method::IPatch).with_payload(payload, ContentFormat::YangIdentifiersCbor);
    let response = handler.handle(&request);
    assert_eq!(response.code, ResponseCode::UnsupportedContentFormat);
    // Nothing was applied.
    assert_eq!(
        handler.datastore().get_by_sid(60002).unwrap(),
        Some(Val::Text("Obi".into()))
    );
}

#[test]
fn test_fetch_wrong_format_is_unsupported() {
    // FETCH takes 311 and 112 only, even when the payload would parse.
    let mut handler = create_handler();
    let mut path = InstancePath::new();
    path.push_delta(60002);
    let payload = path.encode_cbor().unwrap();
    let request =
        Request::new(Method::Fetch).with_payload(payload, ContentFormat::YangInstancesCborSeq);
    let response = handler.handle(&request);
    assert_eq!(response.code, ResponseCode::UnsupportedContentFormat);
}

#[test]
fn test_ipatch_bad_payload_is_bad_request() {
    let mut handler = create_handler();
    let request = Request::new(Method::IPatch)
        .with_payload(vec![0xff, 0xff], ContentFormat::YangInstancesCborSeq);
    let response = handler.handle(&request);
    assert_eq!(response.code, ResponseCode::BadRequest);
}

#[test]
fn test_post_acknowledges_known_sid() {
    let mut handler = create_handler();
    let mut path = InstancePath::new();
    path.push_delta(60001);
    let payload = encode_instances(&vec![Instance::new(path, Val::Null)]).unwrap();
    let request =
        Request::new(Method::Post).with_payload(payload, ContentFormat::YangInstancesCborSeq);
    let response = handler.handle(&request);
    assert_eq!(response.code, ResponseCode::Changed);
    let results = coreconf::instance_id::decode_instances(&response.payload).unwrap();
    assert_eq!(results.len(), 1);
    assert_eq!(results[0].path.absolute_sid(), Some(60001));
    assert_eq!(results[0].value, None);
}

#[test]
fn test_post_unknown_sid_is_not_found() {
    let mut handler = create_handler();
    let mut path = InstancePath::new();
    path.push_delta(99999);
    let payload = encode_instances(&vec![Instance::new(path, Val::Null)]).unwrap();
    let request =
        Request::new(Method::Post).with_payload(payload, ContentFormat::YangInstancesCborSeq);
    let response = handler.handle(&request);
    assert_eq!(response.code, ResponseCode::NotFound);
}

#[test]
fn test_ipatch_twice_same_payload_same_state() {
    // Applying the same iPATCH set twice leaves the datastore exactly
    // as applying it once.
    let mut path = InstancePath::new();
    path.push_delta(60002);
    let payload =
        encode_instances(&vec![Instance::new(path, Val::Text("General Kenobi".into()))]).unwrap();

    let mut once = create_handler();
    let req1 = Request::new(Method::IPatch)
        .with_payload(payload.clone(), ContentFormat::YangInstancesCborSeq);
    once.handle(&req1);
    let state_once = once.datastore().get_all().dup();

    let mut twice = create_handler();
    let req2 = Request::new(Method::IPatch)
        .with_payload(payload.clone(), ContentFormat::YangInstancesCborSeq);
    let req3 =
        Request::new(Method::IPatch).with_payload(payload, ContentFormat::YangInstancesCborSeq);
    twice.handle(&req2);
    let r = twice.handle(&req3);
    assert_eq!(r.code, ResponseCode::Changed);
    assert_eq!(*twice.datastore().get_all(), state_once);
}
