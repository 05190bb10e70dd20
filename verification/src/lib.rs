//! CORECONF core: a SID catalog, a JSON/CBOR transcoder driven by SID
//! deltas, an instance-identifier codec, an in-memory YANG datastore,
//! and the request handler and builder around them.

pub mod b64;
pub mod cbor;
pub mod coap_types;
pub mod coreconf;
pub mod datastore;
pub mod error;
pub mod handler;
pub mod instance_id;
pub mod json;
pub mod request_builder;
pub mod sid;
pub mod strutil;
pub mod yang;
pub mod value;

pub use coreconf::CoreconfModel;
pub use datastore::Datastore;
pub use error::CoreconfError;
pub use handler::RequestHandler;
pub use request_builder::RequestBuilder;
pub use sid::SidFile;
pub use yang::YangType;
pub use value::Val;
