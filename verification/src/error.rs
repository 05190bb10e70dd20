//! The closed set of error kinds; each maps to a response code.

use vstd::prelude::*;
use crate::strutil::{i64_to_string, str_concat};

verus! {

#[derive(Debug)]
pub enum CoreconfError {
    /// No SID is assigned to the identifier path.
    SidNotFound(String),
    /// No identifier path is assigned to the SID.
    IdentifierNotFound(i64),
    /// Malformed JSON text.
    Json(String),
    /// Malformed CBOR bytes.
    CborDecode(String),
    /// A value that the wire encoding cannot carry.
    CborEncode(String),
    /// A value did not fit the YANG type it was cast to.
    TypeConversion(String),
    /// Malformed SID file.
    InvalidSidFile(String),
    /// A change was rejected.
    ValidationError(String),
    /// No such resource.
    ResourceNotFound(String),
    /// The method is not allowed here.
    MethodNotAllowed(String),
    /// The request carried a content format this server does not take.
    UnsupportedContentFormat,
}

impl CoreconfError {
    /// A human-readable description, used as error response payload.
    pub fn describe(&self) -> (r: String)
        ensures
            r@ == self.spec_describe(),
    {
        match self {
            CoreconfError::SidNotFound(s) => str_concat("SID not found for identifier: ", s.as_str()),
            CoreconfError::IdentifierNotFound(sid) => {
                let n = i64_to_string(*sid);
                str_concat("Identifier not found for SID: ", n.as_str())
            },
            CoreconfError::Json(s) => str_concat("JSON error: ", s.as_str()),
            CoreconfError::CborDecode(s) => str_concat("CBOR decode error: ", s.as_str()),
            CoreconfError::CborEncode(s) => str_concat("CBOR encode error: ", s.as_str()),
            CoreconfError::TypeConversion(s) => str_concat("Type conversion error: ", s.as_str()),
            CoreconfError::InvalidSidFile(s) => str_concat("Invalid SID file: ", s.as_str()),
            CoreconfError::ValidationError(s) => str_concat("Validation error: ", s.as_str()),
            CoreconfError::ResourceNotFound(s) => str_concat("Resource not found: ", s.as_str()),
            CoreconfError::MethodNotAllowed(s) => str_concat("Method not allowed: ", s.as_str()),
            CoreconfError::UnsupportedContentFormat => String::from_str(
                "Unsupported content format",
            ),
        }
    }

    pub open spec fn spec_describe(&self) -> Seq<char> {
        match self {
            CoreconfError::SidNotFound(s) => "SID not found for identifier: "@ + s@,
            CoreconfError::IdentifierNotFound(sid) => "Identifier not found for SID: "@
                + crate::strutil::idec(*sid as int),
            CoreconfError::Json(s) => "JSON error: "@ + s@,
            CoreconfError::CborDecode(s) => "CBOR decode error: "@ + s@,
            CoreconfError::CborEncode(s) => "CBOR encode error: "@ + s@,
            CoreconfError::TypeConversion(s) => "Type conversion error: "@ + s@,
            CoreconfError::InvalidSidFile(s) => "Invalid SID file: "@ + s@,
            CoreconfError::ValidationError(s) => "Validation error: "@ + s@,
            CoreconfError::ResourceNotFound(s) => "Resource not found: "@ + s@,
            CoreconfError::MethodNotAllowed(s) => "Method not allowed: "@ + s@,
            CoreconfError::UnsupportedContentFormat => "Unsupported content format"@,
        }
    }
}

/// Error model for the specifications: the kind, and the datum it
/// carries where one is fixed (diagnostic wording is free).
pub enum SpecErr {
    SidNotFound(Seq<char>),
    IdentifierNotFound(int),
    Json,
    CborDecode,
    CborEncode,
    TypeConversion,
    InvalidSidFile,
    Validation,
    ResourceNotFound,
    MethodNotAllowed,
    UnsupportedContentFormat,
}

/// Whether an error value is of the modeled kind and carries its datum.
pub open spec fn err_matches(e: CoreconfError, s: SpecErr) -> bool {
    match s {
        SpecErr::SidNotFound(p) => e matches CoreconfError::SidNotFound(q) && q@ == p,
        SpecErr::IdentifierNotFound(n) => e matches CoreconfError::IdentifierNotFound(m) && m
            as int == n,
        SpecErr::Json => e is Json,
        SpecErr::CborDecode => e is CborDecode,
        SpecErr::CborEncode => e is CborEncode,
        SpecErr::TypeConversion => e is TypeConversion,
        SpecErr::InvalidSidFile => e is InvalidSidFile,
        SpecErr::Validation => e is ValidationError,
        SpecErr::ResourceNotFound => e is ResourceNotFound,
        SpecErr::MethodNotAllowed => e is MethodNotAllowed,
        SpecErr::UnsupportedContentFormat => e is UnsupportedContentFormat,
    }
}

} // verus!
