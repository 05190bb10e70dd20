//! Transport-facing types: content formats, methods, response codes,
//! query parameters, and the request/response pair.

use vstd::prelude::*;
use vstd::string::*;
use crate::strutil::{find_char_from, find_from, str_concat, str_eq, substring};

verus! {

/// Content-format identifiers used by the protocol.
#[derive(Debug, Clone, Copy, PartialEq, Eq, Structural, Hash)]
pub enum ContentFormat {
    /// application/yang-data+cbor (112)
    YangDataCbor,
    /// application/yang-identifiers+cbor (311)
    YangIdentifiersCbor,
    /// application/yang-instances+cbor-seq (313)
    YangInstancesCborSeq,
}

impl ContentFormat {
    pub open spec fn spec_from_u16(value: u16) -> Option<ContentFormat> {
        if value == 112 {
            Some(ContentFormat::YangDataCbor)
        } else if value == 311 {
            Some(ContentFormat::YangIdentifiersCbor)
        } else if value == 313 {
            Some(ContentFormat::YangInstancesCborSeq)
        } else {
            None
        }
    }

    /// Reads a raw content-format identifier.
    pub fn from_u16(value: u16) -> (r: Option<Self>)
        ensures
            r == Self::spec_from_u16(value),
    {
        match value {
            112 => Some(Self::YangDataCbor),
            311 => Some(Self::YangIdentifiersCbor),
            313 => Some(Self::YangInstancesCborSeq),
            _ => None,
        }
    }

    pub open spec fn spec_as_u16(self) -> u16 {
        match self {
            ContentFormat::YangDataCbor => 112,
            ContentFormat::YangIdentifiersCbor => 311,
            ContentFormat::YangInstancesCborSeq => 313,
        }
    }

    /// The raw content-format identifier.
    pub fn as_u16(self) -> (r: u16)
        ensures
            r == self.spec_as_u16(),
    {
        match self {
            Self::YangDataCbor => 112,
            Self::YangIdentifiersCbor => 311,
            Self::YangInstancesCborSeq => 313,
        }
    }
}

/// The four request methods.
#[derive(Debug, Clone, Copy, PartialEq, Eq, Structural)]
pub enum Method {
    /// Retrieve selected data nodes.
    Fetch,
    /// Retrieve the full datastore.
    Get,
    /// Modify data nodes; idempotent.
    IPatch,
    /// Invoke an RPC or action.
    Post,
}

impl Method {
    pub open spec fn spec_name(self) -> Seq<char> {
        match self {
            Method::Fetch => "FETCH"@,
            Method::Get => "GET"@,
            Method::IPatch => "iPATCH"@,
            Method::Post => "POST"@,
        }
    }

    /// The method's name on the wire.
    pub fn name(self) -> (r: String)
        ensures
            r@ == self.spec_name(),
    {
        match self {
            Method::Fetch => String::from_str("FETCH"),
            Method::Get => String::from_str("GET"),
            Method::IPatch => String::from_str("iPATCH"),
            Method::Post => String::from_str("POST"),
        }
    }
}

/// Response codes used by the handler.
#[derive(Debug, Clone, Copy, PartialEq, Eq, Structural)]
pub enum ResponseCode {
    /// 2.01
    Created,
    /// 2.04
    Changed,
    /// 2.05
    Content,
    /// 4.00
    BadRequest,
    /// 4.01
    Unauthorized,
    /// 4.02
    BadOption,
    /// 4.04
    NotFound,
    /// 4.05
    MethodNotAllowed,
    /// 4.08
    RequestEntityIncomplete,
    /// 4.09
    Conflict,
    /// 4.13
    RequestEntityTooLarge,
    /// 4.15
    UnsupportedContentFormat,
    /// 5.00
    InternalServerError,
}

impl ResponseCode {
    pub open spec fn spec_code_pair(self) -> (u8, u8) {
        match self {
            ResponseCode::Created => (2, 1),
            ResponseCode::Changed => (2, 4),
            ResponseCode::Content => (2, 5),
            ResponseCode::BadRequest => (4, 0),
            ResponseCode::Unauthorized => (4, 1),
            ResponseCode::BadOption => (4, 2),
            ResponseCode::NotFound => (4, 4),
            ResponseCode::MethodNotAllowed => (4, 5),
            ResponseCode::RequestEntityIncomplete => (4, 8),
            ResponseCode::Conflict => (4, 9),
            ResponseCode::RequestEntityTooLarge => (4, 13),
            ResponseCode::UnsupportedContentFormat => (4, 15),
            ResponseCode::InternalServerError => (5, 0),
        }
    }

    /// The class.detail pair of the code.
    pub fn to_code_pair(self) -> (r: (u8, u8))
        ensures
            r == self.spec_code_pair(),
    {
        match self {
            Self::Created => (2, 1),
            Self::Changed => (2, 4),
            Self::Content => (2, 5),
            Self::BadRequest => (4, 0),
            Self::Unauthorized => (4, 1),
            Self::BadOption => (4, 2),
            Self::NotFound => (4, 4),
            Self::MethodNotAllowed => (4, 5),
            Self::RequestEntityIncomplete => (4, 8),
            Self::Conflict => (4, 9),
            Self::RequestEntityTooLarge => (4, 13),
            Self::UnsupportedContentFormat => (4, 15),
            Self::InternalServerError => (5, 0),
        }
    }

    pub open spec fn spec_is_success(self) -> bool {
        self is Created || self is Changed || self is Content
    }

    /// Whether the code reports success.
    pub fn is_success(self) -> (r: bool)
        ensures
            r == self.spec_is_success(),
    {
        matches!(self, Self::Created | Self::Changed | Self::Content)
    }
}

/// The `c` (content) query parameter.
#[derive(Debug, Clone, Copy, PartialEq, Eq, Structural)]
pub enum ContentParam {
    /// Return all descendant data nodes.
    All,
    /// Return only configuration data nodes.
    Config,
    /// Return only non-configuration data nodes.
    Nonconfig,
}

impl Default for ContentParam {
    fn default() -> (r: Self)
        ensures
            r == ContentParam::All,
    {
        ContentParam::All
    }
}

impl ContentParam {
    pub open spec fn spec_from_str(s: Seq<char>) -> Option<ContentParam> {
        if s == "a"@ {
            Some(ContentParam::All)
        } else if s == "c"@ {
            Some(ContentParam::Config)
        } else if s == "n"@ {
            Some(ContentParam::Nonconfig)
        } else {
            None
        }
    }

    /// Reads the one-letter value of the `c` parameter.
    pub fn from_str(s: &str) -> (r: Option<Self>)
        ensures
            r == Self::spec_from_str(s@),
    {
        if str_eq(s, "a") {
            Some(Self::All)
        } else if str_eq(s, "c") {
            Some(Self::Config)
        } else if str_eq(s, "n") {
            Some(Self::Nonconfig)
        } else {
            None
        }
    }
}

/// The `d` (with-defaults) query parameter.
#[derive(Debug, Clone, Copy, PartialEq, Eq, Structural)]
pub enum DefaultsParam {
    /// Report-all mode.
    All,
    /// Trim mode: do not report defaults.
    Trim,
}

impl Default for DefaultsParam {
    fn default() -> (r: Self)
        ensures
            r == DefaultsParam::All,
    {
        DefaultsParam::All
    }
}

impl DefaultsParam {
    pub open spec fn spec_from_str(s: Seq<char>) -> Option<DefaultsParam> {
        if s == "a"@ {
            Some(DefaultsParam::All)
        } else if s == "t"@ {
            Some(DefaultsParam::Trim)
        } else {
            None
        }
    }

    /// Reads the one-letter value of the `d` parameter.
    pub fn from_str(s: &str) -> (r: Option<Self>)
        ensures
            r == Self::spec_from_str(s@),
    {
        if str_eq(s, "a") {
            Some(Self::All)
        } else if str_eq(s, "t") {
            Some(Self::Trim)
        } else {
            None
        }
    }
}

/// Parsed query parameters; advisory in this core.
#[derive(Debug, Clone, Copy, PartialEq, Eq, Structural)]
pub struct QueryParams {
    pub content: ContentParam,
    pub defaults: DefaultsParam,
}

impl Default for QueryParams {
    fn default() -> (r: Self)
        ensures
            r == (QueryParams { content: ContentParam::All, defaults: DefaultsParam::All }),
    {
        QueryParams { content: ContentParam::All, defaults: DefaultsParam::All }
    }
}

/// Effect of one `key=value` piece on the parameters so far.
pub open spec fn spec_apply_param(cur: QueryParams, part: Seq<char>) -> QueryParams {
    match find_from(part, '=', 0) {
        None => cur,
        Some(j) => {
            let key = part.take(j);
            let value = part.skip(j + 1);
            if key == "c"@ {
                match ContentParam::spec_from_str(value) {
                    Some(c) => QueryParams { content: c, ..cur },
                    None => cur,
                }
            } else if key == "d"@ {
                match DefaultsParam::spec_from_str(value) {
                    Some(d) => QueryParams { defaults: d, ..cur },
                    None => cur,
                }
            } else {
                cur
            }
        },
    }
}

/// The parameters after the `&`-separated pieces from position `i` on.
pub open spec fn spec_query_from(q: Seq<char>, i: int, cur: QueryParams) -> QueryParams
    decreases q.len() - i,
        via spec_query_from_dec
{
    if i < 0 || i >= q.len() {
        cur
    } else if q[i] == '&' {
        spec_query_from(q, i + 1, cur)
    } else {
        let j = amp_end(q, i);
        spec_query_from(q, j, spec_apply_param(cur, q.subrange(i, j)))
    }
}

/// Position of the next `&` at or after `i`, or the end of the string.
pub open spec fn amp_end(q: Seq<char>, i: int) -> int
    decreases q.len() - i,
{
    if i < 0 || i >= q.len() || q[i] == '&' {
        i
    } else {
        amp_end(q, i + 1)
    }
}

proof fn lemma_amp_end(q: Seq<char>, i: int)
    requires
        0 <= i <= q.len(),
    ensures
        i <= amp_end(q, i) <= q.len(),
        i < q.len() && q[i] != '&' ==> amp_end(q, i) > i,
    decreases q.len() - i,
{
    if i < q.len() && q[i] != '&' {
        lemma_amp_end(q, i + 1);
    }
}

#[via_fn]
proof fn spec_query_from_dec(q: Seq<char>, i: int, cur: QueryParams) {
    if 0 <= i < q.len() && q[i] != '&' {
        lemma_amp_end(q, i);
    }
}

fn find_amp_end(q: &str, i: usize) -> (r: usize)
    requires
        i <= q@.len(),
    ensures
        r == amp_end(q@, i as int),
        i <= r <= q@.len(),
    decreases q@.len() - i,
{
    proof {
        lemma_amp_end(q@, i as int);
    }
    if i >= q.unicode_len() {
        i
    } else if q.get_char(i) == '&' {
        i
    } else {
        find_amp_end(q, i + 1)
    }
}

fn query_from(q: &str, i: usize, cur: QueryParams) -> (r: QueryParams)
    requires
        i <= q@.len(),
    ensures
        r == spec_query_from(q@, i as int, cur),
    decreases q@.len() - i,
{
    if i >= q.unicode_len() {
        return cur;
    }
    if q.get_char(i) == '&' {
        return query_from(q, i + 1, cur);
    }
    let j = find_amp_end(q, i);
    proof {
        lemma_amp_end(q@, i as int);
    }
    let part = substring(q, i, j);
    let next = apply_param(cur, part.as_str());
    proof {
        assert(part@ == q@.subrange(i as int, j as int));
    }
    query_from(q, j, next)
}

fn apply_param(cur: QueryParams, part: &str) -> (r: QueryParams)
    ensures
        r == spec_apply_param(cur, part@),
{
    match find_char_from(part, '=', 0) {
        None => cur,
        Some(j) => {
            let n = part.unicode_len();
            let key = substring(part, 0, j);
            let value = substring(part, j + 1, n);
            proof {
                assert(key@ =~= part@.take(j as int));
                assert(value@ =~= part@.skip(j + 1));
            }
            if str_eq(key.as_str(), "c") {
                match ContentParam::from_str(value.as_str()) {
                    Some(c) => QueryParams { content: c, ..cur },
                    None => cur,
                }
            } else if str_eq(key.as_str(), "d") {
                match DefaultsParam::from_str(value.as_str()) {
                    Some(d) => QueryParams { defaults: d, ..cur },
                    None => cur,
                }
            } else {
                cur
            }
        },
    }
}

impl QueryParams {
    pub open spec fn spec_parse(q: Seq<char>) -> QueryParams {
        spec_query_from(
            q,
            0,
            QueryParams { content: ContentParam::All, defaults: DefaultsParam::All },
        )
    }

    /// Reads the `c` and `d` parameters from a query string; unknown
    /// keys and bad values are ignored.
    pub fn parse(query: &str) -> (r: Self)
        ensures
            r == Self::spec_parse(query@),
    {
        query_from(
            query,
            0,
            QueryParams { content: ContentParam::All, defaults: DefaultsParam::All },
        )
    }
}

/// A transport-agnostic request.
#[derive(Debug, Clone)]
pub struct Request {
    /// The request method.
    pub method: Method,
    /// The raw payload bytes.
    pub payload: Vec<u8>,
    /// Content format of the payload.
    pub content_format: Option<ContentFormat>,
    /// Parsed query parameters.
    pub query: QueryParams,
}

impl Request {
    /// A request with the given method and no payload.
    pub fn new(method: Method) -> (r: Self)
        ensures
            r.method == method,
            r.payload@ == Seq::<u8>::empty(),
            r.content_format is None,
            r.query == (QueryParams { content: ContentParam::All, defaults: DefaultsParam::All }),
    {
        Self {
            method,
            payload: Vec::new(),
            content_format: None,
            query: QueryParams { content: ContentParam::All, defaults: DefaultsParam::All },
        }
    }

    /// The same request, carrying the payload in the given format.
    pub fn with_payload(self, payload: Vec<u8>, format: ContentFormat) -> (r: Self)
        ensures
            r.method == self.method,
            r.payload@ == payload@,
            r.content_format == Some(format),
            r.query == self.query,
    {
        Self { payload, content_format: Some(format), ..self }
    }

    /// The same request with the given query parameters.
    pub fn with_query(self, query: QueryParams) -> (r: Self)
        ensures
            r.method == self.method,
            r.payload@ == self.payload@,
            r.content_format == self.content_format,
            r.query == query,
    {
        Self { query, ..self }
    }
}

/// A transport-agnostic response.
#[derive(Debug, Clone)]
pub struct Response {
    /// Response code.
    pub code: ResponseCode,
    /// The raw payload bytes.
    pub payload: Vec<u8>,
    /// Content format of the payload.
    pub content_format: Option<ContentFormat>,
}

impl Response {
    /// A 2.05 Content response carrying a payload.
    pub fn content(payload: Vec<u8>, format: ContentFormat) -> (r: Self)
        ensures
            r.code == ResponseCode::Content,
            r.payload@ == payload@,
            r.content_format == Some(format),
    {
        Self { code: ResponseCode::Content, payload, content_format: Some(format) }
    }

    /// A 2.04 Changed response with no payload.
    pub fn changed() -> (r: Self)
        ensures
            r.code == ResponseCode::Changed,
            r.payload@ == Seq::<u8>::empty(),
            r.content_format is None,
    {
        Self { code: ResponseCode::Changed, payload: Vec::new(), content_format: None }
    }

    /// An error response carrying a diagnostic message.
    pub fn error(code: ResponseCode, message: &str) -> (r: Self)
        ensures
            r.code == code,
            r.payload@ == vstd::utf8::encode_utf8(message@),
            r.content_format is None,
    {
        let bytes = message.as_bytes();
        let payload = vstd::slice::slice_to_vec(bytes);
        Self { code, payload, content_format: None }
    }

    /// A 4.04 Not Found response naming the missing resource.
    pub fn not_found(path: &str) -> (r: Self)
        ensures
            r.code == ResponseCode::NotFound,
            r.payload@ == vstd::utf8::encode_utf8("Resource not found: "@ + path@),
            r.content_format is None,
    {
        let msg = str_concat("Resource not found: ", path);
        Self::error(ResponseCode::NotFound, msg.as_str())
    }

    /// A 4.05 Method Not Allowed response naming the method.
    pub fn method_not_allowed(method: Method) -> (r: Self)
        ensures
            r.code == ResponseCode::MethodNotAllowed,
            r.payload@ == vstd::utf8::encode_utf8(
                "Method "@ + method.spec_name() + " not allowed"@,
            ),
            r.content_format is None,
    {
        let name = method.name();
        let head = str_concat("Method ", name.as_str());
        let msg = head.concat(" not allowed");
        Self::error(ResponseCode::MethodNotAllowed, msg.as_str())
    }
}

} // verus!
