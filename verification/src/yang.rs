//! YANG base types and the two type-directed casting functions between
//! the JSON-side and wire-side value forms.

use vstd::prelude::*;
use vstd::string::*;
use crate::b64::{b64_decode, b64_encode, b64_of, spec_b64_decode};
use crate::error::{CoreconfError, SpecErr, err_matches};
use crate::sid::SidFile;
use crate::strutil::{find_char_from, find_from, parse_i64_str, parse_int_i64, parse_int_u64,
    parse_u64_str, str_concat, str_eq, substring};
use crate::value::{SpecVal, Val};

verus! {

broadcast use vstd::std_specs::vec::group_vec_axioms;

/// The YANG base types the catalog can record.
#[derive(Debug, PartialEq, Eq)]
pub enum YangType {
    String,
    Int8,
    Int16,
    Int32,
    Int64,
    Uint8,
    Uint16,
    Uint32,
    Uint64,
    Decimal64,
    Binary,
    Boolean,
    Empty,
    Identityref,
    Leafref,
    InstanceIdentifier,
    Bits,
    Uri,
    /// Enumeration, label to value.
    Enumeration(Vec<(String, i64)>),
    /// Union of member types, tried in order.
    Union(Vec<YangType>),
    /// A type name this catalog does not know.
    Unknown(String),
}

/// Mathematical model of a YANG type.
pub enum SpecYang {
    String,
    Int8,
    Int16,
    Int32,
    Int64,
    Uint8,
    Uint16,
    Uint32,
    Uint64,
    Decimal64,
    Binary,
    Boolean,
    Empty,
    Identityref,
    Leafref,
    InstanceIdentifier,
    Bits,
    Uri,
    Enumeration(Seq<(Seq<char>, i64)>),
    Union(Seq<SpecYang>),
    Unknown(Seq<char>),
}

pub open spec fn view_enum_entries(entries: Seq<(String, i64)>) -> Seq<(Seq<char>, i64)> {
    Seq::new(entries.len(), |i: int| (entries[i].0@, entries[i].1))
}

pub open spec fn view_members(ts: Seq<YangType>) -> Seq<SpecYang>
    decreases ts,
{
    Seq::new(
        ts.len(),
        |i: int|
            if 0 <= i < ts.len() {
                ts[i]@
            } else {
                SpecYang::String
            },
    )
}

impl View for YangType {
    type V = SpecYang;

    open spec fn view(&self) -> SpecYang
        decreases self,
    {
        match self {
            YangType::String => SpecYang::String,
            YangType::Int8 => SpecYang::Int8,
            YangType::Int16 => SpecYang::Int16,
            YangType::Int32 => SpecYang::Int32,
            YangType::Int64 => SpecYang::Int64,
            YangType::Uint8 => SpecYang::Uint8,
            YangType::Uint16 => SpecYang::Uint16,
            YangType::Uint32 => SpecYang::Uint32,
            YangType::Uint64 => SpecYang::Uint64,
            YangType::Decimal64 => SpecYang::Decimal64,
            YangType::Binary => SpecYang::Binary,
            YangType::Boolean => SpecYang::Boolean,
            YangType::Empty => SpecYang::Empty,
            YangType::Identityref => SpecYang::Identityref,
            YangType::Leafref => SpecYang::Leafref,
            YangType::InstanceIdentifier => SpecYang::InstanceIdentifier,
            YangType::Bits => SpecYang::Bits,
            YangType::Uri => SpecYang::Uri,
            YangType::Enumeration(m) => SpecYang::Enumeration(view_enum_entries(m@)),
            YangType::Union(ts) => SpecYang::Union(view_members(ts@)),
            YangType::Unknown(s) => SpecYang::Unknown(s@),
        }
    }
}

pub open spec fn spec_from_string(s: Seq<char>) -> SpecYang {
    if s == "string"@ {
        SpecYang::String
    } else if s == "int8"@ {
        SpecYang::Int8
    } else if s == "int16"@ {
        SpecYang::Int16
    } else if s == "int32"@ {
        SpecYang::Int32
    } else if s == "int64"@ {
        SpecYang::Int64
    } else if s == "uint8"@ {
        SpecYang::Uint8
    } else if s == "uint16"@ {
        SpecYang::Uint16
    } else if s == "uint32"@ {
        SpecYang::Uint32
    } else if s == "uint64"@ {
        SpecYang::Uint64
    } else if s == "decimal64"@ {
        SpecYang::Decimal64
    } else if s == "binary"@ {
        SpecYang::Binary
    } else if s == "boolean"@ {
        SpecYang::Boolean
    } else if s == "empty"@ {
        SpecYang::Empty
    } else if s == "identityref"@ {
        SpecYang::Identityref
    } else if s == "leafref"@ {
        SpecYang::Leafref
    } else if s == "instance-identifier"@ {
        SpecYang::InstanceIdentifier
    } else if s == "bits"@ {
        SpecYang::Bits
    } else if s == "inet:uri"@ {
        SpecYang::Uri
    } else {
        SpecYang::Unknown(s)
    }
}

impl YangType {
    /// Reads a base type from its name.
    pub fn from_string(s: &str) -> (r: YangType)
        ensures
            r@ == spec_from_string(s@),
    {
        if str_eq(s, "string") {
            YangType::String
        } else if str_eq(s, "int8") {
            YangType::Int8
        } else if str_eq(s, "int16") {
            YangType::Int16
        } else if str_eq(s, "int32") {
            YangType::Int32
        } else if str_eq(s, "int64") {
            YangType::Int64
        } else if str_eq(s, "uint8") {
            YangType::Uint8
        } else if str_eq(s, "uint16") {
            YangType::Uint16
        } else if str_eq(s, "uint32") {
            YangType::Uint32
        } else if str_eq(s, "uint64") {
            YangType::Uint64
        } else if str_eq(s, "decimal64") {
            YangType::Decimal64
        } else if str_eq(s, "binary") {
            YangType::Binary
        } else if str_eq(s, "boolean") {
            YangType::Boolean
        } else if str_eq(s, "empty") {
            YangType::Empty
        } else if str_eq(s, "identityref") {
            YangType::Identityref
        } else if str_eq(s, "leafref") {
            YangType::Leafref
        } else if str_eq(s, "instance-identifier") {
            YangType::InstanceIdentifier
        } else if str_eq(s, "bits") {
            YangType::Bits
        } else if str_eq(s, "inet:uri") {
            YangType::Uri
        } else {
            let u = substring(s, 0, s.unicode_len());
            proof {
                assert(u@ =~= s@);
            }
            YangType::Unknown(u)
        }
    }

    /// Reads a type from a SID file's `type` field: a base type name,
    /// an enumeration map, or a union array.
    pub fn from_sid_type(type_value: &Val) -> (r: YangType)
        ensures
            r@ == spec_from_sid_type(type_value@),
    {
        match type_value {
            Val::Text(s) => Self::from_string(s.as_str()),
            Val::Obj(entries) => {
                let mut m: Vec<(String, i64)> = Vec::new();
                let mut i: usize = 0;
                #[verifier::loop_isolation(false)]
                while i < entries.len()
                    invariant
                        i <= entries.len(),
                        view_enum_entries(m@) =~= spec_enum_entries(
                            crate::value::view_entries(entries@),
                            i as int,
                        ),
                    decreases entries.len() - i,
                {
                    proof {
                        lemma_enum_entries_snoc(crate::value::view_entries(entries@), i as int);
                    }
                    match &entries[i].1 {
                        Val::Text(name) => {
                            let label = substring(name.as_str(), 0, name.as_str().unicode_len());
                            proof {
                                assert(label@ =~= name@);
                            }
                            let value: i64 = match parse_i64_str(entries[i].0.as_str()) {
                                Some(n) => n,
                                None => 0,
                            };
                            m.push((label, value));
                            proof {
                                assert(view_enum_entries(m@) =~= spec_enum_entries(
                                    crate::value::view_entries(entries@),
                                    i + 1,
                                ));
                            }
                        },
                        _ => {
                            proof {
                                assert(view_enum_entries(m@) =~= spec_enum_entries(
                                    crate::value::view_entries(entries@),
                                    i + 1,
                                ));
                            }
                        },
                    }
                    i = i + 1;
                }
                YangType::Enumeration(m)
            },
            Val::Arr(items) => {
                let mut ts: Vec<YangType> = Vec::new();
                let mut i: usize = 0;
                #[verifier::loop_isolation(false)]
                while i < items.len()
                    invariant
                        i <= items.len(),
                        view_members(ts@) =~= spec_union_members(
                            crate::value::view_items(items@),
                            i as int,
                        ),
                    decreases items.len() - i,
                {
                    proof {
                        lemma_union_members_snoc(crate::value::view_items(items@), i as int);
                    }
                    match &items[i] {
                        Val::Text(name) => {
                            let t = Self::from_string(name.as_str());
                            ts.push(t);
                            proof {
                                assert(view_members(ts@) =~= spec_union_members(
                                    crate::value::view_items(items@),
                                    i + 1,
                                ));
                            }
                        },
                        _ => {
                            proof {
                                assert(view_members(ts@) =~= spec_union_members(
                                    crate::value::view_items(items@),
                                    i + 1,
                                ));
                            }
                        },
                    }
                    i = i + 1;
                }
                YangType::Union(ts)
            },
            _ => YangType::Unknown(crate::value::clone_string(&invalid_name())),
        }
    }
}

fn invalid_name() -> (r: String)
    ensures
        r@ == "invalid"@,
{
    String::from_str("invalid")
}

/// Enumeration entries read from the map entries before index `i`:
/// text-valued entries become (label, numeric key), others are skipped.
pub open spec fn spec_enum_entries(entries: Seq<(Seq<char>, SpecVal)>, i: int) -> Seq<
    (Seq<char>, i64),
>
    decreases i,
{
    if i <= 0 || i > entries.len() {
        Seq::empty()
    } else {
        let head = spec_enum_entries(entries, i - 1);
        match entries[i - 1].1 {
            SpecVal::Text(name) => head.push(
                (
                    name,
                    match parse_int_i64(entries[i - 1].0) {
                        Some(n) => n,
                        None => 0,
                    },
                ),
            ),
            _ => head,
        }
    }
}

/// Union members read from the array items before index `i`: text items
/// name base types, others are skipped.
pub open spec fn spec_union_members(items: Seq<SpecVal>, i: int) -> Seq<SpecYang>
    decreases i,
{
    if i <= 0 || i > items.len() {
        Seq::empty()
    } else {
        let head = spec_union_members(items, i - 1);
        match items[i - 1] {
            SpecVal::Text(name) => head.push(spec_from_string(name)),
            _ => head,
        }
    }
}

proof fn lemma_enum_entries_snoc(entries: Seq<(Seq<char>, SpecVal)>, i: int)
    requires
        0 <= i < entries.len(),
    ensures
        spec_enum_entries(entries, i + 1) == (match entries[i].1 {
            SpecVal::Text(name) => spec_enum_entries(entries, i).push(
                (
                    name,
                    match parse_int_i64(entries[i].0) {
                        Some(n) => n,
                        None => 0,
                    },
                ),
            ),
            _ => spec_enum_entries(entries, i),
        }),
{
}

proof fn lemma_union_members_snoc(items: Seq<SpecVal>, i: int)
    requires
        0 <= i < items.len(),
    ensures
        spec_union_members(items, i + 1) == (match items[i] {
            SpecVal::Text(name) => spec_union_members(items, i).push(spec_from_string(name)),
            _ => spec_union_members(items, i),
        }),
{
}

/// The type read from the `type` field of a SID file item.
pub open spec fn spec_from_sid_type(v: SpecVal) -> SpecYang {
    match v {
        SpecVal::Text(s) => spec_from_string(s),
        SpecVal::Obj(entries) => SpecYang::Enumeration(
            spec_enum_entries(entries, entries.len() as int),
        ),
        SpecVal::Arr(items) => SpecYang::Union(spec_union_members(items, items.len() as int)),
        _ => SpecYang::Unknown("invalid"@),
    }
}

pub open spec fn spec_opt_cat(o: Option<&SidFile>) -> Option<SidFile> {
    match o {
        Some(f) => Some(*f),
        None => None,
    }
}

/// What a value means as a signed 64-bit integer: a number in range,
/// or a decimal string.
pub open spec fn spec_value_to_i64(v: SpecVal) -> Option<i64> {
    match v {
        SpecVal::Int(n) => if i64::MIN <= n <= i64::MAX {
            Some(n as i64)
        } else {
            None
        },
        SpecVal::Text(s) => parse_int_i64(s),
        _ => None,
    }
}

/// What a value means as an unsigned 64-bit integer.
pub open spec fn spec_value_to_u64(v: SpecVal) -> Option<u64> {
    match v {
        SpecVal::Int(n) => if 0 <= n <= u64::MAX {
            Some(n as u64)
        } else {
            None
        },
        SpecVal::Text(s) => parse_int_u64(s),
        _ => None,
    }
}

/// First value bound to an enumeration label at or after index `i`.
pub open spec fn find_enum_val(em: Seq<(Seq<char>, i64)>, label: Seq<char>, i: int) -> Option<i64>
    decreases em.len() - i,
{
    if i < 0 || i >= em.len() {
        None
    } else if em[i].0 == label {
        Some(em[i].1)
    } else {
        find_enum_val(em, label, i + 1)
    }
}

/// First label bound to an enumeration value at or after index `i`.
pub open spec fn find_enum_label(em: Seq<(Seq<char>, i64)>, value: i64, i: int) -> Option<
    Seq<char>,
>
    decreases em.len() - i,
{
    if i < 0 || i >= em.len() {
        None
    } else if em[i].1 == value {
        Some(em[i].0)
    } else {
        find_enum_label(em, value, i + 1)
    }
}

/// Bytes read from an array of numbers, low byte of each non-negative
/// number, as the wire-to-base64 direction collects them.
pub open spec fn arr_bytes(items: Seq<SpecVal>, i: int) -> Seq<u8>
    decreases i,
{
    if i <= 0 || i > items.len() {
        Seq::empty()
    } else {
        arr_bytes(items, i - 1) + (match items[i - 1] {
            SpecVal::Int(n) => if 0 <= n <= u64::MAX {
                seq![(n % 256) as u8]
            } else {
                Seq::empty()
            },
            _ => Seq::empty(),
        })
    }
}

/// The JSON-to-wire cast, directed by the YANG type.
pub open spec fn spec_cast_to(v: SpecVal, t: SpecYang, cat: Option<SidFile>) -> Result<
    SpecVal,
    SpecErr,
>
    decreases t, 0int,
{
    match t {
        SpecYang::String | SpecYang::Uri => Ok(
            SpecVal::Text(
                match v {
                    SpecVal::Text(s) => s,
                    _ => Seq::empty(),
                },
            ),
        ),
        SpecYang::Int8 | SpecYang::Int16 | SpecYang::Int32 | SpecYang::Int64 => match
            spec_value_to_i64(v) {
            Some(n) => Ok(SpecVal::Int(n as int)),
            None => Err(SpecErr::TypeConversion),
        },
        SpecYang::Uint8 | SpecYang::Uint16 | SpecYang::Uint32 | SpecYang::Uint64 => match
            spec_value_to_u64(v) {
            Some(n) => Ok(SpecVal::Int(n as int)),
            None => Err(SpecErr::TypeConversion),
        },
        SpecYang::Decimal64 => match v {
            SpecVal::Int(n) => Ok(SpecVal::Int(n)),
            SpecVal::Text(s) => match parse_int_i64(s) {
                Some(n) => Ok(SpecVal::Int(n as int)),
                None => Err(SpecErr::TypeConversion),
            },
            _ => Err(SpecErr::TypeConversion),
        },
        SpecYang::Binary => {
            let s = match v {
                SpecVal::Text(s) => s,
                _ => Seq::empty(),
            };
            match spec_b64_decode(s) {
                Some(bs) => Ok(SpecVal::Bytes(bs)),
                None => Err(SpecErr::TypeConversion),
            }
        },
        SpecYang::Boolean => Ok(
            SpecVal::Bool(
                match v {
                    SpecVal::Bool(b) => b,
                    SpecVal::Text(s) => s == "true"@,
                    _ => false,
                },
            ),
        ),
        SpecYang::Identityref => {
            match v {
                SpecVal::Text(s) => match cat {
                    Some(f) => match find_from(s, ':', 0) {
                        Some(j) => match f.spec_get_sid(s.skip(j + 1)) {
                            Some(sid) => Ok(SpecVal::Int(sid as int)),
                            None => Ok(v),
                        },
                        None => Ok(v),
                    },
                    None => Ok(v),
                },
                _ => Ok(v),
            }
        },
        SpecYang::Enumeration(em) => {
            let by_label = match v {
                SpecVal::Text(s) => find_enum_val(em, s, 0),
                _ => None,
            };
            match by_label {
                Some(val) => Ok(SpecVal::Int(val as int)),
                None => match v {
                    SpecVal::Int(n) => if i64::MIN <= n <= i64::MAX {
                        Ok(SpecVal::Int(n))
                    } else {
                        Err(SpecErr::TypeConversion)
                    },
                    _ => Err(SpecErr::TypeConversion),
                },
            }
        },
        SpecYang::Empty | SpecYang::Leafref | SpecYang::InstanceIdentifier | SpecYang::Bits => Ok(
            v,
        ),
        SpecYang::Union(ts) => spec_cast_to_union(v, ts, 0, cat),
        SpecYang::Unknown(_) => Ok(v),
    }
}

/// Union members tried in order; the first success wins, and a union
/// with no successful member passes the value through.
pub open spec fn spec_cast_to_union(
    v: SpecVal,
    ts: Seq<SpecYang>,
    i: int,
    cat: Option<SidFile>,
) -> Result<SpecVal, SpecErr>
    decreases ts, ts.len() - i,
{
    if i < 0 || i >= ts.len() {
        Ok(v)
    } else {
        match spec_cast_to(v, ts[i], cat) {
            Ok(r) => Ok(r),
            Err(_) => spec_cast_to_union(v, ts, i + 1, cat),
        }
    }
}

/// The wire-to-JSON cast, directed by the YANG type; it never fails.
pub open spec fn spec_cast_from(
    v: SpecVal,
    t: SpecYang,
    cat: Option<SidFile>,
    module_name: Seq<char>,
) -> SpecVal
    decreases t, 0int,
{
    match t {
        SpecYang::String | SpecYang::Uri => SpecVal::Text(
            match v {
                SpecVal::Text(s) => s,
                _ => Seq::empty(),
            },
        ),
        SpecYang::Int8 | SpecYang::Int16 | SpecYang::Int32 | SpecYang::Int64 | SpecYang::Uint8
            | SpecYang::Uint16 | SpecYang::Uint32 | SpecYang::Uint64 => v,
        SpecYang::Decimal64 => v,
        SpecYang::Binary => match v {
            SpecVal::Bytes(b) => SpecVal::Text(b64_of(b)),
            SpecVal::Arr(items) => SpecVal::Text(b64_of(arr_bytes(items, items.len() as int))),
            _ => v,
        },
        SpecYang::Boolean => SpecVal::Bool(
            match v {
                SpecVal::Bool(b) => b,
                _ => false,
            },
        ),
        SpecYang::Identityref => match v {
            SpecVal::Int(n) => if i64::MIN <= n <= i64::MAX {
                match cat {
                    Some(f) => match f.spec_get_identifier(n as i64) {
                        Some(id) => SpecVal::Text(module_name + ":"@ + id),
                        None => v,
                    },
                    None => v,
                }
            } else {
                v
            },
            _ => v,
        },
        SpecYang::Enumeration(em) => match v {
            SpecVal::Int(n) => if i64::MIN <= n <= i64::MAX {
                match find_enum_label(em, n as i64, 0) {
                    Some(label) => SpecVal::Text(label),
                    None => v,
                }
            } else {
                v
            },
            _ => v,
        },
        SpecYang::Empty | SpecYang::Leafref | SpecYang::InstanceIdentifier | SpecYang::Bits => v,
        SpecYang::Union(ts) => if ts.len() == 0 {
            v
        } else {
            spec_cast_from(v, ts[0], cat, module_name)
        },
        SpecYang::Unknown(_) => v,
    }
}

fn value_to_i64(value: &Val) -> (r: Result<i64, CoreconfError>)
    ensures
        match r {
            Ok(n) => spec_value_to_i64(value@) == Some(n),
            Err(e) => spec_value_to_i64(value@) is None && e is TypeConversion,
        },
{
    match value {
        Val::Int(n) => Ok(*n),
        Val::UInt(n) => {
            if *n <= 0x7fffffffffffffffu64 {
                Ok(*n as i64)
            } else {
                Err(conv_err())
            }
        },
        Val::Text(s) => match parse_i64_str(s.as_str()) {
            Some(n) => Ok(n),
            None => Err(conv_err()),
        },
        _ => Err(conv_err()),
    }
}

fn value_to_u64(value: &Val) -> (r: Result<u64, CoreconfError>)
    ensures
        match r {
            Ok(n) => spec_value_to_u64(value@) == Some(n),
            Err(e) => spec_value_to_u64(value@) is None && e is TypeConversion,
        },
{
    match value {
        Val::Int(n) => {
            if *n >= 0 {
                Ok(*n as u64)
            } else {
                Err(conv_err())
            }
        },
        Val::UInt(n) => Ok(*n),
        Val::Text(s) => match parse_u64_str(s.as_str()) {
            Some(n) => Ok(n),
            None => Err(conv_err()),
        },
        _ => Err(conv_err()),
    }
}

fn conv_err() -> (r: CoreconfError)
    ensures
        r is TypeConversion,
{
    CoreconfError::TypeConversion(String::from_str("value does not fit the YANG type"))
}

fn find_enum_val_at(em: &Vec<(String, i64)>, label: &str, i: usize) -> (r: Option<i64>)
    requires
        i <= em@.len(),
    ensures
        r == find_enum_val(view_enum_entries(em@), label@, i as int),
    decreases em@.len() - i,
{
    if i >= em.len() {
        None
    } else if str_eq(em[i].0.as_str(), label) {
        Some(em[i].1)
    } else {
        find_enum_val_at(em, label, i + 1)
    }
}

fn find_enum_label_at<'a>(em: &'a Vec<(String, i64)>, value: i64, i: usize) -> (r: Option<
    &'a String,
>)
    requires
        i <= em@.len(),
    ensures
        match r {
            Some(s) => find_enum_label(view_enum_entries(em@), value, i as int) == Some(s@),
            None => find_enum_label(view_enum_entries(em@), value, i as int) is None,
        },
    decreases em@.len() - i,
{
    if i >= em.len() {
        None
    } else if em[i].1 == value {
        Some(&em[i].0)
    } else {
        find_enum_label_at(em, value, i + 1)
    }
}

proof fn lemma_union_prefix_err(
    v: SpecVal,
    ts: Seq<SpecYang>,
    i: int,
    cat: Option<SidFile>,
)
    requires
        0 <= i <= ts.len(),
        forall|j: int| 0 <= j < i ==> spec_cast_to(v, #[trigger] ts[j], cat) is Err,
    ensures
        spec_cast_to_union(v, ts, 0, cat) == spec_cast_to_union(v, ts, i, cat),
    decreases i,
{
    if i > 0 {
        lemma_union_prefix_err(v, ts, i - 1, cat);
    }
}

/// Casts a JSON-side value to its wire form under the YANG type; the
/// optional catalog resolves identityref names to SIDs.
pub fn cast_to_coreconf(value: &Val, yang_type: &YangType, sid_lookup: Option<&SidFile>) -> (r:
    Result<Val, CoreconfError>)
    ensures
        match r {
            Ok(w) => spec_cast_to(value@, yang_type@, spec_opt_cat(sid_lookup)) == Ok::<
                SpecVal,
                SpecErr,
            >(w@),
            Err(e) => spec_cast_to(value@, yang_type@, spec_opt_cat(sid_lookup)) matches Err(se)
                && err_matches(e, se),
        },
    decreases yang_type,
{
    let ghost cat = spec_opt_cat(sid_lookup);
    match yang_type {
        YangType::String | YangType::Uri => {
            match value {
                Val::Text(s) => Ok(Val::Text(crate::value::clone_string(s))),
                _ => {
                    let empty = String::new();
                    Ok(Val::Text(empty))
                },
            }
        },
        YangType::Int8 | YangType::Int16 | YangType::Int32 | YangType::Int64 => {
            match value_to_i64(value) {
                Ok(n) => Ok(Val::Int(n)),
                Err(e) => Err(e),
            }
        },
        YangType::Uint8 | YangType::Uint16 | YangType::Uint32 | YangType::Uint64 => {
            match value_to_u64(value) {
                Ok(n) => Ok(Val::UInt(n)),
                Err(e) => Err(e),
            }
        },
        YangType::Decimal64 => {
            match value {
                Val::Int(n) => Ok(Val::Int(*n)),
                Val::UInt(n) => Ok(Val::UInt(*n)),
                Val::Text(s) => match parse_i64_str(s.as_str()) {
                    Some(n) => Ok(Val::Int(n)),
                    None => Err(conv_err()),
                },
                _ => Err(conv_err()),
            }
        },
        YangType::Binary => {
            let decoded = match value {
                Val::Text(s) => b64_decode(s.as_str()),
                _ => {
                    proof {
                        reveal_strlit("");
                        assert(""@ =~= Seq::<char>::empty());
                    }
                    b64_decode("")
                },
            };
            let ghost s = match value@ {
                SpecVal::Text(t) => t,
                _ => Seq::<char>::empty(),
            };
            match decoded {
                Some(d) => {
                    proof {
                        let bs = choose|bs: Seq<u8>| b64_of(bs) == s;
                        assert(b64_of(d@) == s);
                        assert(bs == d@);
                    }
                    Ok(Val::Bytes(d))
                },
                None => {
                    proof {
                        if exists|bs: Seq<u8>| b64_of(bs) == s {
                            let bs = choose|bs: Seq<u8>| b64_of(bs) == s;
                            assert(false);
                        }
                    }
                    Err(conv_err())
                },
            }
        },
        YangType::Boolean => {
            let b = match value {
                Val::Bool(b) => *b,
                Val::Text(s) => str_eq(s.as_str(), "true"),
                _ => false,
            };
            Ok(Val::Bool(b))
        },
        YangType::Identityref => {
            match (value, sid_lookup) {
                (Val::Text(s), Some(f)) => {
                    let n = s.as_str().unicode_len();
                    match find_char_from(s.as_str(), ':', 0) {
                        Some(j) => {
                            let identity = substring(s.as_str(), j + 1, n);
                            proof {
                                assert(identity@ =~= s@.skip(j + 1));
                            }
                            match f.get_sid(identity.as_str()) {
                                Some(sid) => Ok(Val::Int(sid)),
                                None => Ok(value.dup()),
                            }
                        },
                        None => Ok(value.dup()),
                    }
                },
                _ => Ok(value.dup()),
            }
        },
        YangType::Enumeration(em) => {
            let by_label = match value {
                Val::Text(s) => find_enum_val_at(em, s.as_str(), 0),
                _ => None,
            };
            match by_label {
                Some(val) => Ok(Val::Int(val)),
                None => match value {
                    Val::Int(n) => Ok(Val::Int(*n)),
                    Val::UInt(n) => {
                        if *n <= 0x7fffffffffffffffu64 {
                            Ok(Val::UInt(*n))
                        } else {
                            Err(conv_err())
                        }
                    },
                    _ => Err(conv_err()),
                },
            }
        },
        YangType::Empty | YangType::Leafref | YangType::InstanceIdentifier | YangType::Bits => Ok(
            value.dup(),
        ),
        YangType::Union(ts) => {
            let mut i: usize = 0;
            #[verifier::loop_isolation(false)]
            while i < ts.len()
                invariant
                    i <= ts.len(),
                    forall|j: int|
                        0 <= j < i ==> spec_cast_to(
                            value@,
                            #[trigger] view_members(ts@)[j],
                            cat,
                        ) is Err,
                decreases ts.len() - i,
            {
                proof {
                    assert(decreases_to!(ts => ts@));
                    assert(decreases_to!(ts@ => ts@[i as int]));
                }
                let attempt = cast_to_coreconf(value, &ts[i], sid_lookup);
                match attempt {
                    Ok(w) => {
                        proof {
                            lemma_union_prefix_err(value@, view_members(ts@), i as int, cat);
                        }
                        return Ok(w);
                    },
                    Err(_) => {},
                }
                i = i + 1;
            }
            proof {
                lemma_union_prefix_err(value@, view_members(ts@), ts@.len() as int, cat);
            }
            Ok(value.dup())
        },
        YangType::Unknown(_) => Ok(value.dup()),
    }
}

/// Casts a wire value back to its JSON form under the YANG type; the
/// optional catalog resolves identityref SIDs to names, qualified by
/// the module name.
pub fn cast_from_coreconf(
    value: &Val,
    yang_type: &YangType,
    id_lookup: Option<&SidFile>,
    module_name: &str,
) -> (r: Result<Val, CoreconfError>)
    ensures
        r matches Ok(w) && w@ == spec_cast_from(
            value@,
            yang_type@,
            spec_opt_cat(id_lookup),
            module_name@,
        ),
    decreases yang_type,
{
    let ghost cat = spec_opt_cat(id_lookup);
    match yang_type {
        YangType::String | YangType::Uri => {
            match value {
                Val::Text(s) => Ok(Val::Text(crate::value::clone_string(s))),
                _ => Ok(Val::Text(String::new())),
            }
        },
        YangType::Int8 | YangType::Int16 | YangType::Int32 | YangType::Int64 | YangType::Uint8
            | YangType::Uint16 | YangType::Uint32 | YangType::Uint64 => Ok(value.dup()),
        YangType::Decimal64 => Ok(value.dup()),
        YangType::Binary => {
            match value {
                Val::Bytes(b) => {
                    let text = b64_encode(b.as_slice());
                    Ok(Val::Text(text))
                },
                Val::Arr(items) => {
                    let mut bytes: Vec<u8> = Vec::new();
                    let mut i: usize = 0;
                    #[verifier::loop_isolation(false)]
                    while i < items.len()
                        invariant
                            i <= items.len(),
                            bytes@ =~= arr_bytes(crate::value::view_items(items@), i as int),
                        decreases items.len() - i,
                    {
                        match &items[i] {
                            Val::Int(n) => {
                                if *n >= 0 {
                                    bytes.push((*n % 256) as u8);
                                }
                            },
                            Val::UInt(n) => {
                                bytes.push((*n % 256) as u8);
                            },
                            _ => {},
                        }
                        proof {
                            assert(bytes@ =~= arr_bytes(crate::value::view_items(items@), i + 1));
                        }
                        i = i + 1;
                    }
                    let text = b64_encode(bytes.as_slice());
                    Ok(Val::Text(text))
                },
                _ => Ok(value.dup()),
            }
        },
        YangType::Boolean => {
            let b = match value {
                Val::Bool(b) => *b,
                _ => false,
            };
            Ok(Val::Bool(b))
        },
        YangType::Identityref => {
            let as_sid: Option<i64> = match value {
                Val::Int(n) => Some(*n),
                Val::UInt(n) => if *n <= 0x7fffffffffffffffu64 {
                    Some(*n as i64)
                } else {
                    None
                },
                _ => None,
            };
            match (as_sid, id_lookup) {
                (Some(sid), Some(f)) => {
                    match f.get_identifier(sid) {
                        Some(identifier) => {
                            let head = str_concat(module_name, ":");
                            let full = head.concat(identifier);
                            proof {
                                assert(full@ =~= module_name@ + ":"@ + identifier@);
                            }
                            Ok(Val::Text(full))
                        },
                        None => Ok(value.dup()),
                    }
                },
                _ => Ok(value.dup()),
            }
        },
        YangType::Enumeration(em) => {
            let as_num: Option<i64> = match value {
                Val::Int(n) => Some(*n),
                Val::UInt(n) => if *n <= 0x7fffffffffffffffu64 {
                    Some(*n as i64)
                } else {
                    None
                },
                _ => None,
            };
            match as_num {
                Some(n) => {
                    match find_enum_label_at(em, n, 0) {
                        Some(label) => Ok(Val::Text(crate::value::clone_string(label))),
                        None => Ok(value.dup()),
                    }
                },
                None => Ok(value.dup()),
            }
        },
        YangType::Empty | YangType::Leafref | YangType::InstanceIdentifier | YangType::Bits => Ok(
            value.dup(),
        ),
        YangType::Union(ts) => {
            if ts.len() > 0 {
                proof {
                    assert(decreases_to!(ts => ts@));
                    assert(decreases_to!(ts@ => ts@[0int]));
                }
                cast_from_coreconf(value, &ts[0], id_lookup, module_name)
            } else {
                Ok(value.dup())
            }
        },
        YangType::Unknown(_) => Ok(value.dup()),
    }
}

impl Clone for YangType {
    /// An exact copy, specified through the view.
    fn clone(&self) -> (r: Self)
        ensures
            r@ == self@,
        decreases self,
    {
        match self {
            YangType::String => YangType::String,
            YangType::Int8 => YangType::Int8,
            YangType::Int16 => YangType::Int16,
            YangType::Int32 => YangType::Int32,
            YangType::Int64 => YangType::Int64,
            YangType::Uint8 => YangType::Uint8,
            YangType::Uint16 => YangType::Uint16,
            YangType::Uint32 => YangType::Uint32,
            YangType::Uint64 => YangType::Uint64,
            YangType::Decimal64 => YangType::Decimal64,
            YangType::Binary => YangType::Binary,
            YangType::Boolean => YangType::Boolean,
            YangType::Empty => YangType::Empty,
            YangType::Identityref => YangType::Identityref,
            YangType::Leafref => YangType::Leafref,
            YangType::InstanceIdentifier => YangType::InstanceIdentifier,
            YangType::Bits => YangType::Bits,
            YangType::Uri => YangType::Uri,
            YangType::Enumeration(m) => {
                let mut out: Vec<(String, i64)> = Vec::new();
                let mut i: usize = 0;
                #[verifier::loop_isolation(false)]
                while i < m.len()
                    invariant
                        i <= m.len(),
                        out@.len() == i as int,
                        forall|j: int|
                            0 <= j < i ==> out@[j].0@ == m@[j].0@ && out@[j].1 == m@[j].1,
                    decreases m.len() - i,
                {
                    let k = crate::value::clone_string(&m[i].0);
                    out.push((k, m[i].1));
                    i = i + 1;
                }
                proof {
                    assert(view_enum_entries(out@) =~= view_enum_entries(m@));
                }
                YangType::Enumeration(out)
            },
            YangType::Union(ts) => {
                let mut out: Vec<YangType> = Vec::new();
                let mut i: usize = 0;
                #[verifier::loop_isolation(false)]
                while i < ts.len()
                    invariant
                        i <= ts.len(),
                        out@.len() == i as int,
                        forall|j: int| 0 <= j < i ==> out@[j]@ == ts@[j]@,
                    decreases ts.len() - i,
                {
                    proof {
                        assert(decreases_to!(ts => ts@));
                        assert(decreases_to!(ts@ => ts@[i as int]));
                    }
                    let t = ts[i].clone();
                    out.push(t);
                    i = i + 1;
                }
                proof {
                    assert(view_members(out@) =~= view_members(ts@));
                }
                YangType::Union(out)
            },
            YangType::Unknown(s) => YangType::Unknown(crate::value::clone_string(s)),
        }
    }
}

} // verus!
