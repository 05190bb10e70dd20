//! The JSON/CBOR transcoder: object keys become decimal SID deltas
//! relative to the parent SID on the way to the wire, and identifiers
//! again on the way back, with type-directed casts at the leaves.

use vstd::prelude::*;
use vstd::string::*;
use crate::cbor::{cbor_dec, cbor_enc, cbor_decode, cbor_encode};
use crate::error::{CoreconfError, SpecErr, err_matches};
use crate::json::{json_of, parse_json, spec_parse_json, to_json_text};
use crate::sid::SidFile;
use crate::strutil::{ends_with_char, idec, parse_i64_str, parse_int_i64, str_concat,
    suffix_after_last, suffix_after_last_str, u64_to_string};
use crate::value::{SpecVal, Val};
use crate::yang::{spec_cast_from, spec_cast_to, cast_from_coreconf, cast_to_coreconf};

verus! {

broadcast use vstd::std_specs::vec::group_vec_axioms;

/// The transcoder: a loaded SID catalog.
#[derive(Debug, Clone)]
pub struct CoreconfModel {
    /// The catalog driving all key and type resolution.
    pub sid_file: SidFile,
}

/// The qualified path of a child key: at the top level (a path ending
/// in `:`) the key already carries the module prefix.
pub open spec fn spec_qualified(path: Seq<char>, key: Seq<char>) -> Seq<char> {
    if path.len() > 0 && path.last() == ':' {
        seq!['/'] + key
    } else {
        path + seq!['/'] + key
    }
}

/// JSON-to-wire rewrite of a tree: object keys become decimal deltas,
/// arrays recurse in place, and typed leaves are cast.
pub open spec fn spec_to_wire(cat: SidFile, v: SpecVal, path: Seq<char>, parent: int) -> Result<
    SpecVal,
    SpecErr,
>
    decreases v, 0int,
{
    match v {
        SpecVal::Obj(entries) => match spec_to_wire_entries(cat, entries, 0, path, parent) {
            Ok(es) => Ok(SpecVal::Obj(es)),
            Err(e) => Err(e),
        },
        SpecVal::Arr(items) => match spec_to_wire_items(cat, items, 0, path, parent) {
            Ok(xs) => Ok(SpecVal::Arr(xs)),
            Err(e) => Err(e),
        },
        _ => match cat.spec_get_type(path) {
            Some(t) => spec_cast_to(v, t@, Some(cat)),
            None => Ok(v),
        },
    }
}

pub open spec fn spec_to_wire_entries(
    cat: SidFile,
    entries: Seq<(Seq<char>, SpecVal)>,
    i: int,
    path: Seq<char>,
    parent: int,
) -> Result<Seq<(Seq<char>, SpecVal)>, SpecErr>
    decreases entries, entries.len() - i,
{
    if i < 0 || i >= entries.len() {
        Ok(Seq::empty())
    } else {
        let qp = spec_qualified(path, entries[i].0);
        match cat.spec_get_sid(qp) {
            None => Err(SpecErr::SidNotFound(qp)),
            Some(cs) => match spec_to_wire(cat, entries[i].1, qp, cs as int) {
                Err(e) => Err(e),
                Ok(sub) => match spec_to_wire_entries(cat, entries, i + 1, path, parent) {
                    Err(e) => Err(e),
                    Ok(rest) => Ok(seq![(idec(cs - parent), sub)] + rest),
                },
            },
        }
    }
}

pub open spec fn spec_to_wire_items(
    cat: SidFile,
    items: Seq<SpecVal>,
    i: int,
    path: Seq<char>,
    parent: int,
) -> Result<Seq<SpecVal>, SpecErr>
    decreases items, items.len() - i,
{
    if i < 0 || i >= items.len() {
        Ok(Seq::empty())
    } else {
        match spec_to_wire(cat, items[i], path, parent) {
            Err(e) => Err(e),
            Ok(sub) => match spec_to_wire_items(cat, items, i + 1, path, parent) {
                Err(e) => Err(e),
                Ok(rest) => Ok(seq![sub] + rest),
            },
        }
    }
}

/// Wire-to-JSON rewrite: decimal delta keys become the last segment of
/// the identifier the running SID resolves to.
pub open spec fn spec_from_wire(cat: SidFile, v: SpecVal, parent: int, path: Seq<char>) -> Result<
    SpecVal,
    SpecErr,
>
    decreases v, 0int,
{
    match v {
        SpecVal::Obj(entries) => match spec_from_wire_entries(cat, entries, 0, parent) {
            Ok(es) => Ok(SpecVal::Obj(es)),
            Err(e) => Err(e),
        },
        SpecVal::Arr(items) => match spec_from_wire_items(cat, items, 0, parent, path) {
            Ok(xs) => Ok(SpecVal::Arr(xs)),
            Err(e) => Err(e),
        },
        _ => match cat.spec_get_type(path) {
            Some(t) => Ok(spec_cast_from(v, t@, Some(cat), cat.module_name@)),
            None => Ok(v),
        },
    }
}

pub open spec fn spec_from_wire_entries(
    cat: SidFile,
    entries: Seq<(Seq<char>, SpecVal)>,
    i: int,
    parent: int,
) -> Result<Seq<(Seq<char>, SpecVal)>, SpecErr>
    decreases entries, entries.len() - i,
{
    if i < 0 || i >= entries.len() {
        Ok(Seq::empty())
    } else {
        match parse_int_i64(entries[i].0) {
            None => Err(SpecErr::TypeConversion),
            Some(delta) => {
                let child = parent + delta;
                if child < i64::MIN || child > i64::MAX {
                    Err(SpecErr::TypeConversion)
                } else {
                    match cat.spec_get_identifier(child as i64) {
                        None => Err(SpecErr::IdentifierNotFound(child)),
                        Some(identifier) => {
                            let leaf = suffix_after_last(identifier, '/');
                            match spec_from_wire(cat, entries[i].1, child, identifier) {
                                Err(e) => Err(e),
                                Ok(sub) => match spec_from_wire_entries(cat, entries, i + 1, parent) {
                                    Err(e) => Err(e),
                                    Ok(rest) => Ok(seq![(leaf, sub)] + rest),
                                },
                            }
                        },
                    }
                }
            },
        }
    }
}

pub open spec fn spec_from_wire_items(
    cat: SidFile,
    items: Seq<SpecVal>,
    i: int,
    parent: int,
    path: Seq<char>,
) -> Result<Seq<SpecVal>, SpecErr>
    decreases items, items.len() - i,
{
    if i < 0 || i >= items.len() {
        Ok(Seq::empty())
    } else {
        match spec_from_wire(cat, items[i], parent, path) {
            Err(e) => Err(e),
            Ok(sub) => match spec_from_wire_items(cat, items, i + 1, parent, path) {
                Err(e) => Err(e),
                Ok(rest) => Ok(seq![sub] + rest),
            },
        }
    }
}

/// The whole-document directions, from the module prefix and SID 0.
pub open spec fn spec_to_wire_top(cat: SidFile, v: SpecVal) -> Result<SpecVal, SpecErr> {
    spec_to_wire(cat, v, cat.module_prefix@, 0)
}

pub open spec fn spec_from_wire_top(cat: SidFile, v: SpecVal) -> Result<SpecVal, SpecErr> {
    spec_from_wire(cat, v, 0, "/"@)
}

/// Decimal string of the difference of two SIDs.
fn delta_string(child: i64, parent: i64) -> (r: String)
    ensures
        r@ == idec(child as int - parent as int),
{
    let d: i128 = child as i128 - parent as i128;
    if d >= 0 {
        u64_to_string(d as u64)
    } else {
        let mag: u64 = (-d) as u64;
        let mut out: Vec<u8> = Vec::new();
        out.push(45u8);
        crate::strutil::push_udec_bytes(&mut out, mag);
        let r = crate::strutil::ascii_string(out);
        proof {
            assert(('-') == (45u8 as char));
            assert(r@ =~= idec(child as int - parent as int));
        }
        r
    }
}

fn to_wire_entries(
    cat: &SidFile,
    entries: &Vec<(String, Val)>,
    i: usize,
    path: &str,
    parent: i64,
) -> (r: Result<Vec<(String, Val)>, CoreconfError>)
    requires
        i <= entries@.len(),
    ensures
        match r {
            Ok(out) => spec_to_wire_entries(
                *cat,
                crate::value::view_entries(entries@),
                i as int,
                path@,
                parent as int,
            ) == Ok::<_, SpecErr>(crate::value::view_entries(out@)),
            Err(e) => spec_to_wire_entries(
                *cat,
                crate::value::view_entries(entries@),
                i as int,
                path@,
                parent as int,
            ) matches Err(se) && err_matches(e, se),
        },
    decreases entries, entries@.len() - i,
{
    let ghost ev = crate::value::view_entries(entries@);
    if i >= entries.len() {
        let out: Vec<(String, Val)> = Vec::new();
        proof {
            assert(crate::value::view_entries(out@) =~= Seq::<(Seq<char>, SpecVal)>::empty());
        }
        return Ok(out);
    }
    let key = &entries[i].0;
    let qp: String = if ends_with_char(path, ':') {
        str_concat("/", key.as_str())
    } else {
        let head = str_concat(path, "/");
        head.concat(key.as_str())
    };
    proof {
        reveal_strlit("/");
        assert(("/")@ =~= seq!['/']);
        assert(qp@ =~= spec_qualified(path@, key@));
    }
    let cs = match cat.get_sid(qp.as_str()) {
        Some(cs) => cs,
        None => {
            return Err(CoreconfError::SidNotFound(qp));
        },
    };
    proof {
        assert(decreases_to!(entries => entries@));
        assert(decreases_to!(entries@ => entries@[i as int]));
        assert(decreases_to!(entries@[i as int] => entries@[i as int].1));
    }
    let sub = match to_wire_value(cat, &entries[i].1, qp.as_str(), cs) {
        Ok(sub) => sub,
        Err(e) => {
            return Err(e);
        },
    };
    match to_wire_entries(cat, entries, i + 1, path, parent) {
        Ok(mut rest) => {
            let dk = delta_string(cs, parent);
            let ghost dk_v = dk@;
            let ghost sub_v = sub@;
            rest.insert(0, (dk, sub));
            proof {
                assert(crate::value::view_entries(rest@) =~= seq![(dk_v, sub_v)]
                    + spec_to_wire_entries(*cat, ev, i + 1, path@, parent as int)->Ok_0);
            }
            Ok(rest)
        },
        Err(e) => Err(e),
    }
}

fn to_wire_items(cat: &SidFile, items: &Vec<Val>, i: usize, path: &str, parent: i64) -> (r: Result<
    Vec<Val>,
    CoreconfError,
>)
    requires
        i <= items@.len(),
    ensures
        match r {
            Ok(out) => spec_to_wire_items(
                *cat,
                crate::value::view_items(items@),
                i as int,
                path@,
                parent as int,
            ) == Ok::<_, SpecErr>(crate::value::view_items(out@)),
            Err(e) => spec_to_wire_items(
                *cat,
                crate::value::view_items(items@),
                i as int,
                path@,
                parent as int,
            ) matches Err(se) && err_matches(e, se),
        },
    decreases items, items@.len() - i,
{
    let ghost iv = crate::value::view_items(items@);
    if i >= items.len() {
        let out: Vec<Val> = Vec::new();
        proof {
            assert(crate::value::view_items(out@) =~= Seq::<SpecVal>::empty());
        }
        return Ok(out);
    }
    proof {
        assert(decreases_to!(items => items@));
        assert(decreases_to!(items@ => items@[i as int]));
    }
    let sub = match to_wire_value(cat, &items[i], path, parent) {
        Ok(sub) => sub,
        Err(e) => {
            return Err(e);
        },
    };
    match to_wire_items(cat, items, i + 1, path, parent) {
        Ok(mut rest) => {
            let ghost sub_v = sub@;
            rest.insert(0, sub);
            proof {
                assert(crate::value::view_items(rest@) =~= seq![sub_v] + spec_to_wire_items(
                    *cat,
                    iv,
                    i + 1,
                    path@,
                    parent as int,
                )->Ok_0);
            }
            Ok(rest)
        },
        Err(e) => Err(e),
    }
}

/// Rewrites one tree towards the wire, from the given path and parent.
fn to_wire_value(cat: &SidFile, value: &Val, path: &str, parent: i64) -> (r: Result<
    Val,
    CoreconfError,
>)
    ensures
        match r {
            Ok(w) => spec_to_wire(*cat, value@, path@, parent as int) == Ok::<_, SpecErr>(w@),
            Err(e) => spec_to_wire(*cat, value@, path@, parent as int) matches Err(se)
                && err_matches(e, se),
        },
    decreases value, 1int,
{
    match value {
        Val::Obj(entries) => {
            match to_wire_entries(cat, entries, 0, path, parent) {
                Ok(out) => Ok(Val::Obj(out)),
                Err(e) => Err(e),
            }
        },
        Val::Arr(items) => {
            match to_wire_items(cat, items, 0, path, parent) {
                Ok(out) => Ok(Val::Arr(out)),
                Err(e) => Err(e),
            }
        },
        _ => {
            match cat.get_type(path) {
                Some(t) => cast_to_coreconf(value, t, Some(cat)),
                None => Ok(value.dup()),
            }
        },
    }
}

fn from_wire_entries(cat: &SidFile, entries: &Vec<(String, Val)>, i: usize, parent: i64) -> (r:
    Result<Vec<(String, Val)>, CoreconfError>)
    requires
        i <= entries@.len(),
    ensures
        match r {
            Ok(out) => spec_from_wire_entries(
                *cat,
                crate::value::view_entries(entries@),
                i as int,
                parent as int,
            ) == Ok::<_, SpecErr>(crate::value::view_entries(out@)),
            Err(e) => spec_from_wire_entries(
                *cat,
                crate::value::view_entries(entries@),
                i as int,
                parent as int,
            ) matches Err(se) && err_matches(e, se),
        },
    decreases entries, entries@.len() - i,
{
    let ghost ev = crate::value::view_entries(entries@);
    if i >= entries.len() {
        let out: Vec<(String, Val)> = Vec::new();
        proof {
            assert(crate::value::view_entries(out@) =~= Seq::<(Seq<char>, SpecVal)>::empty());
        }
        return Ok(out);
    }
    let delta = match parse_i64_str(entries[i].0.as_str()) {
        Some(d) => d,
        None => {
            return Err(CoreconfError::TypeConversion(String::from_str("invalid SID key")));
        },
    };
    let child_wide: i128 = parent as i128 + delta as i128;
    if child_wide < -0x8000000000000000i128 || child_wide > 0x7fffffffffffffffi128 {
        return Err(CoreconfError::TypeConversion(String::from_str("SID out of range")));
    }
    let child: i64 = child_wide as i64;
    let identifier: String = match cat.get_identifier(child) {
        Some(s) => crate::strutil::substring(s, 0, s.unicode_len()),
        None => {
            return Err(CoreconfError::IdentifierNotFound(child));
        },
    };
    proof {
        assert(identifier@ =~= cat.spec_get_identifier(child)->Some_0);
    }
    let leaf = suffix_after_last_str(identifier.as_str(), '/');
    proof {
        assert(decreases_to!(entries => entries@));
        assert(decreases_to!(entries@ => entries@[i as int]));
        assert(decreases_to!(entries@[i as int] => entries@[i as int].1));
    }
    let sub = match from_wire_value(cat, &entries[i].1, child, identifier.as_str()) {
        Ok(sub) => sub,
        Err(e) => {
            return Err(e);
        },
    };
    match from_wire_entries(cat, entries, i + 1, parent) {
        Ok(mut rest) => {
            let ghost leaf_v = leaf@;
            let ghost sub_v = sub@;
            rest.insert(0, (leaf, sub));
            proof {
                assert(crate::value::view_entries(rest@) =~= seq![(leaf_v, sub_v)]
                    + spec_from_wire_entries(*cat, ev, i + 1, parent as int)->Ok_0);
            }
            Ok(rest)
        },
        Err(e) => Err(e),
    }
}

fn from_wire_items(cat: &SidFile, items: &Vec<Val>, i: usize, parent: i64, path: &str) -> (r:
    Result<Vec<Val>, CoreconfError>)
    requires
        i <= items@.len(),
    ensures
        match r {
            Ok(out) => spec_from_wire_items(
                *cat,
                crate::value::view_items(items@),
                i as int,
                parent as int,
                path@,
            ) == Ok::<_, SpecErr>(crate::value::view_items(out@)),
            Err(e) => spec_from_wire_items(
                *cat,
                crate::value::view_items(items@),
                i as int,
                parent as int,
                path@,
            ) matches Err(se) && err_matches(e, se),
        },
    decreases items, items@.len() - i,
{
    let ghost iv = crate::value::view_items(items@);
    if i >= items.len() {
        let out: Vec<Val> = Vec::new();
        proof {
            assert(crate::value::view_items(out@) =~= Seq::<SpecVal>::empty());
        }
        return Ok(out);
    }
    proof {
        assert(decreases_to!(items => items@));
        assert(decreases_to!(items@ => items@[i as int]));
    }
    let sub = match from_wire_value(cat, &items[i], parent, path) {
        Ok(sub) => sub,
        Err(e) => {
            return Err(e);
        },
    };
    match from_wire_items(cat, items, i + 1, parent, path) {
        Ok(mut rest) => {
            let ghost sub_v = sub@;
            rest.insert(0, sub);
            proof {
                assert(crate::value::view_items(rest@) =~= seq![sub_v] + spec_from_wire_items(
                    *cat,
                    iv,
                    i + 1,
                    parent as int,
                    path@,
                )->Ok_0);
            }
            Ok(rest)
        },
        Err(e) => Err(e),
    }
}

/// Rewrites one tree back from the wire, under the given parent SID.
fn from_wire_value(cat: &SidFile, value: &Val, parent: i64, path: &str) -> (r: Result<
    Val,
    CoreconfError,
>)
    ensures
        match r {
            Ok(w) => spec_from_wire(*cat, value@, parent as int, path@) == Ok::<_, SpecErr>(w@),
            Err(e) => spec_from_wire(*cat, value@, parent as int, path@) matches Err(se)
                && err_matches(e, se),
        },
    decreases value, 1int,
{
    match value {
        Val::Obj(entries) => {
            match from_wire_entries(cat, entries, 0, parent) {
                Ok(out) => Ok(Val::Obj(out)),
                Err(e) => Err(e),
            }
        },
        Val::Arr(items) => {
            match from_wire_items(cat, items, 0, parent, path) {
                Ok(out) => Ok(Val::Arr(out)),
                Err(e) => Err(e),
            }
        },
        _ => {
            match cat.get_type(path) {
                Some(t) => cast_from_coreconf(value, t, Some(cat), cat.module_name.as_str()),
                None => Ok(value.dup()),
            }
        },
    }
}

impl CoreconfModel {
    /// A transcoder over the catalog in the given SID file text.
    pub fn from_str(sid_content: &str) -> (r: Result<Self, CoreconfError>)
        ensures
            match r {
                Ok(m) => {
                    &&& m.sid_file.wf()
                    &&& crate::sid::spec_catalog(vstd::utf8::encode_utf8(sid_content@))
                        matches Some(c) && m.sid_file.module_name@ == c.name
                        && crate::sid::view_sid_pairs(m.sid_file.sids@) == c.sids
                },
                Err(e) => crate::sid::spec_catalog(vstd::utf8::encode_utf8(sid_content@)) is None
                    && e is InvalidSidFile,
            },
    {
        match SidFile::from_json_str(sid_content) {
            Ok(sid_file) => Ok(Self { sid_file }),
            Err(e) => Err(e),
        }
    }

    /// Rewrites a parsed tree towards the wire, from the module prefix
    /// and parent SID 0.
    pub fn value_to_wire(&self, v: &Val) -> (r: Result<Val, CoreconfError>)
        ensures
            match r {
                Ok(w) => spec_to_wire_top(self.sid_file, v@) == Ok::<_, SpecErr>(w@),
                Err(e) => spec_to_wire_top(self.sid_file, v@) matches Err(se) && err_matches(
                    e,
                    se,
                ),
            },
    {
        to_wire_value(&self.sid_file, v, self.sid_file.module_prefix.as_str(), 0)
    }

    /// Rewrites a wire tree back, from parent SID 0.
    pub fn value_from_wire(&self, v: &Val) -> (r: Result<Val, CoreconfError>)
        ensures
            match r {
                Ok(w) => spec_from_wire_top(self.sid_file, v@) == Ok::<_, SpecErr>(w@),
                Err(e) => spec_from_wire_top(self.sid_file, v@) matches Err(se) && err_matches(
                    e,
                    se,
                ),
            },
    {
        from_wire_value(&self.sid_file, v, 0, "/")
    }

    /// Encodes a parsed tree as wire bytes.
    pub fn value_to_coreconf(&self, v: &Val) -> (r: Result<Vec<u8>, CoreconfError>)
        ensures
            match r {
                Ok(bytes) => spec_to_wire_top(self.sid_file, v@) matches Ok(w) && bytes@
                    == cbor_enc(w),
                Err(e) => spec_to_wire_top(self.sid_file, v@) matches Err(se) && err_matches(
                    e,
                    se,
                ),
            },
    {
        match self.value_to_wire(v) {
            Ok(w) => Ok(cbor_encode(&w)),
            Err(e) => Err(e),
        }
    }

    /// Converts JSON text to wire bytes.
    pub fn to_coreconf(&self, json_data: &str) -> (r: Result<Vec<u8>, CoreconfError>)
        ensures
            match r {
                Ok(bytes) => spec_parse_json(vstd::utf8::encode_utf8(json_data@)) matches Some(v)
                    && spec_to_wire_top(self.sid_file, v) matches Ok(w) && bytes@ == cbor_enc(w),
                Err(e) => match spec_parse_json(vstd::utf8::encode_utf8(json_data@)) {
                    None => e is Json,
                    Some(v) => spec_to_wire_top(self.sid_file, v) matches Err(se) && err_matches(
                        e,
                        se,
                    ),
                },
            },
    {
        match parse_json(json_data) {
            Ok(v) => self.value_to_coreconf(&v),
            Err(e) => Err(e),
        }
    }

    /// Decodes wire bytes to a parsed tree.
    pub fn to_value(&self, cbor_data: &[u8]) -> (r: Result<Val, CoreconfError>)
        ensures
            match r {
                Ok(v) => cbor_dec(cbor_data@) matches Some((w, used)) && spec_from_wire_top(
                    self.sid_file,
                    w,
                ) == Ok::<_, SpecErr>(v@),
                Err(e) => match cbor_dec(cbor_data@) {
                    None => e is CborDecode,
                    Some((w, used)) => spec_from_wire_top(self.sid_file, w) matches Err(se)
                        && err_matches(e, se),
                },
            },
    {
        match cbor_decode(cbor_data) {
            Ok(w) => self.value_from_wire(&w),
            Err(e) => Err(e),
        }
    }

    /// Decodes wire bytes to JSON text.
    pub fn to_json(&self, cbor_data: &[u8]) -> (r: Result<String, CoreconfError>)
        ensures
            match r {
                Ok(text) => cbor_dec(cbor_data@) matches Some((w, used)) && spec_from_wire_top(
                    self.sid_file,
                    w,
                ) matches Ok(v) && text@ == json_of(v),
                Err(e) => match cbor_dec(cbor_data@) {
                    None => e is CborDecode,
                    Some((w, used)) => spec_from_wire_top(self.sid_file, w) matches Err(se)
                        && err_matches(e, se),
                },
            },
    {
        match self.to_value(cbor_data) {
            Ok(v) => Ok(to_json_text(&v)),
            Err(e) => Err(e),
        }
    }
}

/// A leaf round-trips through its casts: the wire form casts back to
/// the value itself. Untyped leaves always do.
pub open spec fn leaf_cast_ok(cat: SidFile, v: SpecVal, path: Seq<char>) -> bool {
    match cat.spec_get_type(path) {
        Some(t) => spec_cast_to(v, t@, Some(cat)) matches Ok(w) && spec_cast_from(
            w,
            t@,
            Some(cat),
            cat.module_name@,
        ) == v,
        None => true,
    }
}

/// A document in normal form against the catalog: every key resolves to
/// a SID, keys hold no `/`, deltas fit the signed 64-bit range, and
/// every typed leaf casts there and back.
pub open spec fn doc_valid(cat: SidFile, v: SpecVal, path: Seq<char>, parent: int) -> bool
    decreases v, 0int,
{
    match v {
        SpecVal::Obj(entries) => entries_valid(cat, entries, 0, path, parent),
        SpecVal::Arr(items) => items_valid(cat, items, 0, path, parent),
        _ => leaf_cast_ok(cat, v, path),
    }
}

pub open spec fn entries_valid(
    cat: SidFile,
    entries: Seq<(Seq<char>, SpecVal)>,
    i: int,
    path: Seq<char>,
    parent: int,
) -> bool
    decreases entries, entries.len() - i,
{
    if i < 0 || i >= entries.len() {
        true
    } else {
        let k = entries[i].0;
        let qp = spec_qualified(path, k);
        &&& (forall|j: int| 0 <= j < k.len() ==> k[j] != '/')
        &&& cat.spec_get_sid(qp) matches Some(cs) && i64::MIN <= cs - parent <= i64::MAX
            && doc_valid(cat, entries[i].1, qp, cs as int)
        &&& entries_valid(cat, entries, i + 1, path, parent)
    }
}

pub open spec fn items_valid(
    cat: SidFile,
    items: Seq<SpecVal>,
    i: int,
    path: Seq<char>,
    parent: int,
) -> bool
    decreases items, items.len() - i,
{
    if i < 0 || i >= items.len() {
        true
    } else {
        doc_valid(cat, items[i], path, parent) && items_valid(cat, items, i + 1, path, parent)
    }
}

proof fn lemma_from_entries_shift(
    cat: SidFile,
    x: (Seq<char>, SpecVal),
    rest: Seq<(Seq<char>, SpecVal)>,
    j: int,
    parent: int,
)
    requires
        0 <= j <= rest.len(),
    ensures
        spec_from_wire_entries(cat, seq![x] + rest, j + 1, parent) == spec_from_wire_entries(
            cat,
            rest,
            j,
            parent,
        ),
    decreases rest.len() - j,
{
    let es = seq![x] + rest;
    if j < rest.len() {
        assert(es[j + 1] == rest[j]);
        lemma_from_entries_shift(cat, x, rest, j + 1, parent);
    }
}

proof fn lemma_from_items_shift(cat: SidFile, x: SpecVal, rest: Seq<SpecVal>, j: int, parent: int,
    path: Seq<char>)
    requires
        0 <= j <= rest.len(),
    ensures
        spec_from_wire_items(cat, seq![x] + rest, j + 1, parent, path) == spec_from_wire_items(
            cat,
            rest,
            j,
            parent,
            path,
        ),
    decreases rest.len() - j,
{
    let es = seq![x] + rest;
    if j < rest.len() {
        assert(es[j + 1] == rest[j]);
        lemma_from_items_shift(cat, x, rest, j + 1, parent, path);
    }
}

/// The recovered key of a wire entry: the part of the qualified path
/// after its last `/` is the key the path was built from.
proof fn lemma_qualified_leaf(path: Seq<char>, k: Seq<char>)
    requires
        forall|j: int| 0 <= j < k.len() ==> k[j] != '/',
    ensures
        crate::strutil::suffix_after_last(spec_qualified(path, k), '/') == k,
{
    let qp = spec_qualified(path, k);
    let j = qp.len() - k.len() - 1;
    assert(qp[j] == '/');
    assert(forall|l: int| j < l < qp.len() ==> qp[l] == k[l - j - 1] && qp[l] != '/');
    crate::strutil::lemma_suffix_found(qp, '/', j);
    assert(qp.subrange(j + 1, qp.len() as int) =~= k);
}

/// Round-trip: a document in normal form rewrites to the wire and back
/// to itself.
pub proof fn lemma_transcode_roundtrip(cat: SidFile, v: SpecVal, path: Seq<char>, parent: int)
    requires
        cat.wf(),
        doc_valid(cat, v, path, parent),
        i64::MIN <= parent <= i64::MAX,
    ensures
        spec_to_wire(cat, v, path, parent) matches Ok(w) && spec_from_wire(cat, w, parent, path)
            == Ok::<SpecVal, SpecErr>(v),
    decreases v, 0int,
{
    match v {
        SpecVal::Obj(entries) => {
            lemma_entries_transcode(cat, entries, 0, path, parent);
            let es = spec_to_wire_entries(cat, entries, 0, path, parent)->Ok_0;
            assert(entries.skip(0) =~= entries);
        },
        SpecVal::Arr(items) => {
            lemma_items_transcode(cat, items, 0, path, parent);
            assert(items.skip(0) =~= items);
        },
        _ => {
            match cat.spec_get_type(path) {
                Some(t) => {
                    lemma_cast_no_obj(v, t@, Some(cat));
                },
                None => {},
            }
        },
    }
}

proof fn lemma_entries_transcode(
    cat: SidFile,
    entries: Seq<(Seq<char>, SpecVal)>,
    i: int,
    path: Seq<char>,
    parent: int,
)
    requires
        cat.wf(),
        0 <= i <= entries.len(),
        entries_valid(cat, entries, i, path, parent),
        i64::MIN <= parent <= i64::MAX,
    ensures
        spec_to_wire_entries(cat, entries, i, path, parent) matches Ok(es)
            && spec_from_wire_entries(cat, es, 0, parent) == Ok::<_, SpecErr>(entries.skip(i)),
    decreases entries, entries.len() - i,
{
    if i == entries.len() {
        assert(entries.skip(i) =~= Seq::<(Seq<char>, SpecVal)>::empty());
    } else {
        let k = entries[i].0;
        let sub = entries[i].1;
        let qp = spec_qualified(path, k);
        let cs = cat.spec_get_sid(qp)->Some_0;
        lemma_transcode_roundtrip(cat, sub, qp, cs as int);
        lemma_entries_transcode(cat, entries, i + 1, path, parent);
        let wsub = spec_to_wire(cat, sub, qp, cs as int)->Ok_0;
        let rest = spec_to_wire_entries(cat, entries, i + 1, path, parent)->Ok_0;
        let x = (crate::strutil::idec(cs - parent), wsub);
        let es = seq![x] + rest;
        assert(spec_to_wire_entries(cat, entries, i, path, parent) == Ok::<_, SpecErr>(es));
        assert(es[0] == x);
        crate::strutil::lemma_idec_parse(cs - parent);
        assert(crate::strutil::parse_int_i64(x.0) == Some((cs - parent) as i64));
        let child = parent + (cs - parent);
        assert(child == cs);
        crate::sid::lemma_sid_bijection(cat, qp, cs);
        assert(cat.spec_get_identifier(cs) == Some(qp));
        lemma_qualified_leaf(path, k);
        lemma_from_entries_shift(cat, x, rest, 0, parent);
        assert(spec_from_wire_entries(cat, es, 0, parent) == Ok::<_, SpecErr>(
            seq![(k, sub)] + entries.skip(i + 1),
        ));
        assert(seq![(k, sub)] + entries.skip(i + 1) =~= entries.skip(i));
    }
}

proof fn lemma_items_transcode(
    cat: SidFile,
    items: Seq<SpecVal>,
    i: int,
    path: Seq<char>,
    parent: int,
)
    requires
        cat.wf(),
        0 <= i <= items.len(),
        items_valid(cat, items, i, path, parent),
        i64::MIN <= parent <= i64::MAX,
    ensures
        spec_to_wire_items(cat, items, i, path, parent) matches Ok(xs) && spec_from_wire_items(
            cat,
            xs,
            0,
            parent,
            path,
        ) == Ok::<_, SpecErr>(items.skip(i)),
    decreases items, items.len() - i,
{
    if i == items.len() {
        assert(items.skip(i) =~= Seq::<SpecVal>::empty());
    } else {
        lemma_transcode_roundtrip(cat, items[i], path, parent);
        lemma_items_transcode(cat, items, i + 1, path, parent);
        let wsub = spec_to_wire(cat, items[i], path, parent)->Ok_0;
        let rest = spec_to_wire_items(cat, items, i + 1, path, parent)->Ok_0;
        let xs = seq![wsub] + rest;
        assert(xs[0] == wsub);
        lemma_from_items_shift(cat, wsub, rest, 0, parent, path);
        assert(seq![items[i]] + items.skip(i + 1) =~= items.skip(i));
    }
}

/// The whole-document round-trip, from the module prefix and SID 0: a
/// document (an object at the top, as the data tree always is) in
/// normal form encodes to the wire and decodes back to itself.
pub proof fn lemma_transcode_roundtrip_top(cat: SidFile, v: SpecVal)
    requires
        cat.wf(),
        doc_valid(cat, v, cat.module_prefix@, 0),
        v is Obj,
    ensures
        spec_to_wire_top(cat, v) matches Ok(w) && spec_from_wire_top(cat, w) == Ok::<
            SpecVal,
            SpecErr,
        >(v),
{
    lemma_transcode_roundtrip(cat, v, cat.module_prefix@, 0);
    let w = spec_to_wire_top(cat, v)->Ok_0;
    assert(w is Obj);
    assert(spec_from_wire(cat, w, 0, "/"@) == spec_from_wire(cat, w, 0, cat.module_prefix@));
}

/// Delta inversion: in a wire tree the transcoder makes, every map key
/// reads back as an integer, the running sums of those deltas from the
/// root stay within the SID range, and each sum is a SID the catalog
/// knows, down to every leaf.
pub open spec fn delta_sums_ok(cat: SidFile, w: SpecVal, parent: int) -> bool
    decreases w, 0int,
{
    match w {
        SpecVal::Obj(entries) => sums_entries_ok(cat, entries, 0, parent),
        SpecVal::Arr(items) => sums_items_ok(cat, items, 0, parent),
        _ => true,
    }
}

pub open spec fn sums_entries_ok(
    cat: SidFile,
    entries: Seq<(Seq<char>, SpecVal)>,
    i: int,
    parent: int,
) -> bool
    decreases entries, entries.len() - i,
{
    if i < 0 || i >= entries.len() {
        true
    } else {
        (match crate::strutil::parse_int(entries[i].0) {
            Some(d) => {
                let child = parent + d;
                &&& i64::MIN <= child <= i64::MAX
                &&& cat.spec_get_identifier(child as i64) is Some
                &&& delta_sums_ok(cat, entries[i].1, child)
            },
            None => false,
        }) && sums_entries_ok(cat, entries, i + 1, parent)
    }
}

pub open spec fn sums_items_ok(cat: SidFile, items: Seq<SpecVal>, i: int, parent: int) -> bool
    decreases items, items.len() - i,
{
    if i < 0 || i >= items.len() {
        true
    } else {
        delta_sums_ok(cat, items[i], parent) && sums_items_ok(cat, items, i + 1, parent)
    }
}

/// Any tree the wire direction produces has the delta-inversion shape:
/// summing the decoded deltas along any root-to-leaf path lands on a
/// SID of the catalog at every step.
pub proof fn lemma_delta_inversion(cat: SidFile, v: SpecVal, path: Seq<char>, parent: int)
    requires
        cat.wf(),
        i64::MIN <= parent <= i64::MAX,
        spec_to_wire(cat, v, path, parent) is Ok,
    ensures
        delta_sums_ok(cat, spec_to_wire(cat, v, path, parent)->Ok_0, parent),
    decreases v, 0int,
{
    match v {
        SpecVal::Obj(entries) => {
            lemma_delta_entries(cat, entries, 0, path, parent);
        },
        SpecVal::Arr(items) => {
            lemma_delta_items(cat, items, 0, path, parent);
        },
        _ => {
            match cat.spec_get_type(path) {
                Some(t) => {
                    lemma_cast_no_obj(v, t@, Some(cat));
                },
                None => {},
            }
        },
    }
}

/// The wire-direction cast never produces a map or an array out of a
/// leaf, except by passing an array through.
proof fn lemma_cast_no_obj(v: SpecVal, t: crate::yang::SpecYang, cat: Option<SidFile>)
    requires
        !(v is Obj),
        !(v is Arr),
        spec_cast_to(v, t, cat) is Ok,
    ensures
        !(spec_cast_to(v, t, cat)->Ok_0 is Obj),
        !(spec_cast_to(v, t, cat)->Ok_0 is Arr),
    decreases t, 1int,
{
    match t {
        crate::yang::SpecYang::Union(ts) => {
            lemma_cast_union_no_obj(v, ts, 0, cat);
        },
        _ => {},
    }
}

proof fn lemma_cast_union_no_obj(
    v: SpecVal,
    ts: Seq<crate::yang::SpecYang>,
    i: int,
    cat: Option<SidFile>,
)
    requires
        !(v is Obj),
        !(v is Arr),
        crate::yang::spec_cast_to_union(v, ts, i, cat) is Ok,
    ensures
        !(crate::yang::spec_cast_to_union(v, ts, i, cat)->Ok_0 is Obj),
        !(crate::yang::spec_cast_to_union(v, ts, i, cat)->Ok_0 is Arr),
    decreases ts, ts.len() - i, 2int,
{
    if 0 <= i < ts.len() {
        match crate::yang::spec_cast_to(v, ts[i], cat) {
            Ok(_) => {
                lemma_cast_no_obj(v, ts[i], cat);
            },
            Err(_) => {
                lemma_cast_union_no_obj(v, ts, i + 1, cat);
            },
        }
    }
}

proof fn lemma_delta_entries(
    cat: SidFile,
    entries: Seq<(Seq<char>, SpecVal)>,
    i: int,
    path: Seq<char>,
    parent: int,
)
    requires
        cat.wf(),
        0 <= i <= entries.len(),
        i64::MIN <= parent <= i64::MAX,
        spec_to_wire_entries(cat, entries, i, path, parent) is Ok,
    ensures
        sums_entries_ok(cat, spec_to_wire_entries(cat, entries, i, path, parent)->Ok_0, 0, parent),
    decreases entries, entries.len() - i,
{
    if i < entries.len() {
        let k = entries[i].0;
        let qp = spec_qualified(path, k);
        let cs = cat.spec_get_sid(qp)->Some_0;
        lemma_delta_inversion(cat, entries[i].1, qp, cs as int);
        lemma_delta_entries(cat, entries, i + 1, path, parent);
        let wsub = spec_to_wire(cat, entries[i].1, qp, cs as int)->Ok_0;
        let rest = spec_to_wire_entries(cat, entries, i + 1, path, parent)->Ok_0;
        let x = (crate::strutil::idec(cs - parent), wsub);
        let es = seq![x] + rest;
        assert(es[0] == x);
        crate::strutil::lemma_idec_parse(cs - parent);
        crate::sid::lemma_sid_bijection(cat, qp, cs);
        assert(parent + (cs - parent) == cs);
        lemma_sums_entries_shift(cat, x, rest, 0, parent);
    }
}

proof fn lemma_sums_entries_shift(
    cat: SidFile,
    x: (Seq<char>, SpecVal),
    rest: Seq<(Seq<char>, SpecVal)>,
    j: int,
    parent: int,
)
    requires
        0 <= j <= rest.len(),
        sums_entries_ok(cat, rest, j, parent),
    ensures
        sums_entries_ok(cat, seq![x] + rest, j + 1, parent),
    decreases rest.len() - j,
{
    let es = seq![x] + rest;
    if j < rest.len() {
        assert(es[j + 1] == rest[j]);
        lemma_sums_entries_shift(cat, x, rest, j + 1, parent);
    }
}

proof fn lemma_delta_items(
    cat: SidFile,
    items: Seq<SpecVal>,
    i: int,
    path: Seq<char>,
    parent: int,
)
    requires
        cat.wf(),
        0 <= i <= items.len(),
        i64::MIN <= parent <= i64::MAX,
        spec_to_wire_items(cat, items, i, path, parent) is Ok,
    ensures
        sums_items_ok(cat, spec_to_wire_items(cat, items, i, path, parent)->Ok_0, 0, parent),
    decreases items, items.len() - i,
{
    if i < items.len() {
        lemma_delta_inversion(cat, items[i], path, parent);
        lemma_delta_items(cat, items, i + 1, path, parent);
        let wsub = spec_to_wire(cat, items[i], path, parent)->Ok_0;
        let rest = spec_to_wire_items(cat, items, i + 1, path, parent)->Ok_0;
        let xs = seq![wsub] + rest;
        assert(xs[0] == wsub);
        lemma_sums_items_shift(cat, wsub, rest, 0, parent, path);
    }
}

proof fn lemma_sums_items_shift(
    cat: SidFile,
    x: SpecVal,
    rest: Seq<SpecVal>,
    j: int,
    parent: int,
    path: Seq<char>,
)
    requires
        0 <= j <= rest.len(),
        sums_items_ok(cat, rest, j, parent),
    ensures
        sums_items_ok(cat, seq![x] + rest, j + 1, parent),
    decreases rest.len() - j,
{
    let es = seq![x] + rest;
    if j < rest.len() {
        assert(es[j + 1] == rest[j]);
        lemma_sums_items_shift(cat, x, rest, j + 1, parent, path);
    }
}

/// A string-typed text leaf is in normal form: it casts to the wire and
/// back unchanged.
pub proof fn lemma_string_leaf_valid(cat: SidFile, s: Seq<char>, path: Seq<char>)
    requires
        cat.spec_get_type(path) matches Some(t) && t@ == crate::yang::SpecYang::String,
    ensures
        leaf_cast_ok(cat, SpecVal::Text(s), path),
{
}

impl core::str::FromStr for CoreconfModel {
    type Err = CoreconfError;

    fn from_str(s: &str) -> core::result::Result<CoreconfModel, CoreconfError> {
        CoreconfModel::from_str(s)
    }
}

} // verus!
