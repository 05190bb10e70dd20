//! The SID catalog: identifier paths, their SIDs and YANG types, and
//! the list-key mapping, loaded once from a SID file.

use vstd::prelude::*;
use vstd::string::*;
use crate::error::CoreconfError;
use crate::value::{SpecVal, Val};
use crate::yang::YangType;

verus! {

/// A parsed SID catalog.
///
/// Identifier/SID pairs are held as an association list whose keys and
/// whose SIDs are each distinct, so the two directions of lookup are
/// mutual inverses.
#[derive(Debug, Clone)]
pub struct SidFile {
    /// Module name from the SID file.
    pub module_name: String,
    /// Module revision.
    pub module_revision: String,
    /// The module prefix `/{module-name}:`.
    pub module_prefix: String,
    /// Identifier path and SID, both directions of lookup.
    pub sids: Vec<(String, i64)>,
    /// Identifier path to YANG type.
    pub types: Vec<(String, YangType)>,
    /// List SID to its key SIDs.
    pub key_mapping: Vec<(i64, Vec<i64>)>,
}

/// First SID bound to `id` at or after index `i`.
pub open spec fn find_sid_from(pairs: Seq<(String, i64)>, id: Seq<char>, i: int) -> Option<i64>
    decreases pairs.len() - i,
{
    if i < 0 || i >= pairs.len() {
        None
    } else if pairs[i].0@ == id {
        Some(pairs[i].1)
    } else {
        find_sid_from(pairs, id, i + 1)
    }
}

/// First identifier bound to `sid` at or after index `i`.
pub open spec fn find_id_from(pairs: Seq<(String, i64)>, sid: i64, i: int) -> Option<Seq<char>>
    decreases pairs.len() - i,
{
    if i < 0 || i >= pairs.len() {
        None
    } else if pairs[i].1 == sid {
        Some(pairs[i].0@)
    } else {
        find_id_from(pairs, sid, i + 1)
    }
}

/// First type bound to `id` at or after index `i`.
pub open spec fn find_type_from(pairs: Seq<(String, YangType)>, id: Seq<char>, i: int) -> Option<
    YangType,
>
    decreases pairs.len() - i,
{
    if i < 0 || i >= pairs.len() {
        None
    } else if pairs[i].0@ == id {
        Some(pairs[i].1)
    } else {
        find_type_from(pairs, id, i + 1)
    }
}

/// First key list bound to `sid` at or after index `i`.
pub open spec fn find_keys_from(pairs: Seq<(i64, Vec<i64>)>, sid: i64, i: int) -> Option<Seq<i64>>
    decreases pairs.len() - i,
{
    if i < 0 || i >= pairs.len() {
        None
    } else if pairs[i].0 == sid {
        Some(pairs[i].1@)
    } else {
        find_keys_from(pairs, sid, i + 1)
    }
}

impl SidFile {
    /// No identifier occurs twice.
    pub open spec fn distinct_ids(self) -> bool {
        forall|i: int, j: int|
            0 <= i < j < self.sids@.len() ==> (#[trigger] self.sids@[i]).0@ != (
            #[trigger] self.sids@[j]).0@
    }

    /// No SID occurs twice.
    pub open spec fn distinct_sids(self) -> bool {
        forall|i: int, j: int|
            0 <= i < j < self.sids@.len() ==> (#[trigger] self.sids@[i]).1 != (
            #[trigger] self.sids@[j]).1
    }

    /// The catalog invariant: lookups in the two directions invert each
    /// other, and the module prefix is derived from the module name.
    pub open spec fn wf(self) -> bool {
        &&& self.distinct_ids()
        &&& self.distinct_sids()
        &&& self.module_prefix@ == "/"@ + self.module_name@ + ":"@
    }

    pub open spec fn spec_get_sid(self, id: Seq<char>) -> Option<i64> {
        find_sid_from(self.sids@, id, 0)
    }

    pub open spec fn spec_get_identifier(self, sid: i64) -> Option<Seq<char>> {
        find_id_from(self.sids@, sid, 0)
    }

    pub open spec fn spec_get_type(self, id: Seq<char>) -> Option<YangType> {
        find_type_from(self.types@, id, 0)
    }

    /// SID assigned to an identifier path.
    pub fn get_sid(&self, identifier: &str) -> (r: Option<i64>)
        ensures
            r == self.spec_get_sid(identifier@),
    {
        get_sid_at(&self.sids, identifier, 0)
    }

    /// Identifier path assigned to a SID.
    pub fn get_identifier(&self, sid: i64) -> (r: Option<&str>)
        ensures
            match r {
                Some(s) => self.spec_get_identifier(sid) == Some(s@),
                None => self.spec_get_identifier(sid) is None,
            },
    {
        get_id_at(&self.sids, sid, 0)
    }

    /// YANG type recorded for an identifier path.
    pub fn get_type(&self, identifier: &str) -> (r: Option<&YangType>)
        ensures
            match r {
                Some(t) => self.spec_get_type(identifier@) == Some(*t),
                None => self.spec_get_type(identifier@) is None,
            },
    {
        get_type_at(&self.types, identifier, 0)
    }

    /// Key SIDs recorded for a list node's SID.
    pub fn get_keys(&self, list_sid: i64) -> (r: Option<&Vec<i64>>)
        ensures
            match r {
                Some(ks) => find_keys_from(self.key_mapping@, list_sid, 0) == Some(ks@),
                None => find_keys_from(self.key_mapping@, list_sid, 0) is None,
            },
    {
        get_keys_at(&self.key_mapping, list_sid, 0)
    }
}

fn get_sid_at<'a>(pairs: &'a Vec<(String, i64)>, id: &str, i: usize) -> (r: Option<i64>)
    requires
        i <= pairs@.len(),
    ensures
        r == find_sid_from(pairs@, id@, i as int),
    decreases pairs@.len() - i,
{
    if i >= pairs.len() {
        None
    } else if crate::strutil::str_eq(pairs[i].0.as_str(), id) {
        Some(pairs[i].1)
    } else {
        get_sid_at(pairs, id, i + 1)
    }
}

fn get_id_at<'a>(pairs: &'a Vec<(String, i64)>, sid: i64, i: usize) -> (r: Option<&'a str>)
    requires
        i <= pairs@.len(),
    ensures
        match r {
            Some(s) => find_id_from(pairs@, sid, i as int) == Some(s@),
            None => find_id_from(pairs@, sid, i as int) is None,
        },
    decreases pairs@.len() - i,
{
    if i >= pairs.len() {
        None
    } else if pairs[i].1 == sid {
        Some(pairs[i].0.as_str())
    } else {
        get_id_at(pairs, sid, i + 1)
    }
}

fn get_type_at<'a>(pairs: &'a Vec<(String, YangType)>, id: &str, i: usize) -> (r: Option<
    &'a YangType,
>)
    requires
        i <= pairs@.len(),
    ensures
        match r {
            Some(t) => find_type_from(pairs@, id@, i as int) == Some(*t),
            None => find_type_from(pairs@, id@, i as int) is None,
        },
    decreases pairs@.len() - i,
{
    if i >= pairs.len() {
        None
    } else if crate::strutil::str_eq(pairs[i].0.as_str(), id) {
        Some(&pairs[i].1)
    } else {
        get_type_at(pairs, id, i + 1)
    }
}

fn get_keys_at<'a>(pairs: &'a Vec<(i64, Vec<i64>)>, sid: i64, i: usize) -> (r: Option<
    &'a Vec<i64>,
>)
    requires
        i <= pairs@.len(),
    ensures
        match r {
            Some(ks) => find_keys_from(pairs@, sid, i as int) == Some(ks@),
            None => find_keys_from(pairs@, sid, i as int) is None,
        },
    decreases pairs@.len() - i,
{
    if i >= pairs.len() {
        None
    } else if pairs[i].0 == sid {
        Some(&pairs[i].1)
    } else {
        get_keys_at(pairs, sid, i + 1)
    }
}

/// Spec-level image of a loaded catalog.
pub struct SpecCatalog {
    pub name: Seq<char>,
    pub rev: Seq<char>,
    pub sids: Seq<(Seq<char>, i64)>,
    pub types: Seq<(Seq<char>, crate::yang::SpecYang)>,
    pub keys: Seq<(i64, Seq<i64>)>,
}

pub open spec fn view_sid_pairs(pairs: Seq<(String, i64)>) -> Seq<(Seq<char>, i64)> {
    Seq::new(pairs.len(), |i: int| (pairs[i].0@, pairs[i].1))
}

pub open spec fn view_type_pairs(pairs: Seq<(String, YangType)>) -> Seq<
    (Seq<char>, crate::yang::SpecYang),
>
    decreases pairs,
{
    Seq::new(
        pairs.len(),
        |i: int|
            if 0 <= i < pairs.len() {
                (pairs[i].0@, pairs[i].1@)
            } else {
                (Seq::empty(), crate::yang::SpecYang::String)
            },
    )
}

pub open spec fn view_key_pairs(pairs: Seq<(i64, Vec<i64>)>) -> Seq<(i64, Seq<i64>)> {
    Seq::new(pairs.len(), |i: int| (pairs[i].0, pairs[i].1@))
}

/// One item of the `item` array folded into the two maps: identifiers
/// and SIDs already seen are left as they are.
pub open spec fn spec_fold_item(
    entry: SpecVal,
    sids: Seq<(Seq<char>, i64)>,
    types: Seq<(Seq<char>, crate::yang::SpecYang)>,
) -> Option<(Seq<(Seq<char>, i64)>, Seq<(Seq<char>, crate::yang::SpecYang)>)> {
    match entry {
        SpecVal::Obj(fields) => match (
            crate::value::smap_get(fields, "identifier"@),
            crate::value::smap_get(fields, "sid"@),
        ) {
            (Some(SpecVal::Text(id)), Some(SpecVal::Int(n))) => if i64::MIN <= n <= i64::MAX {
                let sids2 = if spec_has_id(sids, id) || spec_has_sid(sids, n as i64) {
                    sids
                } else {
                    sids.push((id, n as i64))
                };
                let types2 = match crate::value::smap_get(fields, "type"@) {
                    Some(tv) => if spec_has_tid(types, id) {
                        types
                    } else {
                        types.push((id, crate::yang::spec_from_sid_type(tv)))
                    },
                    None => types,
                };
                Some((sids2, types2))
            } else {
                None
            },
            _ => None,
        },
        _ => None,
    }
}

pub open spec fn spec_has_id(sids: Seq<(Seq<char>, i64)>, id: Seq<char>) -> bool {
    exists|k: int| 0 <= k < sids.len() && (#[trigger] sids[k]).0 == id
}

pub open spec fn spec_has_sid(sids: Seq<(Seq<char>, i64)>, n: i64) -> bool {
    exists|k: int| 0 <= k < sids.len() && (#[trigger] sids[k]).1 == n
}

pub open spec fn spec_has_tid(types: Seq<(Seq<char>, crate::yang::SpecYang)>, id: Seq<char>) -> bool {
    exists|k: int| 0 <= k < types.len() && (#[trigger] types[k]).0 == id
}

pub open spec fn distinct_vids(s: Seq<(Seq<char>, i64)>) -> bool {
    forall|i: int, j: int|
        0 <= i < j < s.len() ==> (#[trigger] s[i]).0 != (#[trigger] s[j]).0
}

pub open spec fn distinct_vsids(s: Seq<(Seq<char>, i64)>) -> bool {
    forall|i: int, j: int|
        0 <= i < j < s.len() ==> (#[trigger] s[i]).1 != (#[trigger] s[j]).1
}

/// The items from index `i` on, folded in order.
pub open spec fn spec_fold_items(
    items: Seq<SpecVal>,
    i: int,
    sids: Seq<(Seq<char>, i64)>,
    types: Seq<(Seq<char>, crate::yang::SpecYang)>,
) -> Option<(Seq<(Seq<char>, i64)>, Seq<(Seq<char>, crate::yang::SpecYang)>)>
    decreases items.len() - i,
{
    if i < 0 || i >= items.len() {
        Some((sids, types))
    } else {
        match spec_fold_item(items[i], sids, types) {
            Some((s2, t2)) => spec_fold_items(items, i + 1, s2, t2),
            None => None,
        }
    }
}

/// The `key-mapping` entries from index `i` on: keys that read as
/// integers are kept, and every value must be an array of integers.
pub open spec fn spec_fold_keys(
    entries: Seq<(Seq<char>, SpecVal)>,
    i: int,
    acc: Seq<(i64, Seq<i64>)>,
) -> Option<Seq<(i64, Seq<i64>)>>
    decreases entries.len() - i,
{
    if i < 0 || i >= entries.len() {
        Some(acc)
    } else {
        match crate::strutil::parse_int_i64(entries[i].0) {
            Some(k) => match entries[i].1 {
                SpecVal::Arr(items) => match spec_int_list(items, 0) {
                    Some(ks) => spec_fold_keys(entries, i + 1, acc.push((k, ks))),
                    None => None,
                },
                _ => None,
            },
            None => spec_fold_keys(entries, i + 1, acc),
        }
    }
}

pub open spec fn spec_int_list(items: Seq<SpecVal>, i: int) -> Option<Seq<i64>>
    decreases items.len() - i,
{
    if i < 0 || i >= items.len() {
        Some(Seq::empty())
    } else {
        match items[i] {
            SpecVal::Int(n) => if i64::MIN <= n <= i64::MAX {
                match spec_int_list(items, i + 1) {
                    Some(rest) => Some(seq![n as i64] + rest),
                    None => None,
                }
            } else {
                None
            },
            _ => None,
        }
    }
}

/// What a SID file document means, if it is well formed: the module
/// names, the folded identifier/SID pairs, the types, and the key map.
pub open spec fn spec_catalog(b: Seq<u8>) -> Option<SpecCatalog> {
    match crate::json::spec_parse_json(b) {
        Some(SpecVal::Obj(fields)) => {
            match (
                crate::value::smap_get(fields, "module-name"@),
                crate::value::smap_get(fields, "module-revision"@),
            ) {
                (Some(SpecVal::Text(name)), Some(SpecVal::Text(rev))) => {
                    let items_field = match crate::value::smap_get(fields, "item"@) {
                        Some(x) => Some(x),
                        None => crate::value::smap_get(fields, "items"@),
                    };
                    match items_field {
                        Some(SpecVal::Arr(items)) => match spec_fold_items(
                            items,
                            0,
                            Seq::empty(),
                            Seq::empty(),
                        ) {
                            Some((sids, types)) => {
                                let km = match crate::value::smap_get(fields, "key-mapping"@) {
                                    Some(SpecVal::Obj(kentries)) => spec_fold_keys(
                                        kentries,
                                        0,
                                        Seq::empty(),
                                    ),
                                    Some(_) => None,
                                    None => Some(Seq::empty()),
                                };
                                match km {
                                    Some(keys) => Some(
                                        SpecCatalog { name, rev, sids, types, keys },
                                    ),
                                    None => None,
                                }
                            },
                            None => None,
                        },
                        _ => None,
                    }
                },
                _ => None,
            }
        },
        _ => None,
    }
}

proof fn lemma_find_sid_index(pairs: Seq<(String, i64)>, id: Seq<char>, i: int)
    requires
        0 <= i <= pairs.len(),
    ensures
        match find_sid_from(pairs, id, i) {
            Some(s) => exists|k: int|
                i <= k < pairs.len() && (#[trigger] pairs[k]).0@ == id && pairs[k].1 == s,
            None => forall|k: int| i <= k < pairs.len() ==> (#[trigger] pairs[k]).0@ != id,
        },
    decreases pairs.len() - i,
{
    if i < pairs.len() && pairs[i].0@ != id {
        lemma_find_sid_index(pairs, id, i + 1);
    }
}

proof fn lemma_find_id_index(pairs: Seq<(String, i64)>, sid: i64, i: int)
    requires
        0 <= i <= pairs.len(),
    ensures
        match find_id_from(pairs, sid, i) {
            Some(s) => exists|k: int|
                i <= k < pairs.len() && (#[trigger] pairs[k]).1 == sid && pairs[k].0@ == s,
            None => forall|k: int| i <= k < pairs.len() ==> (#[trigger] pairs[k]).1 != sid,
        },
    decreases pairs.len() - i,
{
    if i < pairs.len() && pairs[i].1 != sid {
        lemma_find_id_index(pairs, sid, i + 1);
    }
}

/// In a well-formed catalog the two lookup directions invert each
/// other: an identifier resolves to a SID exactly when that SID
/// resolves back to the identifier.
pub proof fn lemma_sid_bijection(cat: SidFile, id: Seq<char>, sid: i64)
    requires
        cat.wf(),
    ensures
        cat.spec_get_sid(id) == Some(sid) ==> cat.spec_get_identifier(sid) == Some(id),
        cat.spec_get_identifier(sid) == Some(id) ==> cat.spec_get_sid(id) == Some(sid),
{
    let pairs = cat.sids@;
    lemma_find_sid_index(pairs, id, 0);
    lemma_find_id_index(pairs, sid, 0);
    if cat.spec_get_sid(id) == Some(sid) {
        let k = choose|k: int|
            0 <= k < pairs.len() && (#[trigger] pairs[k]).0@ == id && pairs[k].1 == sid;
        match find_id_from(pairs, sid, 0) {
            None => {
                assert(pairs[k].1 == sid);
            },
            Some(id2) => {
                let k2 = choose|j: int|
                    0 <= j < pairs.len() && (#[trigger] pairs[j]).1 == sid && pairs[j].0@ == id2;
                if k2 != k {
                    if k2 < k {
                        assert(pairs[k2].1 != pairs[k].1);
                    } else {
                        assert(pairs[k].1 != pairs[k2].1);
                    }
                }
                assert(id2 == id);
            },
        }
    }
    if cat.spec_get_identifier(sid) == Some(id) {
        let k = choose|j: int|
            0 <= j < pairs.len() && (#[trigger] pairs[j]).1 == sid && pairs[j].0@ == id;
        match find_sid_from(pairs, id, 0) {
            None => {
                assert(pairs[k].0@ == id);
            },
            Some(s2) => {
                let k2 = choose|j: int|
                    0 <= j < pairs.len() && (#[trigger] pairs[j]).0@ == id && pairs[j].1 == s2;
                if k2 != k {
                    if k2 < k {
                        assert(pairs[k2].0@ != pairs[k].0@);
                    } else {
                        assert(pairs[k].0@ != pairs[k2].0@);
                    }
                }
                assert(s2 == sid);
            },
        }
    }
}

fn has_id_exec(sids: &Vec<(String, i64)>, id: &str) -> (r: bool)
    ensures
        r == spec_has_id(view_sid_pairs(sids@), id@),
{
    let found = get_sid_at(sids, id, 0);
    proof {
        lemma_find_sid_index(sids@, id@, 0);
        let vs = view_sid_pairs(sids@);
        if find_sid_from(sids@, id@, 0) is Some {
            let k = choose|k: int|
                0 <= k < sids@.len() && (#[trigger] sids@[k]).0@ == id@ && sids@[k].1
                    == find_sid_from(sids@, id@, 0)->Some_0;
            assert(vs[k].0 == id@);
        } else {
            assert(forall|k: int| 0 <= k < vs.len() ==> (#[trigger] vs[k]).0 == sids@[k].0@);
        }
    }
    found.is_some()
}

fn has_sid_exec(sids: &Vec<(String, i64)>, n: i64) -> (r: bool)
    ensures
        r == spec_has_sid(view_sid_pairs(sids@), n),
{
    let found = get_id_at(sids, n, 0);
    proof {
        lemma_find_id_index(sids@, n, 0);
        let vs = view_sid_pairs(sids@);
        if find_id_from(sids@, n, 0) is Some {
            let k = choose|k: int|
                0 <= k < sids@.len() && (#[trigger] sids@[k]).1 == n && sids@[k].0@
                    == find_id_from(sids@, n, 0)->Some_0;
            assert(vs[k].1 == n);
        } else {
            assert(forall|k: int| 0 <= k < vs.len() ==> (#[trigger] vs[k]).1 == sids@[k].1);
        }
    }
    found.is_some()
}

proof fn lemma_find_type_index(pairs: Seq<(String, YangType)>, id: Seq<char>, i: int)
    requires
        0 <= i <= pairs.len(),
    ensures
        (find_type_from(pairs, id, i) is Some) == (exists|k: int|
            i <= k < pairs.len() && (#[trigger] pairs[k]).0@ == id),
    decreases pairs.len() - i,
{
    if i < pairs.len() && pairs[i].0@ != id {
        lemma_find_type_index(pairs, id, i + 1);
    }
}

fn has_tid_exec(types: &Vec<(String, YangType)>, id: &str) -> (r: bool)
    ensures
        r == spec_has_tid(view_type_pairs(types@), id@),
{
    let found = get_type_at(types, id, 0);
    proof {
        lemma_find_type_index(types@, id@, 0);
        let vt = view_type_pairs(types@);
        assert(forall|k: int| 0 <= k < vt.len() ==> (#[trigger] vt[k]).0 == types@[k].0@);
        if exists|k: int| 0 <= k < types@.len() && (#[trigger] types@[k]).0@ == id@ {
            let k = choose|k: int| 0 <= k < types@.len() && (#[trigger] types@[k]).0@ == id@;
            assert(vt[k].0 == id@);
        }
        if exists|k: int| 0 <= k < vt.len() && (#[trigger] vt[k]).0 == id@ {
            let k = choose|k: int| 0 <= k < vt.len() && (#[trigger] vt[k]).0 == id@;
            assert(types@[k].0@ == id@);
        }
    }
    found.is_some()
}

fn int_list(items: &Vec<Val>, i: usize) -> (r: Option<Vec<i64>>)
    requires
        i <= items@.len(),
    ensures
        match r {
            Some(ks) => spec_int_list(crate::value::view_items(items@), i as int) == Some(ks@),
            None => spec_int_list(crate::value::view_items(items@), i as int) is None,
        },
    decreases items@.len() - i,
{
    if i >= items.len() {
        let ks: Vec<i64> = Vec::new();
        proof {
            assert(ks@ =~= Seq::<i64>::empty());
        }
        return Some(ks);
    }
    let n: i64 = match &items[i] {
        Val::Int(n) => *n,
        Val::UInt(u) => {
            if *u <= 0x7fffffffffffffffu64 {
                *u as i64
            } else {
                return None;
            }
        },
        _ => {
            return None;
        },
    };
    match int_list(items, i + 1) {
        Some(mut rest) => {
            rest.insert(0, n);
            proof {
                assert(rest@ =~= seq![n] + spec_int_list(
                    crate::value::view_items(items@),
                    i + 1,
                )->Some_0);
            }
            Some(rest)
        },
        None => None,
    }
}

fn fold_keys(kentries: &Vec<(String, Val)>, i: usize, out: &mut Vec<(i64, Vec<i64>)>) -> (ok: bool)
    requires
        i <= kentries@.len(),
    ensures
        match spec_fold_keys(
            crate::value::view_entries(kentries@),
            i as int,
            view_key_pairs(old(out)@),
        ) {
            Some(ks) => ok && view_key_pairs(final(out)@) == ks,
            None => !ok,
        },
    decreases kentries@.len() - i,
{
    if i >= kentries.len() {
        return true;
    }
    let ghost ev = crate::value::view_entries(kentries@);
    match crate::strutil::parse_i64_str(kentries[i].0.as_str()) {
        Some(k) => {
            match &kentries[i].1 {
                Val::Arr(items) => {
                    match int_list(items, 0) {
                        Some(ks) => {
                            let ghost ks_v = ks@;
                            out.push((k, ks));
                            proof {
                                assert(view_key_pairs(out@) =~= view_key_pairs(old(out)@).push(
                                    (k, ks_v),
                                ));
                            }
                            fold_keys(kentries, i + 1, out)
                        },
                        None => false,
                    }
                },
                _ => false,
            }
        },
        None => fold_keys(kentries, i + 1, out),
    }
}

fn fold_items(
    items: &Vec<Val>,
    i: usize,
    sids: &mut Vec<(String, i64)>,
    types: &mut Vec<(String, YangType)>,
) -> (ok: bool)
    requires
        i <= items@.len(),
        distinct_vids(view_sid_pairs(old(sids)@)),
        distinct_vsids(view_sid_pairs(old(sids)@)),
    ensures
        match spec_fold_items(
            crate::value::view_items(items@),
            i as int,
            view_sid_pairs(old(sids)@),
            view_type_pairs(old(types)@),
        ) {
            Some((s2, t2)) => ok && view_sid_pairs(final(sids)@) == s2 && view_type_pairs(
                final(types)@,
            ) == t2,
            None => !ok,
        },
        distinct_vids(view_sid_pairs(final(sids)@)),
        distinct_vsids(view_sid_pairs(final(sids)@)),
    decreases items@.len() - i,
{
    if i >= items.len() {
        return true;
    }
    let fields = match &items[i] {
        Val::Obj(fields) => fields,
        _ => {
            return false;
        },
    };
    let id: &String = match crate::value::obj_get(fields, "identifier") {
        Some(Val::Text(id)) => id,
        _ => {
            return false;
        },
    };
    let n: i64 = match crate::value::obj_get(fields, "sid") {
        Some(Val::Int(n)) => *n,
        Some(Val::UInt(u)) => {
            if *u <= 0x7fffffffffffffffu64 {
                *u as i64
            } else {
                return false;
            }
        },
        _ => {
            return false;
        },
    };
    let ghost pre_sids = view_sid_pairs(sids@);
    if !has_id_exec(sids, id.as_str()) && !has_sid_exec(sids, n) {
        let id2 = crate::value::clone_string(id);
        sids.push((id2, n));
        proof {
            assert(view_sid_pairs(sids@) =~= pre_sids.push((id@, n)));
            let s2 = view_sid_pairs(sids@);
            assert forall|a: int, b: int| 0 <= a < b < s2.len() implies (#[trigger] s2[a]).0 != (
            #[trigger] s2[b]).0 by {
                if b == s2.len() - 1 {
                    assert(!spec_has_id(pre_sids, id@));
                    assert(pre_sids[a] == s2[a]);
                }
            }
            assert forall|a: int, b: int| 0 <= a < b < s2.len() implies (#[trigger] s2[a]).1 != (
            #[trigger] s2[b]).1 by {
                if b == s2.len() - 1 {
                    assert(!spec_has_sid(pre_sids, n));
                    assert(pre_sids[a] == s2[a]);
                }
            }
        }
    }
    let ghost pre_types = view_type_pairs(types@);
    match crate::value::obj_get(fields, "type") {
        Some(tv) => {
            if !has_tid_exec(types, id.as_str()) {
                let id3 = crate::value::clone_string(id);
                let t = YangType::from_sid_type(tv);
                types.push((id3, t));
                proof {
                    assert(view_type_pairs(types@) =~= pre_types.push(
                        (id@, crate::yang::spec_from_sid_type(tv@)),
                    ));
                }
            }
        },
        None => {},
    }
    fold_items(items, i + 1, sids, types)
}

fn sid_file_err() -> (r: CoreconfError)
    ensures
        r is InvalidSidFile,
{
    CoreconfError::InvalidSidFile(String::from_str("missing or malformed field"))
}

impl SidFile {
    /// Loads a catalog from the JSON text of a SID file. A later item
    /// whose identifier or SID was already bound is left out, which
    /// keeps the two lookup directions mutual inverses.
    pub fn from_json_str(content: &str) -> (r: Result<SidFile, CoreconfError>)
        ensures
            match r {
                Ok(f) => {
                    &&& f.wf()
                    &&& spec_catalog(vstd::utf8::encode_utf8(content@)) matches Some(m)
                        && f.module_name@ == m.name && f.module_revision@ == m.rev
                        && view_sid_pairs(f.sids@) == m.sids && view_type_pairs(f.types@)
                        == m.types && view_key_pairs(f.key_mapping@) == m.keys
                },
                Err(e) => spec_catalog(vstd::utf8::encode_utf8(content@)) is None
                    && e is InvalidSidFile,
            },
    {
        let parsed = match crate::json::parse_json(content) {
            Ok(v) => v,
            Err(_) => {
                return Err(sid_file_err());
            },
        };
        let fields = match &parsed {
            Val::Obj(fields) => fields,
            _ => {
                return Err(sid_file_err());
            },
        };
        let name: String = match crate::value::obj_get(fields, "module-name") {
            Some(Val::Text(s)) => crate::value::clone_string(s),
            _ => {
                return Err(sid_file_err());
            },
        };
        let rev: String = match crate::value::obj_get(fields, "module-revision") {
            Some(Val::Text(s)) => crate::value::clone_string(s),
            _ => {
                return Err(sid_file_err());
            },
        };
        let items_opt = match crate::value::obj_get(fields, "item") {
            Some(x) => Some(x),
            None => crate::value::obj_get(fields, "items"),
        };
        let items: &Vec<Val> = match items_opt {
            Some(Val::Arr(items)) => items,
            _ => {
                return Err(sid_file_err());
            },
        };
        let mut sids: Vec<(String, i64)> = Vec::new();
        let mut types: Vec<(String, YangType)> = Vec::new();
        proof {
            assert(view_sid_pairs(sids@) =~= Seq::<(Seq<char>, i64)>::empty());
            assert(view_type_pairs(types@) =~= Seq::<(Seq<char>, crate::yang::SpecYang)>::empty());
        }
        if !fold_items(items, 0, &mut sids, &mut types) {
            return Err(sid_file_err());
        }
        let mut key_mapping: Vec<(i64, Vec<i64>)> = Vec::new();
        proof {
            assert(view_key_pairs(key_mapping@) =~= Seq::<(i64, Seq<i64>)>::empty());
        }
        match crate::value::obj_get(fields, "key-mapping") {
            Some(Val::Obj(kentries)) => {
                if !fold_keys(kentries, 0, &mut key_mapping) {
                    return Err(sid_file_err());
                }
            },
            Some(_) => {
                return Err(sid_file_err());
            },
            None => {},
        }
        let head = crate::strutil::str_concat("/", name.as_str());
        let module_prefix = head.concat(":");
        proof {
            assert(module_prefix@ =~= "/"@ + name@ + ":"@);
        }
        let f = SidFile {
            module_name: name,
            module_revision: rev,
            module_prefix,
            sids,
            types,
            key_mapping,
        };
        proof {
            let vs = view_sid_pairs(f.sids@);
            assert forall|a: int, b: int| 0 <= a < b < f.sids@.len() implies (
            #[trigger] f.sids@[a]).0@ != (#[trigger] f.sids@[b]).0@ by {
                assert(vs[a].0 == f.sids@[a].0@ && vs[b].0 == f.sids@[b].0@);
            }
            assert forall|a: int, b: int| 0 <= a < b < f.sids@.len() implies (
            #[trigger] f.sids@[a]).1 != (#[trigger] f.sids@[b]).1 by {
                assert(vs[a].1 == f.sids@[a].1 && vs[b].1 == f.sids@[b].1);
            }
        }
        Ok(f)
    }
}

impl core::str::FromStr for SidFile {
    type Err = CoreconfError;

    fn from_str(s: &str) -> core::result::Result<SidFile, CoreconfError> {
        SidFile::from_json_str(s)
    }
}

} // verus!
