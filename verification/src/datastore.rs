//! The in-memory datastore: a data tree addressed by SID, by YANG path
//! or by instance path, with get, set and delete.

use vstd::prelude::*;
use vstd::string::*;
use crate::coreconf::CoreconfModel;
use crate::error::{CoreconfError, SpecErr, err_matches};
use crate::instance_id::InstancePath;
use crate::strutil::{spec_segments, split_segments, str_eq, suffix_after_last,
    suffix_after_last_str};
use crate::value::{smap_get, SpecVal, Val};

verus! {

broadcast use vstd::std_specs::vec::group_vec_axioms;

/// Replaces the value under the first occurrence of `k`, or appends the
/// pair when `k` is absent.
pub open spec fn smap_insert(
    entries: Seq<(Seq<char>, SpecVal)>,
    k: Seq<char>,
    v: SpecVal,
) -> Seq<(Seq<char>, SpecVal)>
    decreases entries.len(),
{
    if entries.len() == 0 {
        seq![(k, v)]
    } else if entries[0].0 == k {
        seq![(entries[0].0, v)] + entries.drop_first()
    } else {
        seq![entries[0]] + smap_insert(entries.drop_first(), k, v)
    }
}

/// Drops every entry whose key is `k`.
pub open spec fn smap_remove(entries: Seq<(Seq<char>, SpecVal)>, k: Seq<char>) -> Seq<
    (Seq<char>, SpecVal),
>
    decreases entries.len(),
{
    if entries.len() == 0 {
        entries
    } else if entries[0].0 == k {
        smap_remove(entries.drop_first(), k)
    } else {
        seq![entries[0]] + smap_remove(entries.drop_first(), k)
    }
}

/// Walks the tree by segments; a segment missing under its exact name
/// is retried with any `prefix:` stripped.
pub open spec fn spec_lookup(t: SpecVal, parts: Seq<Seq<char>>, i: int) -> Option<SpecVal>
    decreases parts.len() - i,
{
    if i < 0 || i >= parts.len() {
        Some(t)
    } else {
        match t {
            SpecVal::Obj(entries) => match smap_get(entries, parts[i]) {
                Some(sub) => spec_lookup(sub, parts, i + 1),
                None => match smap_get(entries, suffix_after_last(parts[i], ':')) {
                    Some(sub) => spec_lookup(sub, parts, i + 1),
                    None => None,
                },
            },
            _ => None,
        }
    }
}

/// Sets the value at the segments, creating missing intermediate maps;
/// a non-map node on the way swallows the segment.
pub open spec fn spec_set_rec(t: SpecVal, parts: Seq<Seq<char>>, i: int, v: SpecVal) -> SpecVal
    decreases parts.len() - i,
{
    if i < 0 || i >= parts.len() {
        t
    } else if i == parts.len() - 1 {
        match t {
            SpecVal::Obj(entries) => SpecVal::Obj(smap_insert(entries, parts[i], v)),
            _ => t,
        }
    } else {
        match t {
            SpecVal::Obj(entries) => {
                let sub = match smap_get(entries, parts[i]) {
                    Some(s) => s,
                    None => SpecVal::Obj(Seq::empty()),
                };
                SpecVal::Obj(smap_insert(entries, parts[i], spec_set_rec(sub, parts, i + 1, v)))
            },
            _ => spec_set_rec(t, parts, i + 1, v),
        }
    }
}

/// Removes the value at the segments: the new tree and whether a value
/// was there.
pub open spec fn spec_remove_rec(t: SpecVal, parts: Seq<Seq<char>>, i: int) -> (SpecVal, bool)
    decreases parts.len() - i,
{
    if i < 0 || i >= parts.len() {
        (t, false)
    } else if i == parts.len() - 1 {
        match t {
            SpecVal::Obj(entries) => (
                SpecVal::Obj(smap_remove(entries, parts[i])),
                smap_get(entries, parts[i]) is Some,
            ),
            _ => (t, false),
        }
    } else {
        match t {
            SpecVal::Obj(entries) => match smap_get(entries, parts[i]) {
                Some(sub) => {
                    let r = spec_remove_rec(sub, parts, i + 1);
                    (SpecVal::Obj(smap_insert(entries, parts[i], r.0)), r.1)
                },
                None => (t, false),
            },
            _ => spec_remove_rec(t, parts, i + 1),
        }
    }
}

/// Whole-path forms: the empty path names the whole tree.
pub open spec fn spec_get_path(t: SpecVal, path: Seq<char>) -> Option<SpecVal> {
    let parts = spec_segments(path);
    if parts.len() == 0 {
        Some(t)
    } else {
        spec_lookup(t, parts, 0)
    }
}

pub open spec fn spec_set_path(t: SpecVal, path: Seq<char>, v: SpecVal) -> SpecVal {
    let parts = spec_segments(path);
    if parts.len() == 0 {
        v
    } else {
        spec_set_rec(t, parts, 0, v)
    }
}

pub open spec fn spec_remove_path(t: SpecVal, path: Seq<char>) -> (SpecVal, bool) {
    let parts = spec_segments(path);
    if parts.len() == 0 {
        (SpecVal::Obj(Seq::empty()), true)
    } else {
        spec_remove_rec(t, parts, 0)
    }
}

proof fn lemma_smap_get_index(entries: Seq<(Seq<char>, SpecVal)>, k: Seq<char>)
    ensures
        match smap_get(entries, k) {
            Some(v) => exists|j: int|
                0 <= j < entries.len() && (#[trigger] entries[j]).0 == k && entries[j].1 == v && (
                forall|l: int| 0 <= l < j ==> (#[trigger] entries[l]).0 != k),
            None => forall|j: int| 0 <= j < entries.len() ==> (#[trigger] entries[j]).0 != k,
        },
    decreases entries.len(),
{
    if entries.len() > 0 && entries[0].0 != k {
        lemma_smap_get_index(entries.drop_first(), k);
        let rest = entries.drop_first();
        match smap_get(rest, k) {
            Some(v) => {
                let j = choose|j: int|
                    0 <= j < rest.len() && (#[trigger] rest[j]).0 == k && rest[j].1 == v && (
                    forall|l: int| 0 <= l < j ==> (#[trigger] rest[l]).0 != k);
                assert(entries[j + 1].0 == k && entries[j + 1].1 == v);
                assert forall|l: int| 0 <= l < j + 1 implies (#[trigger] entries[l]).0 != k by {
                    if l >= 1 {
                        assert(entries[l] == rest[l - 1]);
                    }
                }
            },
            None => {
                assert(forall|j: int|
                    1 <= j < entries.len() ==> (#[trigger] entries[j]).0 == rest[j - 1].0);
            },
        }
    }
}

/// Looking up a key right after setting it finds the new value.
pub proof fn lemma_smap_get_insert(entries: Seq<(Seq<char>, SpecVal)>, k: Seq<char>, v: SpecVal)
    ensures
        smap_get(smap_insert(entries, k, v), k) == Some(v),
    decreases entries.len(),
{
    if entries.len() == 0 {
    } else if entries[0].0 == k {
        assert(smap_insert(entries, k, v)[0] == (entries[0].0, v));
    } else {
        lemma_smap_get_insert(entries.drop_first(), k, v);
        assert(smap_insert(entries, k, v).drop_first() =~= smap_insert(
            entries.drop_first(),
            k,
            v,
        ));
    }
}

/// Setting the same key twice is the same as setting it once.
pub proof fn lemma_smap_insert_insert(
    entries: Seq<(Seq<char>, SpecVal)>,
    k: Seq<char>,
    a: SpecVal,
    b: SpecVal,
)
    ensures
        smap_insert(smap_insert(entries, k, a), k, b) == smap_insert(entries, k, b),
    decreases entries.len(),
{
    if entries.len() == 0 {
        assert(smap_insert(smap_insert(entries, k, a), k, b) =~= smap_insert(entries, k, b));
    } else if entries[0].0 == k {
        let e1 = smap_insert(entries, k, a);
        assert(e1[0].0 == k);
        assert(e1.drop_first() =~= entries.drop_first());
        assert(smap_insert(e1, k, b) =~= smap_insert(entries, k, b));
    } else {
        lemma_smap_insert_insert(entries.drop_first(), k, a, b);
        let e1 = smap_insert(entries, k, a);
        assert(e1[0] == entries[0]);
        assert(e1.drop_first() =~= smap_insert(entries.drop_first(), k, a));
        assert(smap_insert(e1, k, b) =~= smap_insert(entries, k, b));
    }
}

/// Looking up a key right after removing it finds nothing.
pub proof fn lemma_smap_get_remove(entries: Seq<(Seq<char>, SpecVal)>, k: Seq<char>)
    ensures
        smap_get(smap_remove(entries, k), k) is None,
    decreases entries.len(),
{
    if entries.len() > 0 {
        lemma_smap_get_remove(entries.drop_first(), k);
        if entries[0].0 != k {
            let r = smap_remove(entries, k);
            assert(r[0] == entries[0]);
            assert(r.drop_first() =~= smap_remove(entries.drop_first(), k));
        }
    }
}

/// A tree that is not a map is left alone by set, whatever the path.
pub proof fn lemma_set_non_obj(t: SpecVal, parts: Seq<Seq<char>>, i: int, v: SpecVal)
    requires
        !(t is Obj),
    ensures
        spec_set_rec(t, parts, i, v) == t,
    decreases parts.len() - i,
{
    if 0 <= i < parts.len() && i != parts.len() - 1 {
        lemma_set_non_obj(t, parts, i + 1, v);
    }
}

/// Applying the same set twice is the same as applying it once.
pub proof fn lemma_set_idempotent(t: SpecVal, parts: Seq<Seq<char>>, i: int, v: SpecVal)
    ensures
        spec_set_rec(spec_set_rec(t, parts, i, v), parts, i, v) == spec_set_rec(t, parts, i, v),
    decreases parts.len() - i,
{
    if i < 0 || i >= parts.len() {
    } else if i == parts.len() - 1 {
        match t {
            SpecVal::Obj(entries) => {
                lemma_smap_insert_insert(entries, parts[i], v, v);
            },
            _ => {},
        }
    } else {
        match t {
            SpecVal::Obj(entries) => {
                let sub = match smap_get(entries, parts[i]) {
                    Some(s) => s,
                    None => SpecVal::Obj(Seq::empty()),
                };
                let s2 = spec_set_rec(sub, parts, i + 1, v);
                let e2 = smap_insert(entries, parts[i], s2);
                lemma_smap_get_insert(entries, parts[i], s2);
                lemma_set_idempotent(sub, parts, i + 1, v);
                lemma_smap_insert_insert(entries, parts[i], s2, s2);
            },
            _ => {
                lemma_set_non_obj(t, parts, i + 1, v);
                lemma_set_non_obj(t, parts, i, v);
            },
        }
    }
}

/// The law for whole paths: one set and two sets of the same value at
/// the same path leave the same tree.
pub proof fn lemma_set_path_idempotent(t: SpecVal, path: Seq<char>, v: SpecVal)
    ensures
        spec_set_path(spec_set_path(t, path, v), path, v) == spec_set_path(t, path, v),
{
    let parts = spec_segments(path);
    if parts.len() > 0 {
        lemma_set_idempotent(t, parts, 0, v);
    }
}

/// A tree that is not a map is left alone by delete, which then finds
/// nothing, whatever the path.
pub proof fn lemma_remove_non_obj(t: SpecVal, parts: Seq<Seq<char>>, i: int)
    requires
        !(t is Obj),
    ensures
        spec_remove_rec(t, parts, i) == (t, false),
    decreases parts.len() - i,
{
    if 0 <= i < parts.len() && i != parts.len() - 1 {
        lemma_remove_non_obj(t, parts, i + 1);
    }
}

/// After a delete that found its target, the value is gone: the lookup
/// returns nothing and a second delete finds nothing and changes
/// nothing. The last segment must carry no `:`, so the stripped-prefix
/// retry looks for the same name.
pub proof fn lemma_delete_then_get(t: SpecVal, parts: Seq<Seq<char>>, i: int)
    requires
        0 <= i < parts.len(),
        spec_remove_rec(t, parts, i).1 == true,
        suffix_after_last(parts[parts.len() - 1], ':') == parts[parts.len() - 1],
    ensures
        spec_lookup(spec_remove_rec(t, parts, i).0, parts, i) is None,
        spec_remove_rec(spec_remove_rec(t, parts, i).0, parts, i) == (
            spec_remove_rec(t, parts, i).0,
            false,
        ),
    decreases parts.len() - i,
{
    let t2 = spec_remove_rec(t, parts, i).0;
    if i == parts.len() - 1 {
        match t {
            SpecVal::Obj(entries) => {
                lemma_smap_get_remove(entries, parts[i]);
                lemma_smap_remove_remove(entries, parts[i]);
                let removed = smap_remove(entries, parts[i]);
                assert(t2 == SpecVal::Obj(removed));
                assert(smap_get(removed, parts[i]) is None);
                assert(suffix_after_last(parts[i], ':') == parts[i]);
                assert(spec_lookup(t2, parts, i) is None);
                assert(spec_remove_rec(t2, parts, i) == (SpecVal::Obj(smap_remove(removed, parts[i])), smap_get(removed, parts[i]) is Some));
                assert(smap_remove(removed, parts[i]) == removed);
            },
            _ => {
                assert(spec_remove_rec(t, parts, i).1 == false);
            },
        }
    } else {
        match t {
            SpecVal::Obj(entries) => {
                match smap_get(entries, parts[i]) {
                    Some(sub) => {
                        let r = spec_remove_rec(sub, parts, i + 1);
                        lemma_delete_then_get(sub, parts, i + 1);
                        lemma_smap_get_insert(entries, parts[i], r.0);
                        lemma_smap_insert_insert(entries, parts[i], r.0, r.0);
                        assert(t2 == SpecVal::Obj(smap_insert(entries, parts[i], r.0)));
                        assert(spec_lookup(t2, parts, i) == spec_lookup(r.0, parts, i + 1));
                        assert(spec_remove_rec(t2, parts, i) == (
                            SpecVal::Obj(smap_insert(smap_insert(entries, parts[i], r.0), parts[i], r.0)),
                            false,
                        ));
                    },
                    None => {},
                }
            },
            _ => {
                lemma_remove_non_obj(t, parts, i);
            },
        }
    }
}

/// Removing a key twice is the same as removing it once.
pub proof fn lemma_smap_remove_remove(entries: Seq<(Seq<char>, SpecVal)>, k: Seq<char>)
    ensures
        smap_remove(smap_remove(entries, k), k) == smap_remove(entries, k),
    decreases entries.len(),
{
    if entries.len() == 0 {
        assert(smap_remove(smap_remove(entries, k), k) =~= smap_remove(entries, k));
    } else if entries[0].0 == k {
        lemma_smap_remove_remove(entries.drop_first(), k);
    } else {
        lemma_smap_remove_remove(entries.drop_first(), k);
        let r = smap_remove(entries, k);
        assert(r[0] == entries[0]);
        assert(r.drop_first() =~= smap_remove(entries.drop_first(), k));
        assert(smap_remove(r, k) =~= smap_remove(entries, k));
    }
}

fn obj_find_idx(entries: &Vec<(String, Val)>, key: &str) -> (r: Option<usize>)
    ensures
        match r {
            Some(j) => {
                &&& 0 <= j < entries@.len()
                &&& entries@[j as int].0@ == key@
                &&& smap_get(crate::value::view_entries(entries@), key@) == Some(
                    entries@[j as int].1@,
                )
                &&& forall|l: int| 0 <= l < j ==> (#[trigger] entries@[l]).0@ != key@
            },
            None => smap_get(crate::value::view_entries(entries@), key@) is None,
        },
{
    let ghost ev = crate::value::view_entries(entries@);
    proof {
        lemma_smap_get_index(ev, key@);
    }
    let mut i: usize = 0;
    #[verifier::loop_isolation(false)]
    while i < entries.len()
        invariant
            i <= entries@.len(),
            forall|l: int| 0 <= l < i ==> (#[trigger] entries@[l]).0@ != key@,
        decreases entries@.len() - i,
    {
        if str_eq(entries[i].0.as_str(), key) {
            proof {
                if smap_get(ev, key@) is None {
                    assert(ev[i as int].0 == entries@[i as int].0@);
                    assert(false);
                }
                let j = choose|j: int|
                    0 <= j < ev.len() && (#[trigger] ev[j]).0 == key@ && ev[j].1 == smap_get(
                        ev,
                        key@,
                    )->Some_0 && (forall|l: int| 0 <= l < j ==> (#[trigger] ev[l]).0 != key@);
                assert(forall|l: int| 0 <= l < ev.len() ==> (#[trigger] ev[l]).0 == entries@[l].0@);
                if j < i as int {
                    assert(entries@[j].0@ != key@);
                    assert(ev[j].0 == entries@[j].0@);
                    assert(false);
                }
                if j > i as int {
                    assert(ev[i as int].0 != key@);
                    assert(false);
                }
                assert(j == i as int);
            }
            return Some(i);
        }
        i = i + 1;
    }
    proof {
        if smap_get(ev, key@) is Some {
            let j = choose|j: int|
                0 <= j < ev.len() && (#[trigger] ev[j]).0 == key@ && ev[j].1 == smap_get(
                    ev,
                    key@,
                )->Some_0 && (forall|l: int| 0 <= l < j ==> (#[trigger] ev[l]).0 != key@);
            assert(entries@[j].0@ == key@);
            assert(false);
        }
    }
    None
}

proof fn lemma_insert_at(entries: Seq<(Seq<char>, SpecVal)>, k: Seq<char>, v: SpecVal, j: int)
    requires
        0 <= j < entries.len(),
        entries[j].0 == k,
        forall|l: int| 0 <= l < j ==> (#[trigger] entries[l]).0 != k,
    ensures
        smap_insert(entries, k, v) == entries.update(j, (entries[j].0, v)),
    decreases entries.len(),
{
    if j == 0 {
        assert(smap_insert(entries, k, v) =~= entries.update(0, (entries[0].0, v)));
    } else {
        assert(entries[0].0 != k);
        lemma_insert_at(entries.drop_first(), k, v, j - 1);
        assert(smap_insert(entries, k, v) =~= entries.update(j, (entries[j].0, v))) by {
            assert(entries.drop_first().update(j - 1, (entries[j].0, v)) =~= entries.update(
                j,
                (entries[j].0, v),
            ).drop_first());
        }
    }
}

proof fn lemma_insert_append(entries: Seq<(Seq<char>, SpecVal)>, k: Seq<char>, v: SpecVal)
    requires
        forall|l: int| 0 <= l < entries.len() ==> (#[trigger] entries[l]).0 != k,
    ensures
        smap_insert(entries, k, v) == entries.push((k, v)),
    decreases entries.len(),
{
    if entries.len() == 0 {
        assert(smap_insert(entries, k, v) =~= entries.push((k, v)));
    } else {
        lemma_insert_append(entries.drop_first(), k, v);
        assert(smap_insert(entries, k, v) =~= entries.push((k, v))) by {
            assert(entries.drop_first().push((k, v)) =~= entries.push((k, v)).drop_first());
        }
    }
}

/// Sets `v` at the segments from `i` on, functionally.
fn set_rec(t: Val, parts: &Vec<String>, i: usize, v: Val) -> (r: Val)
    requires
        i < parts@.len(),
    ensures
        r@ == spec_set_rec(t@, view_segs(parts@), i as int, v@),
    decreases parts@.len() - i,
{
    let ghost segs = view_segs(parts@);
    let last = i == parts.len() - 1;
    match t {
        Val::Obj(mut entries) => {
            let ghost ev = crate::value::view_entries(entries@);
            let idx = obj_find_idx(&entries, parts[i].as_str());
            if last {
                match idx {
                    Some(j) => {
                        proof {
                            lemma_insert_at(ev, segs[i as int], v@, j as int);
                        }
                        let old_pair = entries.remove(j);
                        let key = old_pair.0;
                        entries.insert(j, (key, v));
                        proof {
                            assert(crate::value::view_entries(entries@) =~= ev.update(
                                j as int,
                                (ev[j as int].0, v@),
                            ));
                        }
                        Val::Obj(entries)
                    },
                    None => {
                        proof {
                            assert(forall|l: int|
                                0 <= l < ev.len() ==> (#[trigger] ev[l]).0 == entries@[l].0@);
                            lemma_smap_get_index(ev, segs[i as int]);
                            if exists|l: int| 0 <= l < ev.len() && (#[trigger] ev[l]).0
                                == segs[i as int] {
                                let l = choose|l: int|
                                    0 <= l < ev.len() && (#[trigger] ev[l]).0 == segs[i as int];
                                assert(entries@[l].0@ == segs[i as int]);
                                assert(false);
                            }
                            lemma_insert_append(ev, segs[i as int], v@);
                        }
                        let key = crate::value::clone_string(&parts[i]);
                        entries.push((key, v));
                        proof {
                            assert(crate::value::view_entries(entries@) =~= ev.push(
                                (segs[i as int], v@),
                            ));
                        }
                        Val::Obj(entries)
                    },
                }
            } else {
                match idx {
                    Some(j) => {
                        proof {
                            lemma_insert_at(
                                ev,
                                segs[i as int],
                                spec_set_rec(ev[j as int].1, segs, i + 1, v@),
                                j as int,
                            );
                        }
                        let old_pair = entries.remove(j);
                        let key = old_pair.0;
                        let sub2 = set_rec(old_pair.1, parts, i + 1, v);
                        entries.insert(j, (key, sub2));
                        proof {
                            assert(crate::value::view_entries(entries@) =~= ev.update(
                                j as int,
                                (ev[j as int].0, spec_set_rec(ev[j as int].1, segs, i + 1, v@)),
                            ));
                        }
                        Val::Obj(entries)
                    },
                    None => {
                        proof {
                            assert(forall|l: int|
                                0 <= l < ev.len() ==> (#[trigger] ev[l]).0 == entries@[l].0@);
                            lemma_smap_get_index(ev, segs[i as int]);
                            if exists|l: int| 0 <= l < ev.len() && (#[trigger] ev[l]).0
                                == segs[i as int] {
                                let l = choose|l: int|
                                    0 <= l < ev.len() && (#[trigger] ev[l]).0 == segs[i as int];
                                assert(entries@[l].0@ == segs[i as int]);
                                assert(false);
                            }
                            lemma_insert_append(
                                ev,
                                segs[i as int],
                                spec_set_rec(SpecVal::Obj(Seq::empty()), segs, i + 1, v@),
                            );
                        }
                        let key = crate::value::clone_string(&parts[i]);
                        let fresh = Val::Obj(Vec::new());
                        proof {
                            assert(fresh@ == SpecVal::Obj(
                                crate::value::view_entries(Seq::<(String, Val)>::empty()),
                            ));
                            assert(crate::value::view_entries(Seq::<(String, Val)>::empty())
                                =~= Seq::<(Seq<char>, SpecVal)>::empty());
                        }
                        let sub2 = set_rec(fresh, parts, i + 1, v);
                        entries.push((key, sub2));
                        proof {
                            assert(crate::value::view_entries(entries@) =~= ev.push(
                                (
                                    segs[i as int],
                                    spec_set_rec(SpecVal::Obj(Seq::empty()), segs, i + 1, v@),
                                ),
                            ));
                        }
                        Val::Obj(entries)
                    },
                }
            }
        },
        other => {
            if last {
                other
            } else {
                set_rec(other, parts, i + 1, v)
            }
        },
    }
}

/// Removes the value at the segments from `i` on, functionally.
fn remove_rec(t: Val, parts: &Vec<String>, i: usize) -> (r: (Val, bool))
    requires
        i < parts@.len(),
    ensures
        r.0@ == spec_remove_rec(t@, view_segs(parts@), i as int).0,
        r.1 == spec_remove_rec(t@, view_segs(parts@), i as int).1,
    decreases parts@.len() - i,
{
    let ghost segs = view_segs(parts@);
    let last = i == parts.len() - 1;
    match t {
        Val::Obj(mut entries) => {
            let ghost ev = crate::value::view_entries(entries@);
            if last {
                let mut out: Vec<(String, Val)> = Vec::new();
                let mut found = false;
                let mut j: usize = 0;
                proof {
                    assert(ev.skip(0) =~= ev);
                    assert(crate::value::view_entries(out@) =~= Seq::<(Seq<char>, SpecVal)>::empty());
                    assert(ev.take(0) =~= Seq::<(Seq<char>, SpecVal)>::empty());
                }
                #[verifier::loop_isolation(false)]
                while j < entries.len()
                    invariant
                        j <= entries@.len(),
                        smap_remove(ev, segs[i as int]) =~= crate::value::view_entries(out@)
                            + smap_remove(
                            crate::value::view_entries(entries@).skip(j as int),
                            segs[i as int],
                        ),
                        found == (smap_get(ev.take(j as int), segs[i as int]) is Some),
                    decreases entries@.len() - j,
                {
                    proof {
                        assert(ev.skip(j as int)[0] == ev[j as int]);
                        assert(ev.skip(j as int).drop_first() =~= ev.skip(j + 1));
                        lemma_smap_take_step(ev, segs[i as int], j as int);
                    }
                    let ghost pre_out = crate::value::view_entries(out@);
                    if str_eq(entries[j].0.as_str(), parts[i].as_str()) {
                        found = true;
                        proof {
                            assert(ev[j as int].0 == segs[i as int]);
                            assert(smap_remove(ev.skip(j as int), segs[i as int]) == smap_remove(
                                ev.skip(j + 1),
                                segs[i as int],
                            ));
                        }
                    } else {
                        let k2 = crate::value::clone_string(&entries[j].0);
                        let v2 = entries[j].1.dup();
                        out.push((k2, v2));
                        proof {
                            assert(crate::value::view_entries(out@) =~= pre_out.push(
                                (ev[j as int].0, ev[j as int].1),
                            ));
                            assert(smap_remove(ev.skip(j as int), segs[i as int]) == seq![
                                ev[j as int],
                            ] + smap_remove(ev.skip(j + 1), segs[i as int]));
                            assert(smap_remove(ev, segs[i as int]) =~= crate::value::view_entries(
                                out@,
                            ) + smap_remove(ev.skip(j + 1), segs[i as int]));
                        }
                    }
                    j = j + 1;
                }
                proof {
                    assert(ev.skip(entries@.len() as int) =~= Seq::<(Seq<char>, SpecVal)>::empty());
                    assert(smap_remove(ev, segs[i as int]) =~= crate::value::view_entries(out@));
                    assert(ev.take(entries@.len() as int) =~= ev);
                }
                (Val::Obj(out), found)
            } else {
                let idx = obj_find_idx(&entries, parts[i].as_str());
                match idx {
                    Some(j) => {
                        let old_pair = entries.remove(j);
                        let key = old_pair.0;
                        let (sub2, found) = remove_rec(old_pair.1, parts, i + 1);
                        proof {
                            lemma_insert_at(
                                ev,
                                segs[i as int],
                                spec_remove_rec(ev[j as int].1, segs, i + 1).0,
                                j as int,
                            );
                        }
                        entries.insert(j, (key, sub2));
                        proof {
                            assert(crate::value::view_entries(entries@) =~= ev.update(
                                j as int,
                                (ev[j as int].0, spec_remove_rec(ev[j as int].1, segs, i + 1).0),
                            ));
                        }
                        (Val::Obj(entries), found)
                    },
                    None => (Val::Obj(entries), false),
                }
            }
        },
        other => {
            if last {
                (other, false)
            } else {
                remove_rec(other, parts, i + 1)
            }
        },
    }
}

proof fn lemma_smap_take_step(ev: Seq<(Seq<char>, SpecVal)>, k: Seq<char>, j: int)
    requires
        0 <= j < ev.len(),
    ensures
        (smap_get(ev.take(j + 1), k) is Some) == ((smap_get(ev.take(j), k) is Some) || ev[j].0
            == k),
    decreases j,
{
    if j == 0 {
        assert(ev.take(0) =~= Seq::<(Seq<char>, SpecVal)>::empty());
        assert(ev.take(1)[0] == ev[0]);
        if ev[0].0 != k {
            assert(ev.take(1).drop_first() =~= Seq::<(Seq<char>, SpecVal)>::empty());
        }
    } else {
        assert(ev.take(j + 1)[0] == ev[0]);
        assert(ev.take(j)[0] == ev[0]);
        if ev[0].0 != k {
            lemma_smap_take_step(ev.drop_first(), k, j - 1);
            assert(ev.take(j + 1).drop_first() =~= ev.drop_first().take(j));
            assert(ev.take(j).drop_first() =~= ev.drop_first().take(j - 1));
            assert(ev.drop_first()[j - 1] == ev[j]);
        }
    }
}

pub open spec fn view_segs(parts: Seq<String>) -> Seq<Seq<char>> {
    Seq::new(parts.len(), |i: int| parts[i]@)
}

/// The datastore: a model and the current data tree.
#[derive(Debug)]
pub struct Datastore {
    model: CoreconfModel,
    data: Val,
}

impl Datastore {
    pub closed spec fn spec_model(self) -> CoreconfModel {
        self.model
    }

    pub closed spec fn spec_data(self) -> SpecVal {
        self.data@
    }

    /// An empty datastore over the model.
    pub fn new(model: CoreconfModel) -> (r: Self)
        ensures
            r.spec_model() == model,
            r.spec_data() == SpecVal::Obj(Seq::<(Seq<char>, SpecVal)>::empty()),
    {
        let data = Val::Obj(Vec::new());
        proof {
            assert(crate::value::view_entries(Seq::<(String, Val)>::empty()) =~= Seq::<
                (Seq<char>, SpecVal),
            >::empty());
        }
        Self { model, data }
    }

    /// A datastore over the model with the given initial tree.
    pub fn with_data(model: CoreconfModel, data: Val) -> (r: Self)
        ensures
            r.spec_model() == model,
            r.spec_data() == data@,
    {
        Self { model, data }
    }

    /// A datastore loaded from JSON text.
    pub fn from_json(model: CoreconfModel, json: &str) -> (r: Result<Self, CoreconfError>)
        ensures
            match r {
                Ok(ds) => ds.spec_model() == model && crate::json::spec_parse_json(
                    vstd::utf8::encode_utf8(json@),
                ) == Some(ds.spec_data()),
                Err(e) => crate::json::spec_parse_json(vstd::utf8::encode_utf8(json@)) is None
                    && e is Json,
            },
    {
        match crate::json::parse_json(json) {
            Ok(data) => Ok(Self { model, data }),
            Err(e) => Err(e),
        }
    }

    /// The model this datastore was built over.
    pub fn model(&self) -> (r: &CoreconfModel)
        ensures
            *r == self.spec_model(),
    {
        &self.model
    }

    /// The whole data tree.
    pub fn get_all(&self) -> (r: &Val)
        ensures
            r@ == self.spec_data(),
    {
        &self.data
    }

    /// The whole data tree as wire bytes.
    pub fn get_all_cbor(&self) -> (r: Result<Vec<u8>, CoreconfError>)
        ensures
            match r {
                Ok(bytes) => crate::coreconf::spec_to_wire_top(
                    self.spec_model().sid_file,
                    self.spec_data(),
                ) matches Ok(w) && bytes@ == crate::cbor::cbor_enc(w),
                Err(e) => crate::coreconf::spec_to_wire_top(
                    self.spec_model().sid_file,
                    self.spec_data(),
                ) matches Err(se) && err_matches(e, se),
            },
    {
        self.model.value_to_coreconf(&self.data)
    }

    /// The value under a YANG path, or nothing if a segment is missing.
    pub fn get_by_path(&self, path: &str) -> (r: Result<Option<Val>, CoreconfError>)
        ensures
            r matches Ok(opt) && (match spec_get_path(self.spec_data(), path@) {
                Some(w) => opt matches Some(v) && v@ == w,
                None => opt is None,
            }),
    {
        let parts = split_segments(path);
        proof {
            assert(view_segs(parts@) =~= spec_segments(path@));
        }
        if parts.len() == 0 {
            return Ok(Some(self.data.dup()));
        }
        match lookup_rec(&self.data, &parts, 0) {
            Some(v) => Ok(Some(v.dup())),
            None => Ok(None),
        }
    }

    /// The value under a SID; the SID must be in the catalog.
    pub fn get_by_sid(&self, sid: i64) -> (r: Result<Option<Val>, CoreconfError>)
        ensures
            match self.spec_model().sid_file.spec_get_identifier(sid) {
                None => r matches Err(e) && err_matches(e, SpecErr::IdentifierNotFound(sid as int)),
                Some(id) => r matches Ok(opt) && (match spec_get_path(self.spec_data(), id) {
                    Some(w) => opt matches Some(v) && v@ == w,
                    None => opt is None,
                }),
            },
    {
        let identifier: String = match self.model.sid_file.get_identifier(sid) {
            Some(s) => crate::strutil::substring(s, 0, s.unicode_len()),
            None => {
                return Err(CoreconfError::IdentifierNotFound(sid));
            },
        };
        proof {
            assert(identifier@ =~= self.spec_model().sid_file.spec_get_identifier(sid)->Some_0);
        }
        self.get_by_path(identifier.as_str())
    }

    /// The value under an instance path: its absolute SID, or the whole
    /// tree for the empty path.
    pub fn get(&self, path: &InstancePath) -> (r: Result<Option<Val>, CoreconfError>)
        ensures
            match path.spec_absolute() {
                Some(sid) => match self.spec_model().sid_file.spec_get_identifier(sid) {
                    None => r matches Err(e) && err_matches(
                        e,
                        SpecErr::IdentifierNotFound(sid as int),
                    ),
                    Some(id) => r matches Ok(opt) && (match spec_get_path(self.spec_data(), id) {
                        Some(w) => opt matches Some(v) && v@ == w,
                        None => opt is None,
                    }),
                },
                None => r matches Ok(opt) && (if path.spec_components().len() == 0 {
                    opt matches Some(v) && v@ == self.spec_data()
                } else {
                    opt is None
                }),
            },
    {
        match path.absolute_sid() {
            Some(sid) => self.get_by_sid(sid),
            None => {
                if path.is_empty() {
                    Ok(Some(self.data.dup()))
                } else {
                    Ok(None)
                }
            },
        }
    }

    /// Sets a value under a YANG path, creating missing containers.
    pub fn set_by_path(&mut self, path: &str, value: Val) -> (r: Result<(), CoreconfError>)
        ensures
            r is Ok,
            final(self).spec_model() == old(self).spec_model(),
            final(self).spec_data() == spec_set_path(old(self).spec_data(), path@, value@),
    {
        let parts = split_segments(path);
        proof {
            assert(view_segs(parts@) =~= spec_segments(path@));
        }
        if parts.len() == 0 {
            self.data = value;
            return Ok(());
        }
        let mut data = Val::Null;
        core::mem::swap(&mut data, &mut self.data);
        self.data = set_rec(data, &parts, 0, value);
        Ok(())
    }

    /// Sets a value under a SID; the SID must be in the catalog.
    pub fn set_by_sid(&mut self, sid: i64, value: Val) -> (r: Result<(), CoreconfError>)
        ensures
            final(self).spec_model() == old(self).spec_model(),
            match old(self).spec_model().sid_file.spec_get_identifier(sid) {
                None => r matches Err(e) && err_matches(e, SpecErr::IdentifierNotFound(sid as int))
                    && final(self).spec_data() == old(self).spec_data(),
                Some(id) => r is Ok && final(self).spec_data() == spec_set_path(
                    old(self).spec_data(),
                    id,
                    value@,
                ),
            },
    {
        let identifier: String = match self.model.sid_file.get_identifier(sid) {
            Some(s) => crate::strutil::substring(s, 0, s.unicode_len()),
            None => {
                return Err(CoreconfError::IdentifierNotFound(sid));
            },
        };
        proof {
            assert(identifier@ =~= old(self).spec_model().sid_file.spec_get_identifier(
                sid,
            )->Some_0);
        }
        self.set_by_path(identifier.as_str(), value)
    }

    /// Sets a value under an instance path.
    pub fn set(&mut self, path: &InstancePath, value: Val) -> (r: Result<(), CoreconfError>)
        ensures
            final(self).spec_model() == old(self).spec_model(),
            match path.spec_absolute() {
                Some(sid) => match old(self).spec_model().sid_file.spec_get_identifier(sid) {
                    None => r matches Err(e) && err_matches(
                        e,
                        SpecErr::IdentifierNotFound(sid as int),
                    ) && final(self).spec_data() == old(self).spec_data(),
                    Some(id) => r is Ok && final(self).spec_data() == spec_set_path(
                        old(self).spec_data(),
                        id,
                        value@,
                    ),
                },
                None => if path.spec_components().len() == 0 {
                    r is Ok && final(self).spec_data() == value@
                } else {
                    r matches Err(e) && e is ResourceNotFound && final(self).spec_data() == old(
                        self,
                    ).spec_data()
                },
            },
    {
        match path.absolute_sid() {
            Some(sid) => self.set_by_sid(sid, value),
            None => {
                if path.is_empty() {
                    self.data = value;
                    Ok(())
                } else {
                    Err(CoreconfError::ResourceNotFound(String::from_str("invalid path")))
                }
            },
        }
    }

    /// Deletes the value under a YANG path; says whether one was there.
    pub fn delete_by_path(&mut self, path: &str) -> (r: Result<bool, CoreconfError>)
        ensures
            final(self).spec_model() == old(self).spec_model(),
            r matches Ok(found) && final(self).spec_data() == spec_remove_path(
                old(self).spec_data(),
                path@,
            ).0 && found == spec_remove_path(old(self).spec_data(), path@).1,
    {
        let parts = split_segments(path);
        proof {
            assert(view_segs(parts@) =~= spec_segments(path@));
        }
        if parts.len() == 0 {
            let fresh = Val::Obj(Vec::new());
            proof {
                assert(crate::value::view_entries(Seq::<(String, Val)>::empty()) =~= Seq::<
                    (Seq<char>, SpecVal),
                >::empty());
            }
            self.data = fresh;
            return Ok(true);
        }
        let mut data = Val::Null;
        core::mem::swap(&mut data, &mut self.data);
        let (data2, found) = remove_rec(data, &parts, 0);
        self.data = data2;
        Ok(found)
    }

    /// Deletes the value under a SID; the SID must be in the catalog.
    pub fn delete_by_sid(&mut self, sid: i64) -> (r: Result<bool, CoreconfError>)
        ensures
            final(self).spec_model() == old(self).spec_model(),
            match old(self).spec_model().sid_file.spec_get_identifier(sid) {
                None => r matches Err(e) && err_matches(e, SpecErr::IdentifierNotFound(sid as int))
                    && final(self).spec_data() == old(self).spec_data(),
                Some(id) => r matches Ok(found) && final(self).spec_data() == spec_remove_path(
                    old(self).spec_data(),
                    id,
                ).0 && found == spec_remove_path(old(self).spec_data(), id).1,
            },
    {
        let identifier: String = match self.model.sid_file.get_identifier(sid) {
            Some(s) => crate::strutil::substring(s, 0, s.unicode_len()),
            None => {
                return Err(CoreconfError::IdentifierNotFound(sid));
            },
        };
        proof {
            assert(identifier@ =~= old(self).spec_model().sid_file.spec_get_identifier(
                sid,
            )->Some_0);
        }
        self.delete_by_path(identifier.as_str())
    }

    /// Deletes under an instance path: by SID, or everything for the
    /// empty path.
    pub fn delete(&mut self, path: &InstancePath) -> (r: Result<bool, CoreconfError>)
        ensures
            final(self).spec_model() == old(self).spec_model(),
            match path.spec_absolute() {
                Some(sid) => match old(self).spec_model().sid_file.spec_get_identifier(sid) {
                    None => r matches Err(e) && err_matches(
                        e,
                        SpecErr::IdentifierNotFound(sid as int),
                    ) && final(self).spec_data() == old(self).spec_data(),
                    Some(id) => r matches Ok(found) && final(self).spec_data()
                        == spec_remove_path(old(self).spec_data(), id).0 && found
                        == spec_remove_path(old(self).spec_data(), id).1,
                },
                None => if path.spec_components().len() == 0 {
                    r matches Ok(found) && found == true && final(self).spec_data()
                        == SpecVal::Obj(Seq::<(Seq<char>, SpecVal)>::empty())
                } else {
                    r matches Ok(found) && found == false && final(self).spec_data() == old(
                        self,
                    ).spec_data()
                },
            },
    {
        match path.absolute_sid() {
            Some(sid) => self.delete_by_sid(sid),
            None => {
                if path.is_empty() {
                    let fresh = Val::Obj(Vec::new());
                    proof {
                        assert(crate::value::view_entries(Seq::<(String, Val)>::empty()) =~= Seq::<
                            (Seq<char>, SpecVal),
                        >::empty());
                    }
                    self.data = fresh;
                    Ok(true)
                } else {
                    Ok(false)
                }
            },
        }
    }

    /// Applies a list of changes in order: a value sets, none deletes.
    pub fn apply_changes(&mut self, changes: &Vec<(String, Option<Val>)>) -> (r: Result<
        (),
        CoreconfError,
    >)
        ensures
            final(self).spec_model() == old(self).spec_model(),
            r is Ok,
            final(self).spec_data() == spec_apply_changes(
                old(self).spec_data(),
                view_changes(changes@),
                0,
            ),
    {
        let ghost cs = view_changes(changes@);
        let mut i: usize = 0;
        #[verifier::loop_isolation(false)]
        while i < changes.len()
            invariant
                i <= changes@.len(),
                self.spec_model() == old(self).spec_model(),
                spec_apply_changes(old(self).spec_data(), cs, 0) == spec_apply_changes(
                    self.spec_data(),
                    cs,
                    i as int,
                ),
            decreases changes@.len() - i,
        {
            match &changes[i].1 {
                Some(v) => {
                    let _ = self.set_by_path(changes[i].0.as_str(), v.dup());
                },
                None => {
                    let _ = self.delete_by_path(changes[i].0.as_str());
                },
            }
            i = i + 1;
        }
        Ok(())
    }
}

pub open spec fn view_changes(changes: Seq<(String, Option<Val>)>) -> Seq<
    (Seq<char>, Option<SpecVal>),
>
    decreases changes,
{
    Seq::new(
        changes.len(),
        |i: int|
            if 0 <= i < changes.len() {
                (
                    changes[i].0@,
                    match changes[i].1 {
                        Some(v) => Some(v@),
                        None => None,
                    },
                )
            } else {
                (Seq::empty(), None)
            },
    )
}

/// The tree after the changes from index `i` on.
pub open spec fn spec_apply_changes(
    t: SpecVal,
    changes: Seq<(Seq<char>, Option<SpecVal>)>,
    i: int,
) -> SpecVal
    decreases changes.len() - i,
{
    if i < 0 || i >= changes.len() {
        t
    } else {
        match changes[i].1 {
            Some(v) => spec_apply_changes(spec_set_path(t, changes[i].0, v), changes, i + 1),
            None => spec_apply_changes(spec_remove_path(t, changes[i].0).0, changes, i + 1),
        }
    }
}

fn lookup_rec<'a>(t: &'a Val, parts: &Vec<String>, i: usize) -> (r: Option<&'a Val>)
    requires
        i <= parts@.len(),
    ensures
        match r {
            Some(v) => spec_lookup(t@, view_segs(parts@), i as int) == Some(v@),
            None => spec_lookup(t@, view_segs(parts@), i as int) is None,
        },
    decreases parts@.len() - i,
{
    if i >= parts.len() {
        return Some(t);
    }
    match t {
        Val::Obj(entries) => {
            let sub = match crate::value::obj_get(entries, parts[i].as_str()) {
                Some(sub) => Some(sub),
                None => {
                    let stripped = suffix_after_last_str(parts[i].as_str(), ':');
                    crate::value::obj_get(entries, stripped.as_str())
                },
            };
            match sub {
                Some(sub) => lookup_rec(sub, parts, i + 1),
                None => None,
            }
        },
        _ => None,
    }
}

} // verus!
