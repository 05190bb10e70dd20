//! The in-memory data model: JSON-representable trees with a typed
//! byte-string carrier, as the wire formats require.

use vstd::prelude::*;

verus! {

broadcast use vstd::std_specs::vec::group_vec_axioms;

/// Mathematical model of a data tree. Objects are ordered key/value
/// sequences; integers are unbounded at this level, so a `u64` and an
/// `i64` holding the same number have the same model.
pub enum SpecVal {
    Null,
    Bool(bool),
    Int(int),
    Text(Seq<char>),
    Bytes(Seq<u8>),
    Arr(Seq<SpecVal>),
    Obj(Seq<(Seq<char>, SpecVal)>),
}

/// Executable data tree. `Int` and `UInt` both model `SpecVal::Int`;
/// `Bytes` carries binary data so that it can reach the wire as a CBOR
/// byte string rather than an array.
#[derive(Debug, PartialEq, Eq)]
pub enum Val {
    Null,
    Bool(bool),
    Int(i64),
    UInt(u64),
    Text(String),
    Bytes(Vec<u8>),
    Arr(Vec<Val>),
    Obj(Vec<(String, Val)>),
}

pub open spec fn view_entries(entries: Seq<(String, Val)>) -> Seq<(Seq<char>, SpecVal)>
    decreases entries,
{
    Seq::new(
        entries.len(),
        |i: int|
            if 0 <= i < entries.len() {
                (entries[i].0@, entries[i].1@)
            } else {
                (Seq::empty(), SpecVal::Null)
            },
    )
}

pub open spec fn view_items(items: Seq<Val>) -> Seq<SpecVal>
    decreases items,
{
    Seq::new(
        items.len(),
        |i: int|
            if 0 <= i < items.len() {
                items[i]@
            } else {
                SpecVal::Null
            },
    )
}

impl View for Val {
    type V = SpecVal;

    open spec fn view(&self) -> SpecVal
        decreases self,
    {
        match self {
            Val::Null => SpecVal::Null,
            Val::Bool(b) => SpecVal::Bool(*b),
            Val::Int(n) => SpecVal::Int(*n as int),
            Val::UInt(n) => SpecVal::Int(*n as int),
            Val::Text(s) => SpecVal::Text(s@),
            Val::Bytes(b) => SpecVal::Bytes(b@),
            Val::Arr(items) => SpecVal::Arr(view_items(items@)),
            Val::Obj(entries) => SpecVal::Obj(view_entries(entries@)),
        }
    }
}

impl Val {
    /// An exact copy; unlike a derived `Clone`, its effect is specified.
    pub fn dup(&self) -> (r: Val)
        ensures
            r@ == self@,
        decreases self,
    {
        match self {
            Val::Null => Val::Null,
            Val::Bool(b) => Val::Bool(*b),
            Val::Int(n) => Val::Int(*n),
            Val::UInt(n) => Val::UInt(*n),
            Val::Text(s) => Val::Text(clone_string(s)),
            Val::Bytes(b) => Val::Bytes(clone_bytes(b)),
            Val::Arr(items) => {
                let mut out: Vec<Val> = Vec::new();
                let mut i: usize = 0;
                #[verifier::loop_isolation(false)]
                while i < items.len()
                    invariant
                        i <= items.len(),
                        out@.len() == i as int,
                        forall|j: int| 0 <= j < i ==> out@[j]@ == items@[j]@,
                    decreases items.len() - i,
                {
                    proof {
                        assert(decreases_to!(items => items@));
                        assert(decreases_to!(items@ => items@[i as int]));
                    }
                    let e = items[i].dup();
                    out.push(e);
                    i = i + 1;
                }
                proof {
                    assert(view_items(out@) =~= view_items(items@));
                }
                Val::Arr(out)
            },
            Val::Obj(entries) => {
                let mut out: Vec<(String, Val)> = Vec::new();
                let mut i: usize = 0;
                #[verifier::loop_isolation(false)]
                while i < entries.len()
                    invariant
                        i <= entries.len(),
                        out@.len() == i as int,
                        forall|j: int| 0 <= j < i ==> out@[j].0@ == entries@[j].0@
                            && out@[j].1@ == entries@[j].1@,
                    decreases entries.len() - i,
                {
                    proof {
                        assert(decreases_to!(entries => entries@));
                        assert(decreases_to!(entries@ => entries@[i as int]));
                        assert(decreases_to!(entries@[i as int] => entries@[i as int].1));
                    }
                    let k = clone_string(&entries[i].0);
                    let v = entries[i].1.dup();
                    out.push((k, v));
                    i = i + 1;
                }
                proof {
                    assert(view_entries(out@) =~= view_entries(entries@));
                }
                Val::Obj(out)
            },
        }
    }

    pub fn is_null(&self) -> (r: bool)
        ensures
            r == (self@ is Null),
    {
        match self {
            Val::Null => true,
            _ => false,
        }
    }
}

/// First value bound to `k` in an ordered key/value sequence.
pub open spec fn smap_get(entries: Seq<(Seq<char>, SpecVal)>, k: Seq<char>) -> Option<SpecVal>
    decreases entries.len(),
{
    if entries.len() == 0 {
        None
    } else if entries[0].0 == k {
        Some(entries[0].1)
    } else {
        smap_get(entries.drop_first(), k)
    }
}

fn obj_get_at<'a>(entries: &'a Vec<(String, Val)>, key: &str, i: usize) -> (r: Option<&'a Val>)
    requires
        i <= entries@.len(),
    ensures
        match r {
            Some(v) => smap_get(view_entries(entries@).skip(i as int), key@) == Some(v@),
            None => smap_get(view_entries(entries@).skip(i as int), key@) is None,
        },
    decreases entries@.len() - i,
{
    proof {
        assert(view_entries(entries@).skip(i as int).len() == entries@.len() - i);
        if i < entries@.len() {
            assert(view_entries(entries@).skip(i as int)[0] == view_entries(entries@)[i as int]);
            assert(view_entries(entries@).skip(i as int).drop_first() =~= view_entries(
                entries@,
            ).skip(i + 1));
        }
    }
    if i >= entries.len() {
        None
    } else if crate::strutil::str_eq(entries[i].0.as_str(), key) {
        Some(&entries[i].1)
    } else {
        obj_get_at(entries, key, i + 1)
    }
}

/// First value bound to `key` among an object's entries.
pub fn obj_get<'a>(entries: &'a Vec<(String, Val)>, key: &str) -> (r: Option<&'a Val>)
    ensures
        match r {
            Some(v) => smap_get(view_entries(entries@), key@) == Some(v@),
            None => smap_get(view_entries(entries@), key@) is None,
        },
{
    proof {
        assert(view_entries(entries@).skip(0) =~= view_entries(entries@));
    }
    obj_get_at(entries, key, 0)
}

pub fn clone_string(s: &String) -> (r: String)
    ensures
        r@ == s@,
{
    s.clone()
}

pub fn clone_bytes(b: &Vec<u8>) -> (r: Vec<u8>)
    ensures
        r@ == b@,
{
    let mut out: Vec<u8> = Vec::new();
    let mut i: usize = 0;
    while i < b.len()
        invariant
            i <= b.len(),
            out@ =~= b@.subrange(0, i as int),
        decreases b.len() - i,
    {
        out.push(b[i]);
        i = i + 1;
    }
    proof {
        assert(out@ =~= b@);
    }
    out
}

} // verus!
