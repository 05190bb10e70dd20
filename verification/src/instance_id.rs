//! Instance-identifier codec: paths as a bare integer or an array of
//! deltas interleaved with key values, and instances as one-entry maps
//! concatenated into a CBOR sequence.

use vstd::prelude::*;
use vstd::string::*;
use crate::cbor::{cbor_dec, cbor_enc, cbor_decode_at, cbor_encode_into, cbor_wf,
    lemma_cbor_roundtrip, lemma_enc_len_pos};
use crate::error::{CoreconfError, SpecErr, err_matches};
use crate::sid::SidFile;
use crate::strutil::{idec, lemma_idec_parse, parse_i64_str, parse_int_i64};
use crate::value::{SpecVal, Val};

verus! {

broadcast use vstd::std_specs::vec::group_vec_axioms;

/// One component of an instance path.
#[derive(Debug)]
pub enum PathComponent {
    /// A SID delta to a child node.
    SidDelta(i64),
    /// A key value selecting a list entry.
    KeyValue(Val),
}

/// Model of a path component.
pub enum PComp {
    Delta(i64),
    Key(SpecVal),
}

impl View for PathComponent {
    type V = PComp;

    open spec fn view(&self) -> PComp {
        match self {
            PathComponent::SidDelta(d) => PComp::Delta(*d),
            PathComponent::KeyValue(v) => PComp::Key(v@),
        }
    }
}

pub open spec fn view_comps(comps: Seq<PathComponent>) -> Seq<PComp> {
    Seq::new(comps.len(), |i: int| comps[i]@)
}

/// The absolute SID reached by replaying the components: each delta
/// adds to the running SID, or starts it.
pub open spec fn fold_abs(comps: Seq<PComp>, i: int, cur: Option<i64>) -> Option<i64>
    decreases comps.len() - i,
{
    if i < 0 || i >= comps.len() {
        cur
    } else {
        match comps[i] {
            PComp::Delta(d) => match cur {
                Some(s) => fold_abs(comps, i + 1, Some((s + d) as i64)),
                None => fold_abs(comps, i + 1, Some(d)),
            },
            PComp::Key(_) => fold_abs(comps, i + 1, cur),
        }
    }
}

/// A complete instance path with its derived absolute SID.
#[derive(Debug)]
pub struct InstancePath {
    /// The components of this path.
    pub components: Vec<PathComponent>,
    absolute_sid: Option<i64>,
}

impl InstancePath {
    pub closed spec fn spec_components(self) -> Seq<PComp> {
        view_comps(self.components@)
    }

    pub closed spec fn spec_absolute(self) -> Option<i64> {
        self.absolute_sid
    }

    /// An empty path, denoting the whole datastore.
    pub fn new() -> (r: Self)
        ensures
            r.spec_components() == Seq::<PComp>::empty(),
            r.spec_absolute() is None,
    {
        let r = Self { components: Vec::new(), absolute_sid: None };
        proof {
            assert(r.spec_components() =~= Seq::<PComp>::empty());
        }
        r
    }

    /// Appends a SID delta and advances the absolute SID.
    pub fn push_delta(&mut self, delta: i64)
        requires
            match old(self).spec_absolute() {
                Some(s) => i64::MIN <= s + delta <= i64::MAX,
                None => true,
            },
        ensures
            final(self).spec_components() == old(self).spec_components().push(PComp::Delta(delta)),
            final(self).spec_absolute() == (match old(self).spec_absolute() {
                Some(s) => Some((s + delta) as i64),
                None => Some(delta),
            }),
    {
        self.components.push(PathComponent::SidDelta(delta));
        self.absolute_sid = match self.absolute_sid {
            Some(s) => Some(s + delta),
            None => Some(delta),
        };
        proof {
            assert(final(self).spec_components() =~= old(self).spec_components().push(
                PComp::Delta(delta),
            ));
        }
    }

    /// Appends a key value; the absolute SID is unchanged.
    pub fn push_key(&mut self, key: Val)
        ensures
            final(self).spec_components() == old(self).spec_components().push(PComp::Key(key@)),
            final(self).spec_absolute() == old(self).spec_absolute(),
    {
        let ghost kv = key@;
        self.components.push(PathComponent::KeyValue(key));
        proof {
            assert(final(self).spec_components() =~= old(self).spec_components().push(
                PComp::Key(kv),
            ));
        }
    }

    /// The absolute SID this path points to.
    pub fn absolute_sid(&self) -> (r: Option<i64>)
        ensures
            r == self.spec_absolute(),
    {
        self.absolute_sid
    }

    /// Whether the path has no components.
    pub fn is_empty(&self) -> (r: bool)
        ensures
            r == (self.spec_components().len() == 0),
    {
        self.components.len() == 0
    }

    /// The number of components.
    pub fn len(&self) -> (r: usize)
        ensures
            r == self.spec_components().len(),
    {
        self.components.len()
    }

    /// Builds a path from a YANG path: each prefix of segments must
    /// have a SID, and the deltas between successive SIDs are pushed.
    pub fn from_yang_path(path: &str, sid_file: &SidFile) -> (r: Result<Self, CoreconfError>)
        ensures
            match r {
                Ok(p) => spec_yang_path(
                    *sid_file,
                    crate::strutil::spec_segments(path@),
                    0,
                    Seq::empty(),
                    0,
                    Seq::empty(),
                ) matches Ok((comps, last)) && p.spec_components() == comps && p.spec_absolute()
                    == Some(last),
                Err(e) => spec_yang_path(
                    *sid_file,
                    crate::strutil::spec_segments(path@),
                    0,
                    Seq::empty(),
                    0,
                    Seq::empty(),
                ) matches Err(se) && err_matches(e, se),
            },
    {
        let parts = crate::strutil::split_segments(path);
        let mut comps: Vec<PathComponent> = Vec::new();
        let mut current: i64 = 0;
        let mut full = String::new();
        let mut i: usize = 0;
        proof {
            assert(view_comps(comps@) =~= Seq::<PComp>::empty());
            assert(full@ =~= Seq::<char>::empty());
        }
        #[verifier::loop_isolation(false)]
        while i < parts.len()
            invariant
                i <= parts@.len(),
                spec_yang_path(
                    *sid_file,
                    crate::strutil::spec_segments(path@),
                    0,
                    Seq::empty(),
                    0,
                    Seq::empty(),
                ) == spec_yang_path(
                    *sid_file,
                    crate::strutil::spec_segments(path@),
                    i as int,
                    full@,
                    current as int,
                    view_comps(comps@),
                ),
            decreases parts@.len() - i,
        {
            let next = {
                let head = crate::strutil::str_concat(full.as_str(), "/");
                head.concat(parts[i].as_str())
            };
            proof {
                reveal_strlit("/");
                assert(("/")@ =~= seq!['/']);
                assert(next@ =~= full@ + seq!['/'] + parts@[i as int]@);
            }
            match sid_file.get_sid(next.as_str()) {
                Some(sid) => {
                    let dwide: i128 = sid as i128 - current as i128;
                    if dwide < -0x8000000000000000i128 || dwide > 0x7fffffffffffffffi128 {
                        return Err(
                            CoreconfError::TypeConversion(String::from_str("SID delta too wide")),
                        );
                    }
                    let ghost pre = view_comps(comps@);
                    comps.push(PathComponent::SidDelta(dwide as i64));
                    proof {
                        assert(view_comps(comps@) =~= pre.push(PComp::Delta((sid - current) as i64)));
                    }
                    current = sid;
                    full = next;
                },
                None => {
                    return Err(CoreconfError::SidNotFound(next));
                },
            }
            i = i + 1;
        }
        let r = Self { components: comps, absolute_sid: Some(current) };
        Ok(r)
    }

    /// The wire value of the path: null when empty, a bare integer for
    /// a single delta, else an array of deltas and keys in order.
    pub fn to_cbor_value(&self) -> (r: Val)
        ensures
            r@ == spec_path_cbor(self.spec_components()),
    {
        if self.components.len() == 0 {
            return Val::Null;
        }
        if self.components.len() == 1 {
            match &self.components[0] {
                PathComponent::SidDelta(d) => {
                    return Val::Int(*d);
                },
                PathComponent::KeyValue(_) => {},
            }
        }
        let mut items: Vec<Val> = Vec::new();
        let mut i: usize = 0;
        let ghost comps = self.spec_components();
        #[verifier::loop_isolation(false)]
        while i < self.components.len()
            invariant
                i <= self.components@.len(),
                comp_vals(comps, 0) =~= crate::value::view_items(items@) + comp_vals(
                    comps,
                    i as int,
                ),
            decreases self.components@.len() - i,
        {
            let ghost pre = crate::value::view_items(items@);
            match &self.components[i] {
                PathComponent::SidDelta(d) => {
                    items.push(Val::Int(*d));
                },
                PathComponent::KeyValue(v) => {
                    items.push(v.dup());
                },
            }
            proof {
                let head = match comps[i as int] {
                    PComp::Delta(d) => SpecVal::Int(d as int),
                    PComp::Key(v) => v,
                };
                assert(comps[i as int] == self.components@[i as int]@);
                assert(crate::value::view_items(items@) =~= pre.push(head));
                assert(comp_vals(comps, i as int) == seq![head] + comp_vals(comps, i + 1));
                assert(comp_vals(comps, 0) =~= crate::value::view_items(items@) + comp_vals(
                    comps,
                    i + 1,
                ));
            }
            i = i + 1;
        }
        proof {
            assert(comp_vals(comps, self.components@.len() as int) =~= Seq::<SpecVal>::empty());
            assert(comp_vals(comps, 0) =~= crate::value::view_items(items@));
        }
        Val::Arr(items)
    }

    /// Encodes the path as CBOR bytes.
    pub fn encode_cbor(&self) -> (r: Result<Vec<u8>, CoreconfError>)
        ensures
            r matches Ok(bytes) && bytes@ == cbor_enc(spec_path_cbor(self.spec_components())),
    {
        let v = self.to_cbor_value();
        Ok(crate::cbor::cbor_encode(&v))
    }

    /// Reads a path back from a wire value.
    pub fn from_cbor_value(value: &Val) -> (r: Result<Self, CoreconfError>)
        ensures
            match r {
                Ok(p) => spec_path_from_cbor(value@) matches Ok((comps, abs))
                    && p.spec_components() == comps && p.spec_absolute() == abs,
                Err(e) => spec_path_from_cbor(value@) matches Err(se) && err_matches(e, se),
            },
    {
        match value {
            Val::Null => Ok(Self::new()),
            Val::Int(n) => {
                let mut p = Self::new();
                p.push_delta(*n);
                proof {
                    assert(p.spec_components() =~= seq![PComp::Delta(*n)]);
                }
                Ok(p)
            },
            Val::UInt(n) => {
                if *n <= 0x7fffffffffffffffu64 {
                    let mut p = Self::new();
                    p.push_delta(*n as u64 as i64);
                    proof {
                        assert(p.spec_components() =~= seq![PComp::Delta((*n) as i64)]);
                    }
                    Ok(p)
                } else {
                    Err(conv_err())
                }
            },
            Val::Arr(items) => {
                let mut p = Self::new();
                let mut i: usize = 0;
                let mut expect_delta = true;
                #[verifier::loop_isolation(false)]
                while i < items.len()
                    invariant
                        i <= items@.len(),
                        expect_delta == (i as int % 2 == 0),
                        spec_path_alt(
                            crate::value::view_items(items@),
                            0,
                            true,
                            Seq::empty(),
                            None,
                        ) == spec_path_alt(
                            crate::value::view_items(items@),
                            i as int,
                            expect_delta,
                            p.spec_components(),
                            p.spec_absolute(),
                        ),
                    decreases items@.len() - i,
                {
                    if expect_delta {
                        let d: i64 = match &items[i] {
                            Val::Int(n) => *n,
                            Val::UInt(n) => {
                                if *n <= 0x7fffffffffffffffu64 {
                                    *n as i64
                                } else {
                                    return Err(conv_err());
                                }
                            },
                            _ => {
                                return Err(conv_err());
                            },
                        };
                        match p.absolute_sid() {
                            Some(s) => {
                                let wide: i128 = s as i128 + d as i128;
                                if wide < -0x8000000000000000i128 || wide
                                    > 0x7fffffffffffffffi128 {
                                    return Err(conv_err());
                                }
                            },
                            None => {},
                        }
                        p.push_delta(d);
                    } else {
                        p.push_key(items[i].dup());
                    }
                    expect_delta = !expect_delta;
                    i = i + 1;
                }
                Ok(p)
            },
            _ => Err(conv_err()),
        }
    }

    /// Decodes a path from CBOR bytes.
    pub fn decode_cbor(bytes: &[u8]) -> (r: Result<Self, CoreconfError>)
        ensures
            match r {
                Ok(p) => cbor_dec(bytes@) matches Some((v, used)) && spec_path_from_cbor(v)
                    matches Ok((comps, abs)) && p.spec_components() == comps && p.spec_absolute()
                    == abs,
                Err(e) => match cbor_dec(bytes@) {
                    None => e is CborDecode,
                    Some((v, used)) => spec_path_from_cbor(v) matches Err(se) && err_matches(
                        e,
                        se,
                    ),
                },
            },
    {
        match crate::cbor::cbor_decode(bytes) {
            Ok(v) => Self::from_cbor_value(&v),
            Err(e) => Err(e),
        }
    }
}

fn conv_err() -> (r: CoreconfError)
    ensures
        r is TypeConversion,
{
    CoreconfError::TypeConversion(String::from_str("invalid instance identifier"))
}

/// Path resolution of the segments from index `i` on: each longer
/// prefix must have a SID, and the deltas fit the wire's integers.
pub open spec fn spec_yang_path(
    cat: SidFile,
    segs: Seq<Seq<char>>,
    i: int,
    cur_path: Seq<char>,
    cur_sid: int,
    comps: Seq<PComp>,
) -> Result<(Seq<PComp>, i64), SpecErr>
    decreases segs.len() - i,
{
    if i < 0 || i >= segs.len() {
        Ok((comps, cur_sid as i64))
    } else {
        let full = cur_path + seq!['/'] + segs[i];
        match cat.spec_get_sid(full) {
            None => Err(SpecErr::SidNotFound(full)),
            Some(sid) => {
                let d = sid - cur_sid;
                if d < i64::MIN || d > i64::MAX {
                    Err(SpecErr::TypeConversion)
                } else {
                    spec_yang_path(cat, segs, i + 1, full, sid as int, comps.push(
                        PComp::Delta(d as i64),
                    ))
                }
            },
        }
    }
}

/// The wire values of the components from index `i` on.
pub open spec fn comp_vals(comps: Seq<PComp>, i: int) -> Seq<SpecVal>
    decreases comps.len() - i,
{
    if i < 0 || i >= comps.len() {
        Seq::empty()
    } else {
        seq![
            match comps[i] {
                PComp::Delta(d) => SpecVal::Int(d as int),
                PComp::Key(v) => v,
            },
        ] + comp_vals(comps, i + 1)
    }
}

/// The wire value of a path.
pub open spec fn spec_path_cbor(comps: Seq<PComp>) -> SpecVal {
    if comps.len() == 0 {
        SpecVal::Null
    } else if comps.len() == 1 && comps[0] is Delta {
        SpecVal::Int(comps[0]->Delta_0 as int)
    } else {
        SpecVal::Arr(comp_vals(comps, 0))
    }
}

/// Reading an array of alternating deltas and keys, a delta first.
pub open spec fn spec_path_alt(
    items: Seq<SpecVal>,
    i: int,
    expect_delta: bool,
    comps: Seq<PComp>,
    abs: Option<i64>,
) -> Result<(Seq<PComp>, Option<i64>), SpecErr>
    decreases items.len() - i,
{
    if i < 0 || i >= items.len() {
        Ok((comps, abs))
    } else if expect_delta {
        match items[i] {
            SpecVal::Int(n) => if i64::MIN <= n <= i64::MAX {
                let abs2 = match abs {
                    Some(s) => s + n,
                    None => n,
                };
                if i64::MIN <= abs2 <= i64::MAX {
                    spec_path_alt(
                        items,
                        i + 1,
                        false,
                        comps.push(PComp::Delta(n as i64)),
                        Some(abs2 as i64),
                    )
                } else {
                    Err(SpecErr::TypeConversion)
                }
            } else {
                Err(SpecErr::TypeConversion)
            },
            _ => Err(SpecErr::TypeConversion),
        }
    } else {
        spec_path_alt(items, i + 1, true, comps.push(PComp::Key(items[i])), abs)
    }
}

/// The path read from a wire value: null is the empty path, an integer
/// a single delta, an array the alternation.
pub open spec fn spec_path_from_cbor(v: SpecVal) -> Result<(Seq<PComp>, Option<i64>), SpecErr> {
    match v {
        SpecVal::Null => Ok((Seq::empty(), None)),
        SpecVal::Int(n) => if i64::MIN <= n <= i64::MAX {
            Ok((seq![PComp::Delta(n as i64)], Some(n as i64)))
        } else {
            Err(SpecErr::TypeConversion)
        },
        SpecVal::Arr(items) => spec_path_alt(items, 0, true, Seq::empty(), None),
        _ => Err(SpecErr::TypeConversion),
    }
}

/// An instance: a path and an optional value; no value means delete in
/// the iPATCH direction and no output in the POST direction.
#[derive(Debug)]
pub struct Instance {
    /// The instance identifier.
    pub path: InstancePath,
    /// The value; `None` stands for delete or for no output.
    pub value: Option<Val>,
}

impl Instance {
    /// The SID used on the wire: the absolute SID, or 0 without one.
    pub open spec fn spec_sid(self) -> i64 {
        match self.path.spec_absolute() {
            Some(s) => s,
            None => 0,
        }
    }

    pub open spec fn spec_value(self) -> Option<SpecVal> {
        match self.value {
            Some(v) => Some(v@),
            None => None,
        }
    }

    /// An instance carrying a value.
    pub fn new(path: InstancePath, value: Val) -> (r: Self)
        ensures
            r.path == path,
            r.spec_value() == Some(value@),
    {
        Self { path, value: Some(value) }
    }

    /// A delete (or no-output) instance.
    pub fn delete(path: InstancePath) -> (r: Self)
        ensures
            r.path == path,
            r.spec_value() is None,
    {
        Self { path, value: None }
    }

    /// The one-entry wire map of this instance.
    pub fn to_cbor_value(&self) -> (r: Val)
        ensures
            r@ == inst_cbor(self.spec_sid(), self.spec_value()),
    {
        let sid: i64 = match self.path.absolute_sid() {
            Some(s) => s,
            None => 0,
        };
        let key = crate::strutil::i64_to_string(sid);
        let v: Val = match &self.value {
            Some(v) => v.dup(),
            None => Val::Null,
        };
        let mut entries: Vec<(String, Val)> = Vec::new();
        entries.push((key, v));
        proof {
            assert(crate::value::view_entries(entries@) =~= seq![
                (
                    idec(self.spec_sid() as int),
                    match self.spec_value() {
                        Some(w) => w,
                        None => SpecVal::Null,
                    },
                ),
            ]);
        }
        Val::Obj(entries)
    }
}

/// The one-entry wire map of an instance.
pub open spec fn inst_cbor(sid: i64, value: Option<SpecVal>) -> SpecVal {
    SpecVal::Obj(
        seq![
            (
                idec(sid as int),
                match value {
                    Some(v) => v,
                    None => SpecVal::Null,
                },
            ),
        ],
    )
}

pub open spec fn view_insts(s: Seq<Instance>) -> Seq<(i64, Option<SpecVal>)> {
    Seq::new(s.len(), |i: int| (s[i].spec_sid(), s[i].spec_value()))
}

/// The byte sequence of the instances from index `i` on.
pub open spec fn spec_enc_instances(xs: Seq<(i64, Option<SpecVal>)>, i: int) -> Seq<u8>
    decreases xs.len() - i,
{
    if i < 0 || i >= xs.len() {
        Seq::empty()
    } else {
        cbor_enc(inst_cbor(xs[i].0, xs[i].1)) + spec_enc_instances(xs, i + 1)
    }
}

/// Encodes instances back to back as a CBOR sequence.
pub fn encode_instances(instances: &Vec<Instance>) -> (r: Result<Vec<u8>, CoreconfError>)
    ensures
        r matches Ok(bytes) && bytes@ == spec_enc_instances(view_insts(instances@), 0),
{
    let ghost xs = view_insts(instances@);
    let mut out: Vec<u8> = Vec::new();
    let mut i: usize = 0;
    #[verifier::loop_isolation(false)]
    while i < instances.len()
        invariant
            i <= instances@.len(),
            spec_enc_instances(xs, 0) =~= out@ + spec_enc_instances(xs, i as int),
        decreases instances@.len() - i,
    {
        let v = instances[i].to_cbor_value();
        cbor_encode_into(&v, &mut out);
        proof {
            assert(xs[i as int] == (instances@[i as int].spec_sid(),
                instances@[i as int].spec_value()));
            assert(spec_enc_instances(xs, 0) =~= out@ + spec_enc_instances(xs, i + 1));
        }
        i = i + 1;
    }
    proof {
        assert(spec_enc_instances(xs, instances@.len() as int) =~= Seq::<u8>::empty());
        assert(out@ =~= spec_enc_instances(xs, 0));
    }
    Ok(out)
}

pub open spec fn view_paths(s: Seq<InstancePath>) -> Seq<Seq<PComp>> {
    Seq::new(s.len(), |i: int| s[i].spec_components())
}

/// The byte sequence of the identifiers from index `i` on.
pub open spec fn spec_enc_identifiers(ps: Seq<Seq<PComp>>, i: int) -> Seq<u8>
    decreases ps.len() - i,
{
    if i < 0 || i >= ps.len() {
        Seq::empty()
    } else {
        cbor_enc(spec_path_cbor(ps[i])) + spec_enc_identifiers(ps, i + 1)
    }
}

/// Encodes instance identifiers back to back as a CBOR sequence.
pub fn encode_identifiers(paths: &Vec<InstancePath>) -> (r: Result<Vec<u8>, CoreconfError>)
    ensures
        r matches Ok(bytes) && bytes@ == spec_enc_identifiers(view_paths(paths@), 0),
{
    let ghost ps = view_paths(paths@);
    let mut out: Vec<u8> = Vec::new();
    let mut i: usize = 0;
    #[verifier::loop_isolation(false)]
    while i < paths.len()
        invariant
            i <= paths@.len(),
            spec_enc_identifiers(ps, 0) =~= out@ + spec_enc_identifiers(ps, i as int),
        decreases paths@.len() - i,
    {
        let v = paths[i].to_cbor_value();
        cbor_encode_into(&v, &mut out);
        proof {
            assert(ps[i as int] == paths@[i as int].spec_components());
            assert(spec_enc_identifiers(ps, 0) =~= out@ + spec_enc_identifiers(ps, i + 1));
        }
        i = i + 1;
    }
    proof {
        assert(spec_enc_identifiers(ps, paths@.len() as int) =~= Seq::<u8>::empty());
        assert(out@ =~= spec_enc_identifiers(ps, 0));
    }
    Ok(out)
}

/// The instances read from one wire map's entries.
pub open spec fn spec_inst_entries(entries: Seq<(Seq<char>, SpecVal)>, i: int) -> Result<
    Seq<(i64, Option<SpecVal>)>,
    SpecErr,
>
    decreases entries.len() - i,
{
    if i < 0 || i >= entries.len() {
        Ok(Seq::empty())
    } else {
        match parse_int_i64(entries[i].0) {
            None => Err(SpecErr::TypeConversion),
            Some(sid) => match spec_inst_entries(entries, i + 1) {
                Err(e) => Err(e),
                Ok(rest) => Ok(
                    seq![
                        (
                            sid,
                            if entries[i].1 is Null {
                                None
                            } else {
                                Some(entries[i].1)
                            },
                        ),
                    ] + rest,
                ),
            },
        }
    }
}

/// The instances read from a CBOR sequence: one-entry maps with decimal
/// SID keys; items that are not maps are passed over.
pub open spec fn spec_dec_instances(b: Seq<u8>) -> Result<Seq<(i64, Option<SpecVal>)>, SpecErr>
    decreases b.len(),
{
    if b.len() == 0 {
        Ok(Seq::empty())
    } else {
        match cbor_dec(b) {
            None => Err(SpecErr::CborDecode),
            Some((v, used)) => {
                if used < 1 || used > b.len() {
                    Err(SpecErr::CborDecode)
                } else {
                    let here = match v {
                        SpecVal::Obj(entries) => spec_inst_entries(entries, 0),
                        _ => Ok(Seq::empty()),
                    };
                    match here {
                        Err(e) => Err(e),
                        Ok(hs) => match spec_dec_instances(b.skip(used)) {
                            Err(e) => Err(e),
                            Ok(rest) => Ok(hs + rest),
                        },
                    }
                }
            },
        }
    }
}

fn dec_inst_entries(entries: &Vec<(String, Val)>, i: usize, out: &mut Vec<Instance>) -> (r: Option<
    CoreconfError,
>)
    requires
        i <= entries@.len(),
    ensures
        match r {
            None => spec_inst_entries(crate::value::view_entries(entries@), i as int) matches Ok(
                hs,
            ) && view_insts(final(out)@) == view_insts(old(out)@) + hs && final(out)@.len() == old(
                out,
            )@.len() + hs.len() && (forall|k: int|
                0 <= k < old(out)@.len() ==> final(out)@[k] == #[trigger] old(out)@[k]) && (
            forall|k: int|
                old(out)@.len() <= k < final(out)@.len()
                    ==> (#[trigger] final(out)@[k]).path.spec_components() == seq![
                    PComp::Delta(final(out)@[k].spec_sid()),
                ] && final(out)@[k].path.spec_absolute() == Some(final(out)@[k].spec_sid())),
            Some(e) => spec_inst_entries(crate::value::view_entries(entries@), i as int)
                matches Err(se) && err_matches(e, se),
        },
    decreases entries@.len() - i,
{
    let ghost ev = crate::value::view_entries(entries@);
    if i >= entries.len() {
        proof {
            assert(view_insts(out@) =~= view_insts(out@) + Seq::<(i64, Option<SpecVal>)>::empty());
        }
        return None;
    }
    let sid = match parse_i64_str(entries[i].0.as_str()) {
        Some(sid) => sid,
        None => {
            return Some(
                CoreconfError::TypeConversion(String::from_str("invalid SID in instance")),
            );
        },
    };
    let mut path = InstancePath::new();
    path.push_delta(sid);
    proof {
        assert(path.spec_components() =~= seq![PComp::Delta(sid)]);
    }
    let inst = if entries[i].1.is_null() {
        Instance::delete(path)
    } else {
        Instance::new(path, entries[i].1.dup())
    };
    let ghost mid_len = out@.len();
    out.push(inst);
    let ghost mid = out@;
    let r = dec_inst_entries(entries, i + 1, out);
    proof {
        if r is None {
            let hs = spec_inst_entries(ev, i + 1)->Ok_0;
            assert forall|k: int| 0 <= k < mid.len() implies #[trigger] out@[k] == mid[k] by {
                assert(out@[k] == mid[k]);
            }
            assert forall|k: int| 0 <= k < old(out)@.len() implies #[trigger] out@[k] == old(
                out,
            )@[k] by {
                assert(out@[k] == mid[k]);
                assert(mid[k] == old(out)@[k]);
            }
            assert(view_insts(out@) =~= view_insts(old(out)@) + (seq![
                (
                    sid,
                    if ev[i as int].1 is Null {
                        None
                    } else {
                        Some(ev[i as int].1)
                    },
                ),
            ] + hs)) by {
                assert(view_insts(out@).len() == view_insts(mid).len() + hs.len());
                assert(mid[mid_len as int] == inst);
            }
            assert forall|k: int|
                old(out)@.len() <= k < out@.len() implies (
            #[trigger] out@[k]).path.spec_components() == seq![
                PComp::Delta(out@[k].spec_sid()),
            ] by {
                if k < mid.len() {
                    assert(out@[k] == mid[k]);
                    assert(mid[mid_len as int] == inst);
                }
            }
        }
    }
    r
}

/// Decodes instances from a CBOR sequence until the bytes run out.
pub fn decode_instances(bytes: &[u8]) -> (r: Result<Vec<Instance>, CoreconfError>)
    ensures
        match r {
            Ok(out) => spec_dec_instances(bytes@) == Ok::<_, SpecErr>(view_insts(out@)) && (
            forall|k: int|
                0 <= k < out@.len() ==> (#[trigger] out@[k]).path.spec_components() == seq![
                    PComp::Delta(out@[k].spec_sid()),
                ] && out@[k].path.spec_absolute() == Some(out@[k].spec_sid())),
            Err(e) => spec_dec_instances(bytes@) matches Err(se) && err_matches(e, se),
        },
{
    let mut out: Vec<Instance> = Vec::new();
    match dec_insts_at(bytes, 0, &mut out) {
        None => {
            proof {
                assert(bytes@.skip(0) =~= bytes@);
            }
            Ok(out)
        },
        Some(e) => {
            proof {
                assert(bytes@.skip(0) =~= bytes@);
            }
            Err(e)
        },
    }
}

fn dec_insts_at(b: &[u8], pos: usize, out: &mut Vec<Instance>) -> (r: Option<CoreconfError>)
    requires
        pos <= b@.len(),
    ensures
        match r {
            None => spec_dec_instances(b@.skip(pos as int)) matches Ok(hs) && view_insts(
                final(out)@,
            ) == view_insts(old(out)@) + hs && (forall|k: int|
                0 <= k < old(out)@.len() ==> final(out)@[k] == #[trigger] old(out)@[k]) && (
            forall|k: int|
                old(out)@.len() <= k < final(out)@.len()
                    ==> (#[trigger] final(out)@[k]).path.spec_components() == seq![
                    PComp::Delta(final(out)@[k].spec_sid()),
                ] && final(out)@[k].path.spec_absolute() == Some(final(out)@[k].spec_sid())),
            Some(e) => spec_dec_instances(b@.skip(pos as int)) matches Err(se) && err_matches(
                e,
                se,
            ),
        },
    decreases b@.len() - pos,
{
    if pos >= b.len() {
        proof {
            assert(b@.skip(pos as int).len() == 0);
            assert(view_insts(out@) =~= view_insts(out@) + Seq::<(i64, Option<SpecVal>)>::empty());
        }
        return None;
    }
    let (v, end) = match cbor_decode_at(b, pos) {
        Ok(x) => x,
        Err(e) => {
            return Some(e);
        },
    };
    let ghost mid0 = out@;
    match &v {
        Val::Obj(entries) => {
            match dec_inst_entries(entries, 0, out) {
                None => {},
                Some(e) => {
                    return Some(e);
                },
            }
        },
        _ => {},
    }
    let ghost mid = out@;
    proof {
        assert(b@.skip(pos as int).skip(end - pos as int) =~= b@.skip(end as int));
    }
    let r = dec_insts_at(b, end, out);
    proof {
        if r is None {
            let tail = b@.skip(pos as int);
            let hs: Seq<(i64, Option<SpecVal>)> = match v@ {
                SpecVal::Obj(entries) => spec_inst_entries(entries, 0)->Ok_0,
                _ => Seq::empty(),
            };
            let rest = spec_dec_instances(b@.skip(end as int))->Ok_0;
            assert forall|k: int| 0 <= k < mid.len() implies #[trigger] out@[k] == mid[k] by {
                assert(out@[k] == mid[k]);
            }
            assert forall|k: int| 0 <= k < old(out)@.len() implies #[trigger] out@[k] == old(
                out,
            )@[k] by {
                assert(out@[k] == mid[k]);
                assert(mid[k] == old(out)@[k]);
            }
            assert(view_insts(mid) =~= view_insts(old(out)@) + hs);
            assert(view_insts(out@) =~= view_insts(mid) + rest) by {
                assert(view_insts(out@).len() == mid.len() + rest.len());
            }
            assert(view_insts(out@) =~= view_insts(old(out)@) + (hs + rest));
            assert forall|k: int|
                old(out)@.len() <= k < out@.len() implies (
            #[trigger] out@[k]).path.spec_components() == seq![
                PComp::Delta(out@[k].spec_sid()),
            ] by {
                if k < mid.len() {
                    assert(out@[k] == mid[k]);
                }
            }
        }
    }
    r
}

/// Deltas stand at the even positions and keys at the odd ones, so the
/// wire array reads back unambiguously.
pub open spec fn alternating(comps: Seq<PComp>) -> bool {
    forall|i: int| 0 <= i < comps.len() ==> ((i % 2 == 0) <==> (#[trigger] comps[i]) is Delta)
}

/// The running SID stays within the signed 64-bit range.
pub open spec fn sums_ok(comps: Seq<PComp>, i: int, cur: Option<i64>) -> bool
    decreases comps.len() - i,
{
    if i < 0 || i >= comps.len() {
        true
    } else {
        match comps[i] {
            PComp::Delta(d) => match cur {
                Some(s) => i64::MIN <= s + d <= i64::MAX && sums_ok(
                    comps,
                    i + 1,
                    Some((s + d) as i64),
                ),
                None => sums_ok(comps, i + 1, Some(d)),
            },
            PComp::Key(_) => sums_ok(comps, i + 1, cur),
        }
    }
}

proof fn lemma_comp_vals(comps: Seq<PComp>, j: int)
    requires
        0 <= j <= comps.len(),
    ensures
        comp_vals(comps, j).len() == comps.len() - j,
        forall|k: int|
            j <= k < comps.len() ==> comp_vals(comps, j)[k - j] == (match #[trigger] comps[k] {
                PComp::Delta(d) => SpecVal::Int(d as int),
                PComp::Key(v) => v,
            }),
    decreases comps.len() - j,
{
    if j < comps.len() {
        lemma_comp_vals(comps, j + 1);
    }
}

proof fn lemma_alt_roundtrip(comps: Seq<PComp>, i: int, built: Seq<PComp>, abs: Option<i64>)
    requires
        alternating(comps),
        0 <= i <= comps.len(),
        sums_ok(comps, i, abs),
    ensures
        spec_path_alt(comp_vals(comps, 0), i, i % 2 == 0, built, abs) == Ok::<_, SpecErr>(
            (built + comps.skip(i), fold_abs(comps, i, abs)),
        ),
    decreases comps.len() - i,
{
    lemma_comp_vals(comps, 0);
    let items = comp_vals(comps, 0);
    if i == comps.len() {
        assert(built + comps.skip(i) =~= built);
    } else {
        assert(items[i] == (match comps[i] {
            PComp::Delta(d) => SpecVal::Int(d as int),
            PComp::Key(v) => v,
        }));
        if i % 2 == 0 {
            assert(comps[i] is Delta);
            let d = comps[i]->Delta_0;
            let abs2: Option<i64> = match abs {
                Some(s) => Some((s + d) as i64),
                None => Some(d),
            };
            assert((i + 1) % 2 != 0);
            lemma_alt_roundtrip(comps, i + 1, built.push(PComp::Delta(d)), abs2);
            assert(built.push(PComp::Delta(d)) + comps.skip(i + 1) =~= built + comps.skip(i));
        } else {
            assert(!(comps[i] is Delta));
            let v = comps[i]->Key_0;
            assert((i + 1) % 2 == 0);
            lemma_alt_roundtrip(comps, i + 1, built.push(PComp::Key(v)), abs);
            assert(built.push(PComp::Key(v)) + comps.skip(i + 1) =~= built + comps.skip(i));
        }
    }
}

/// Path codec inversion: reading the wire value of a path whose deltas
/// and keys alternate gives back the same components, and with them the
/// same component count and the same absolute SID.
pub proof fn lemma_path_roundtrip(comps: Seq<PComp>, abs: Option<i64>)
    requires
        alternating(comps),
        sums_ok(comps, 0, None),
        abs == fold_abs(comps, 0, None),
    ensures
        spec_path_from_cbor(spec_path_cbor(comps)) == Ok::<_, SpecErr>((comps, abs)),
{
    if comps.len() == 0 {
        assert(comps =~= Seq::<PComp>::empty());
    } else if comps.len() == 1 {
        assert(comps[0] is Delta);
        let d = comps[0]->Delta_0;
        assert(comps =~= seq![PComp::Delta(d)]);
        assert(fold_abs(comps, 1, Some(d)) == Some(d));
    } else {
        lemma_alt_roundtrip(comps, 0, Seq::empty(), None);
        assert(Seq::empty() + comps.skip(0) =~= comps);
    }
}

/// Path codec inversion at the byte level: encoding the path and
/// decoding the bytes gives the same components and absolute SID.
pub proof fn lemma_path_codec_bytes(comps: Seq<PComp>, abs: Option<i64>)
    requires
        alternating(comps),
        sums_ok(comps, 0, None),
        abs == fold_abs(comps, 0, None),
        comps.len() < 0x10000000000000000,
        forall|k: int|
            0 <= k < comps.len() ==> (#[trigger] comps[k] matches PComp::Key(v) ==> cbor_wf(v)),
    ensures
        ({
            let w = spec_path_cbor(comps);
            let bytes = cbor_enc(w);
            &&& cbor_dec(bytes) == Some((w, bytes.len() as int))
            &&& spec_path_from_cbor(w) == Ok::<_, SpecErr>((comps, abs))
        }),
{
    let w = spec_path_cbor(comps);
    assert(cbor_wf(w)) by {
        if comps.len() == 0 {
        } else if comps.len() == 1 && comps[0] is Delta {
        } else {
            lemma_comp_vals(comps, 0);
            let items = comp_vals(comps, 0);
            assert forall|k: int| 0 <= k < items.len() implies cbor_wf(#[trigger] items[k]) by {
                assert(items[k] == (match comps[k] {
                    PComp::Delta(d) => SpecVal::Int(d as int),
                    PComp::Key(v) => v,
                }));
            }
            crate::cbor::lemma_wf_items_pointwise(items, 0);
        }
    }
    lemma_cbor_roundtrip(w, Seq::empty());
    assert(cbor_enc(w) + Seq::<u8>::empty() =~= cbor_enc(w));
    lemma_path_roundtrip(comps, abs);
}

proof fn lemma_inst_wf(sid: i64, value: Option<SpecVal>)
    requires
        value matches Some(v) ==> cbor_wf(v),
    ensures
        cbor_wf(inst_cbor(sid, value)),
{
    crate::strutil::lemma_idec_small(sid as int);
    let entries = inst_cbor(sid, value)->Obj_0;
    assert(entries.len() == 1);
    assert(crate::cbor::wf_entries_from(entries, 1));
    assert(vstd::utf8::encode_utf8(entries[0].0).len() <= 21);
    assert(cbor_wf(entries[0].1)) by {
        match value {
            Some(v) => {
                assert(entries[0].1 == v);
            },
            None => {
                assert(entries[0].1 is Null);
            },
        }
    }
    assert(crate::cbor::wf_entries_from(entries, 0));
}

#[verifier::rlimit(100)]
proof fn lemma_dec_enc_insts(xs: Seq<(i64, Option<SpecVal>)>, i: int)
    requires
        0 <= i <= xs.len(),
        forall|k: int|
            0 <= k < xs.len() ==> (#[trigger] xs[k].1 matches Some(v) ==> cbor_wf(v) && !(
            v is Null)),
    ensures
        spec_dec_instances(spec_enc_instances(xs, i)) == Ok::<_, SpecErr>(xs.skip(i)),
    decreases xs.len() - i,
{
    let b = spec_enc_instances(xs, i);
    if i == xs.len() {
        assert(b =~= Seq::<u8>::empty());
        assert(xs.skip(i) =~= Seq::<(i64, Option<SpecVal>)>::empty());
    } else {
        let w = inst_cbor(xs[i].0, xs[i].1);
        let e0 = cbor_enc(w);
        let rest = spec_enc_instances(xs, i + 1);
        assert(b =~= e0 + rest);
        assert(xs[i].1 matches Some(v) ==> cbor_wf(v));
        lemma_inst_wf(xs[i].0, xs[i].1);
        lemma_cbor_roundtrip(w, rest);
        lemma_enc_len_pos(w);
        let used = e0.len() as int;
        assert(b.len() >= 1);
        assert(cbor_dec(b) == Some((w, used)));
        assert(b.skip(used) =~= rest);
        lemma_dec_enc_insts(xs, i + 1);
        let entries = seq![
            (
                idec(xs[i].0 as int),
                match xs[i].1 {
                    Some(v) => v,
                    None => SpecVal::Null,
                },
            ),
        ];
        assert(spec_inst_entries(entries, 0) == Ok::<_, SpecErr>(seq![xs[i]])) by {
            lemma_idec_parse(xs[i].0 as int);
            assert(parse_int_i64(entries[0].0) == Some(xs[i].0));
            assert(spec_inst_entries(entries, 1) == Ok::<_, SpecErr>(
                Seq::<(i64, Option<SpecVal>)>::empty(),
            ));
            match xs[i].1 {
                Some(v) => {
                    assert(!(entries[0].1 is Null));
                    assert(seq![(xs[i].0, Some(v))] + Seq::<(i64, Option<SpecVal>)>::empty()
                        =~= seq![xs[i]]);
                },
                None => {
                    assert(entries[0].1 is Null);
                    assert(seq![(xs[i].0, None::<SpecVal>)]
                        + Seq::<(i64, Option<SpecVal>)>::empty() =~= seq![xs[i]]);
                },
            }
        }
        assert(seq![xs[i]] + xs.skip(i + 1) =~= xs.skip(i));
    }
}

/// Instance codec inversion: decoding an encoded instance list gives
/// the same SIDs and values back. A value that is itself null cannot
/// come back, since null on the wire stands for delete.
pub proof fn lemma_instances_roundtrip(xs: Seq<(i64, Option<SpecVal>)>)
    requires
        forall|k: int|
            0 <= k < xs.len() ==> (#[trigger] xs[k].1 matches Some(v) ==> cbor_wf(v) && !(
            v is Null)),
    ensures
        spec_dec_instances(spec_enc_instances(xs, 0)) == Ok::<_, SpecErr>(xs),
{
    lemma_dec_enc_insts(xs, 0);
    assert(xs.skip(0) =~= xs);
}

} // verus!
