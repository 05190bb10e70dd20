//! Client-side builder: the inverse of the handler, constructing FETCH,
//! iPATCH and POST payloads and reading responses back.

use vstd::prelude::*;
use vstd::string::*;
use crate::coreconf::CoreconfModel;
use crate::error::{CoreconfError, SpecErr, err_matches};
use crate::instance_id::{decode_instances, encode_identifiers, encode_instances,
    spec_dec_instances, spec_enc_identifiers, spec_enc_instances, spec_yang_path, Instance,
    InstancePath, PComp, view_insts, view_paths};
use crate::sid::SidFile;
use crate::strutil::spec_segments;
use crate::value::{SpecVal, Val};

verus! {

broadcast use vstd::std_specs::vec::group_vec_axioms;

/// The path components resolved for each YANG path, or the first
/// failure.
pub open spec fn spec_resolve_paths(cat: SidFile, paths: Seq<Seq<char>>, i: int) -> Result<
    Seq<Seq<PComp>>,
    SpecErr,
>
    decreases paths.len() - i,
{
    if i < 0 || i >= paths.len() {
        Ok(Seq::empty())
    } else {
        match spec_yang_path(cat, spec_segments(paths[i]), 0, Seq::empty(), 0, Seq::empty()) {
            Err(e) => Err(e),
            Ok((comps, _)) => match spec_resolve_paths(cat, paths, i + 1) {
                Err(e) => Err(e),
                Ok(rest) => Ok(seq![comps] + rest),
            },
        }
    }
}

/// Single-delta identifier components for each SID.
pub open spec fn spec_sid_paths(sids: Seq<i64>) -> Seq<Seq<PComp>> {
    Seq::new(sids.len(), |i: int| seq![PComp::Delta(sids[i])])
}

/// The resolved instances of an iPATCH by YANG paths, or the first
/// failure.
pub open spec fn spec_resolve_changes(
    cat: SidFile,
    changes: Seq<(Seq<char>, Option<SpecVal>)>,
    i: int,
) -> Result<Seq<(i64, Option<SpecVal>)>, SpecErr>
    decreases changes.len() - i,
{
    if i < 0 || i >= changes.len() {
        Ok(Seq::empty())
    } else {
        match spec_yang_path(cat, spec_segments(changes[i].0), 0, Seq::empty(), 0, Seq::empty()) {
            Err(e) => Err(e),
            Ok((_, last)) => match spec_resolve_changes(cat, changes, i + 1) {
                Err(e) => Err(e),
                Ok(rest) => Ok(seq![(last, changes[i].1)] + rest),
            },
        }
    }
}

/// The (SID, value) pairs of a response: instances that carry a value.
pub open spec fn spec_response_pairs(xs: Seq<(i64, Option<SpecVal>)>, i: int) -> Seq<(i64, SpecVal)>
    decreases xs.len() - i,
{
    if i < 0 || i >= xs.len() {
        Seq::empty()
    } else {
        let rest = spec_response_pairs(xs, i + 1);
        match xs[i].1 {
            Some(v) => seq![(xs[i].0, v)] + rest,
            None => rest,
        }
    }
}

/// Builds request payloads and reads responses, over one catalog.
#[derive(Debug)]
pub struct RequestBuilder {
    model: CoreconfModel,
}

impl RequestBuilder {
    pub closed spec fn spec_model(self) -> CoreconfModel {
        self.model
    }

    /// A builder over the given model.
    pub fn new(model: CoreconfModel) -> (r: Self)
        ensures
            r.spec_model() == model,
    {
        Self { model }
    }

    /// FETCH payload naming the given YANG paths.
    pub fn build_fetch(&self, paths: &Vec<String>) -> (r: Result<Vec<u8>, CoreconfError>)
        ensures
            match r {
                Ok(bytes) => spec_resolve_paths(
                    self.spec_model().sid_file,
                    crate::datastore::view_segs(paths@),
                    0,
                ) matches Ok(ps) && bytes@ == spec_enc_identifiers(ps, 0),
                Err(e) => spec_resolve_paths(
                    self.spec_model().sid_file,
                    crate::datastore::view_segs(paths@),
                    0,
                ) matches Err(se) && err_matches(e, se),
            },
    {
        let ghost pv = crate::datastore::view_segs(paths@);
        let mut instance_paths: Vec<InstancePath> = Vec::new();
        let mut i: usize = 0;
        #[verifier::loop_isolation(false)]
        while i < paths.len()
            invariant
                i <= paths@.len(),
                forall|j: int|
                    0 <= j < i ==> spec_yang_path(
                        self.spec_model().sid_file,
                        spec_segments(#[trigger] pv[j]),
                        0,
                        Seq::empty(),
                        0,
                        Seq::empty(),
                    ) is Ok,
                view_paths(instance_paths@) =~= prefix_comps(
                    self.spec_model().sid_file,
                    pv,
                    i as int,
                ),
            decreases paths@.len() - i,
        {
            let ghost pre = view_paths(instance_paths@);
            match InstancePath::from_yang_path(paths[i].as_str(), &self.model.sid_file) {
                Ok(ip) => {
                    let ghost comps = ip.spec_components();
                    instance_paths.push(ip);
                    proof {
                        assert(view_paths(instance_paths@) =~= pre.push(comps));
                        assert(view_paths(instance_paths@) =~= prefix_comps(
                            self.spec_model().sid_file,
                            pv,
                            i + 1,
                        ));
                    }
                },
                Err(e) => {
                    proof {
                        lemma_resolve_prefix(self.spec_model().sid_file, pv, i as int);
                    }
                    return Err(e);
                },
            }
            i = i + 1;
        }
        proof {
            lemma_resolve_prefix(self.spec_model().sid_file, pv, paths@.len() as int);
            assert(spec_resolve_paths(self.spec_model().sid_file, pv, paths@.len() as int) == Ok::<
                _,
                SpecErr,
            >(Seq::<Seq<PComp>>::empty()));
            assert(prefix_comps(self.spec_model().sid_file, pv, paths@.len() as int) + Seq::<
                Seq<PComp>,
            >::empty() =~= prefix_comps(self.spec_model().sid_file, pv, paths@.len() as int));
            assert(view_paths(instance_paths@) =~= spec_resolve_paths(
                self.spec_model().sid_file,
                pv,
                0,
            )->Ok_0);
        }
        encode_identifiers(&instance_paths)
    }

    /// FETCH payload naming the given SIDs.
    pub fn build_fetch_sids(&self, sids: &Vec<i64>) -> (r: Result<Vec<u8>, CoreconfError>)
        ensures
            r matches Ok(bytes) && bytes@ == spec_enc_identifiers(spec_sid_paths(sids@), 0),
    {
        let mut instance_paths: Vec<InstancePath> = Vec::new();
        let mut i: usize = 0;
        #[verifier::loop_isolation(false)]
        while i < sids.len()
            invariant
                i <= sids@.len(),
                view_paths(instance_paths@) =~= spec_sid_paths(sids@).take(i as int),
            decreases sids@.len() - i,
        {
            let ghost pre = view_paths(instance_paths@);
            let mut ip = InstancePath::new();
            ip.push_delta(sids[i]);
            proof {
                assert(ip.spec_components() =~= seq![PComp::Delta(sids@[i as int])]);
            }
            instance_paths.push(ip);
            proof {
                assert(view_paths(instance_paths@) =~= pre.push(
                    seq![PComp::Delta(sids@[i as int])],
                ));
                assert(view_paths(instance_paths@) =~= spec_sid_paths(sids@).take(i + 1));
            }
            i = i + 1;
        }
        proof {
            assert(spec_sid_paths(sids@).take(sids@.len() as int) =~= spec_sid_paths(sids@));
        }
        encode_identifiers(&instance_paths)
    }

    /// iPATCH payload from (path, value) changes; no value means delete.
    pub fn build_ipatch(&self, changes: &Vec<(String, Option<Val>)>) -> (r: Result<
        Vec<u8>,
        CoreconfError,
    >)
        ensures
            match r {
                Ok(bytes) => spec_resolve_changes(
                    self.spec_model().sid_file,
                    crate::datastore::view_changes(changes@),
                    0,
                ) matches Ok(xs) && bytes@ == spec_enc_instances(xs, 0),
                Err(e) => spec_resolve_changes(
                    self.spec_model().sid_file,
                    crate::datastore::view_changes(changes@),
                    0,
                ) matches Err(se) && err_matches(e, se),
            },
    {
        let ghost cv = crate::datastore::view_changes(changes@);
        let mut instances: Vec<Instance> = Vec::new();
        let mut i: usize = 0;
        #[verifier::loop_isolation(false)]
        while i < changes.len()
            invariant
                i <= changes@.len(),
                forall|j: int|
                    0 <= j < i ==> spec_yang_path(
                        self.spec_model().sid_file,
                        spec_segments((#[trigger] cv[j]).0),
                        0,
                        Seq::empty(),
                        0,
                        Seq::empty(),
                    ) is Ok,
                view_insts(instances@) =~= prefix_changes(
                    self.spec_model().sid_file,
                    cv,
                    i as int,
                ),
            decreases changes@.len() - i,
        {
            let ghost pre = view_insts(instances@);
            match InstancePath::from_yang_path(changes[i].0.as_str(), &self.model.sid_file) {
                Ok(ip) => {
                    let ghost abs = ip.spec_absolute();
                    let inst = match &changes[i].1 {
                        Some(v) => Instance::new(ip, v.dup()),
                        None => Instance::delete(ip),
                    };
                    instances.push(inst);
                    proof {
                        assert(view_insts(instances@) =~= pre.push(
                            (
                                spec_yang_path(
                                    self.spec_model().sid_file,
                                    spec_segments(cv[i as int].0),
                                    0,
                                    Seq::empty(),
                                    0,
                                    Seq::empty(),
                                )->Ok_0.1,
                                cv[i as int].1,
                            ),
                        ));
                        assert(view_insts(instances@) =~= prefix_changes(
                            self.spec_model().sid_file,
                            cv,
                            i + 1,
                        ));
                    }
                },
                Err(e) => {
                    proof {
                        lemma_changes_prefix(self.spec_model().sid_file, cv, i as int);
                    }
                    return Err(e);
                },
            }
            i = i + 1;
        }
        proof {
            lemma_changes_prefix(self.spec_model().sid_file, cv, changes@.len() as int);
            assert(spec_resolve_changes(self.spec_model().sid_file, cv, changes@.len() as int)
                == Ok::<_, SpecErr>(Seq::<(i64, Option<SpecVal>)>::empty()));
            assert(prefix_changes(self.spec_model().sid_file, cv, changes@.len() as int) + Seq::<
                (i64, Option<SpecVal>),
            >::empty() =~= prefix_changes(self.spec_model().sid_file, cv, changes@.len() as int));
            assert(view_insts(instances@) =~= spec_resolve_changes(
                self.spec_model().sid_file,
                cv,
                0,
            )->Ok_0);
        }
        encode_instances(&instances)
    }

    /// iPATCH payload from (SID, value) changes.
    pub fn build_ipatch_sids(&self, changes: &Vec<(i64, Option<Val>)>) -> (r: Result<
        Vec<u8>,
        CoreconfError,
    >)
        ensures
            r matches Ok(bytes) && bytes@ == spec_enc_instances(view_sid_changes(changes@), 0),
    {
        let ghost cv = view_sid_changes(changes@);
        let mut instances: Vec<Instance> = Vec::new();
        let mut i: usize = 0;
        #[verifier::loop_isolation(false)]
        while i < changes.len()
            invariant
                i <= changes@.len(),
                view_insts(instances@) =~= cv.take(i as int),
            decreases changes@.len() - i,
        {
            let ghost pre = view_insts(instances@);
            let mut ip = InstancePath::new();
            ip.push_delta(changes[i].0);
            let inst = match &changes[i].1 {
                Some(v) => Instance::new(ip, v.dup()),
                None => Instance::delete(ip),
            };
            instances.push(inst);
            proof {
                assert(view_insts(instances@) =~= pre.push(cv[i as int]));
                assert(view_insts(instances@) =~= cv.take(i + 1));
            }
            i = i + 1;
        }
        proof {
            assert(cv.take(changes@.len() as int) =~= cv);
        }
        encode_instances(&instances)
    }

    /// POST payload invoking the RPC at the path, with optional input.
    pub fn build_post(&self, rpc_path: &str, input: Option<Val>) -> (r: Result<
        Vec<u8>,
        CoreconfError,
    >)
        ensures
            match r {
                Ok(bytes) => spec_yang_path(
                    self.spec_model().sid_file,
                    spec_segments(rpc_path@),
                    0,
                    Seq::empty(),
                    0,
                    Seq::empty(),
                ) matches Ok((comps, last)) && bytes@ == spec_enc_instances(
                    seq![
                        (
                            last,
                            match input {
                                Some(v) => Some(v@),
                                None => Some(SpecVal::Null),
                            },
                        ),
                    ],
                    0,
                ),
                Err(e) => spec_yang_path(
                    self.spec_model().sid_file,
                    spec_segments(rpc_path@),
                    0,
                    Seq::empty(),
                    0,
                    Seq::empty(),
                ) matches Err(se) && err_matches(e, se),
            },
    {
        let ip = match InstancePath::from_yang_path(rpc_path, &self.model.sid_file) {
            Ok(ip) => ip,
            Err(e) => {
                return Err(e);
            },
        };
        let ghost sid = ip.spec_absolute()->Some_0;
        let instance = match input {
            Some(v) => Instance::new(ip, v),
            None => Instance::new(ip, Val::Null),
        };
        let mut instances: Vec<Instance> = Vec::new();
        instances.push(instance);
        proof {
            assert(view_insts(instances@) =~= seq![
                (
                    sid,
                    match input {
                        Some(v) => Some(v@),
                        None => Some(SpecVal::Null),
                    },
                ),
            ]);
        }
        encode_instances(&instances)
    }

    /// Reads a FETCH or iPATCH response into (SID, value) pairs.
    pub fn parse_response(&self, cbor: &[u8]) -> (r: Result<Vec<(i64, Val)>, CoreconfError>)
        ensures
            match r {
                Ok(out) => spec_dec_instances(cbor@) matches Ok(xs) && view_pairs(out@)
                    == spec_response_pairs(xs, 0),
                Err(e) => spec_dec_instances(cbor@) matches Err(se) && err_matches(e, se),
            },
    {
        let instances = match decode_instances(cbor) {
            Ok(instances) => instances,
            Err(e) => {
                return Err(e);
            },
        };
        let ghost xs = view_insts(instances@);
        let mut out: Vec<(i64, Val)> = Vec::new();
        let mut i: usize = 0;
        #[verifier::loop_isolation(false)]
        while i < instances.len()
            invariant
                i <= instances@.len(),
                spec_response_pairs(xs, 0) =~= view_pairs(out@) + spec_response_pairs(
                    xs,
                    i as int,
                ),
            decreases instances@.len() - i,
        {
            let ghost pre = view_pairs(out@);
            proof {
                assert(xs[i as int] == (instances@[i as int].spec_sid(),
                    instances@[i as int].spec_value()));
            }
            let sid = match instances[i].path.absolute_sid() {
                Some(sid) => {
                    match &instances[i].value {
                        Some(value) => {
                            out.push((sid, value.dup()));
                            proof {
                                assert(view_pairs(out@) =~= pre.push((sid, value@)));
                            }
                        },
                        None => {},
                    }
                },
                None => {
                    proof {
                        assert(instances@[i as int].path.spec_absolute() == Some(
                            instances@[i as int].spec_sid(),
                        ));
                        assert(false);
                    }
                },
            };
            proof {
                assert(spec_response_pairs(xs, 0) =~= view_pairs(out@) + spec_response_pairs(
                    xs,
                    i + 1,
                ));
            }
            i = i + 1;
        }
        proof {
            assert(spec_response_pairs(xs, instances@.len() as int) =~= Seq::<
                (i64, SpecVal),
            >::empty());
            assert(view_pairs(out@) =~= spec_response_pairs(xs, 0));
        }
        Ok(out)
    }

    /// Reads a response into an object keyed by identifier paths; pairs
    /// whose SID is unknown are passed over.
    pub fn parse_response_json(&self, cbor: &[u8]) -> (r: Result<Val, CoreconfError>)
        ensures
            match r {
                Ok(out) => spec_dec_instances(cbor@) matches Ok(xs) && out@ == SpecVal::Obj(
                    spec_pairs_obj(
                        self.spec_model().sid_file,
                        spec_response_pairs(xs, 0),
                        0,
                    ),
                ),
                Err(e) => spec_dec_instances(cbor@) matches Err(se) && err_matches(e, se),
            },
    {
        let pairs = match self.parse_response(cbor) {
            Ok(pairs) => pairs,
            Err(e) => {
                return Err(e);
            },
        };
        let ghost pv = view_pairs(pairs@);
        let mut entries: Vec<(String, Val)> = Vec::new();
        let mut i: usize = 0;
        #[verifier::loop_isolation(false)]
        while i < pairs.len()
            invariant
                i <= pairs@.len(),
                spec_pairs_obj(self.spec_model().sid_file, pv, 0)
                    =~= crate::value::view_entries(entries@) + spec_pairs_obj(
                    self.spec_model().sid_file,
                    pv,
                    i as int,
                ),
            decreases pairs@.len() - i,
        {
            let ghost pre = crate::value::view_entries(entries@);
            proof {
                assert(pv[i as int] == (pairs@[i as int].0, pairs@[i as int].1@));
            }
            match self.model.sid_file.get_identifier(pairs[i].0) {
                Some(path) => {
                    let key = crate::strutil::substring(path, 0, path.unicode_len());
                    proof {
                        assert(key@ =~= self.spec_model().sid_file.spec_get_identifier(
                            pairs@[i as int].0,
                        )->Some_0);
                    }
                    let v = pairs[i].1.dup();
                    entries.push((key, v));
                    proof {
                        assert(crate::value::view_entries(entries@) =~= pre.push(
                            (
                                self.spec_model().sid_file.spec_get_identifier(
                                    pv[i as int].0,
                                )->Some_0,
                                pv[i as int].1,
                            ),
                        ));
                    }
                },
                None => {},
            }
            proof {
                assert(spec_pairs_obj(self.spec_model().sid_file, pv, 0)
                    =~= crate::value::view_entries(entries@) + spec_pairs_obj(
                    self.spec_model().sid_file,
                    pv,
                    i + 1,
                ));
            }
            i = i + 1;
        }
        proof {
            assert(spec_pairs_obj(self.spec_model().sid_file, pv, pairs@.len() as int) =~= Seq::<
                (Seq<char>, SpecVal),
            >::empty());
            assert(crate::value::view_entries(entries@) =~= spec_pairs_obj(
                self.spec_model().sid_file,
                pv,
                0,
            ));
        }
        Ok(Val::Obj(entries))
    }
}

pub open spec fn view_sid_changes(changes: Seq<(i64, Option<Val>)>) -> Seq<(i64, Option<SpecVal>)>
    decreases changes,
{
    Seq::new(
        changes.len(),
        |i: int|
            if 0 <= i < changes.len() {
                (
                    changes[i].0,
                    match changes[i].1 {
                        Some(v) => Some(v@),
                        None => None,
                    },
                )
            } else {
                (0i64, None)
            },
    )
}

pub open spec fn view_pairs(pairs: Seq<(i64, Val)>) -> Seq<(i64, SpecVal)>
    decreases pairs,
{
    Seq::new(
        pairs.len(),
        |i: int|
            if 0 <= i < pairs.len() {
                (pairs[i].0, pairs[i].1@)
            } else {
                (0i64, SpecVal::Null)
            },
    )
}

/// The response object entries: each known SID becomes an entry keyed
/// by its identifier path.
pub open spec fn spec_pairs_obj(cat: SidFile, pairs: Seq<(i64, SpecVal)>, i: int) -> Seq<
    (Seq<char>, SpecVal),
>
    decreases pairs.len() - i,
{
    if i < 0 || i >= pairs.len() {
        Seq::empty()
    } else {
        let rest = spec_pairs_obj(cat, pairs, i + 1);
        match cat.spec_get_identifier(pairs[i].0) {
            Some(id) => seq![(id, pairs[i].1)] + rest,
            None => rest,
        }
    }
}

pub open spec fn prefix_comps(cat: SidFile, paths: Seq<Seq<char>>, i: int) -> Seq<Seq<PComp>> {
    Seq::new(
        i as nat,
        |j: int| spec_yang_path(cat, spec_segments(paths[j]), 0, Seq::empty(), 0, Seq::empty())->Ok_0.0,
    )
}

proof fn lemma_resolve_prefix(cat: SidFile, paths: Seq<Seq<char>>, i: int)
    requires
        0 <= i <= paths.len(),
        forall|j: int|
            0 <= j < i ==> spec_yang_path(
                cat,
                spec_segments(#[trigger] paths[j]),
                0,
                Seq::empty(),
                0,
                Seq::empty(),
            ) is Ok,
    ensures
        spec_resolve_paths(cat, paths, 0) == (match spec_resolve_paths(cat, paths, i) {
            Ok(rest) => Ok::<_, SpecErr>(prefix_comps(cat, paths, i) + rest),
            Err(e) => Err(e),
        }),
    decreases i,
{
    if i == 0 {
        match spec_resolve_paths(cat, paths, 0) {
            Ok(rest) => {
                assert(prefix_comps(cat, paths, 0) + rest =~= rest);
            },
            Err(_) => {},
        }
    } else {
        lemma_resolve_prefix(cat, paths, i - 1);
        let here = spec_yang_path(
            cat,
            spec_segments(paths[i - 1]),
            0,
            Seq::empty(),
            0,
            Seq::empty(),
        )->Ok_0.0;
        match spec_resolve_paths(cat, paths, i) {
            Ok(rest) => {
                assert(spec_resolve_paths(cat, paths, i - 1) == Ok::<_, SpecErr>(
                    seq![here] + rest,
                ));
                assert(prefix_comps(cat, paths, i - 1) + (seq![here] + rest) =~= prefix_comps(
                    cat,
                    paths,
                    i,
                ) + rest);
            },
            Err(e) => {
                assert(spec_resolve_paths(cat, paths, i - 1) == Err::<Seq<Seq<PComp>>, _>(e));
            },
        }
    }
}

pub open spec fn prefix_changes(
    cat: SidFile,
    changes: Seq<(Seq<char>, Option<SpecVal>)>,
    i: int,
) -> Seq<(i64, Option<SpecVal>)> {
    Seq::new(
        i as nat,
        |j: int|
            (
                spec_yang_path(
                    cat,
                    spec_segments(changes[j].0),
                    0,
                    Seq::empty(),
                    0,
                    Seq::empty(),
                )->Ok_0.1,
                changes[j].1,
            ),
    )
}

proof fn lemma_changes_prefix(cat: SidFile, changes: Seq<(Seq<char>, Option<SpecVal>)>, i: int)
    requires
        0 <= i <= changes.len(),
        forall|j: int|
            0 <= j < i ==> spec_yang_path(
                cat,
                spec_segments((#[trigger] changes[j]).0),
                0,
                Seq::empty(),
                0,
                Seq::empty(),
            ) is Ok,
    ensures
        spec_resolve_changes(cat, changes, 0) == (match spec_resolve_changes(cat, changes, i) {
            Ok(rest) => Ok::<_, SpecErr>(prefix_changes(cat, changes, i) + rest),
            Err(e) => Err(e),
        }),
    decreases i,
{
    if i == 0 {
        match spec_resolve_changes(cat, changes, 0) {
            Ok(rest) => {
                assert(prefix_changes(cat, changes, 0) + rest =~= rest);
            },
            Err(_) => {},
        }
    } else {
        lemma_changes_prefix(cat, changes, i - 1);
        let here = (
            spec_yang_path(
                cat,
                spec_segments(changes[i - 1].0),
                0,
                Seq::empty(),
                0,
                Seq::empty(),
            )->Ok_0.1,
            changes[i - 1].1,
        );
        match spec_resolve_changes(cat, changes, i) {
            Ok(rest) => {
                assert(spec_resolve_changes(cat, changes, i - 1) == Ok::<_, SpecErr>(
                    seq![here] + rest,
                ));
                assert(prefix_changes(cat, changes, i - 1) + (seq![here] + rest)
                    =~= prefix_changes(cat, changes, i) + rest);
            },
            Err(e) => {
                assert(spec_resolve_changes(cat, changes, i - 1) == Err::<
                    Seq<(i64, Option<SpecVal>)>,
                    _,
                >(e));
            },
        }
    }
}

} // verus!
