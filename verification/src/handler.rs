//! The request handler: dispatches the four methods over the datastore
//! through the codecs and turns every outcome into a response.

use vstd::prelude::*;
use vstd::string::*;
use crate::cbor::{cbor_dec, cbor_enc, cbor_decode_at};
use crate::coap_types::{ContentFormat, Method, Request, Response, ResponseCode};
use crate::coreconf::spec_to_wire_top;
use crate::datastore::{spec_remove_path, spec_set_path, Datastore};
use crate::error::{CoreconfError, SpecErr, err_matches};
use crate::instance_id::{decode_instances, encode_instances, spec_dec_instances,
    spec_enc_instances, Instance, InstancePath};
use crate::sid::SidFile;
use crate::value::{SpecVal, Val};

verus! {

broadcast use vstd::std_specs::vec::group_vec_axioms;

/// The SIDs named by a FETCH payload: bare integers, or arrays whose
/// first element is the integer; anything else is passed over.
pub open spec fn spec_fetch_sids(b: Seq<u8>) -> Result<Seq<i64>, SpecErr>
    decreases b.len(),
{
    if b.len() == 0 {
        Ok(Seq::empty())
    } else {
        match cbor_dec(b) {
            None => Err(SpecErr::CborDecode),
            Some((v, used)) => {
                if used < 1 || used > b.len() {
                    Err(SpecErr::CborDecode)
                } else {
                    let here: Seq<i64> = match v {
                        SpecVal::Int(n) => if i64::MIN <= n <= i64::MAX {
                            seq![n as i64]
                        } else {
                            Seq::empty()
                        },
                        SpecVal::Arr(items) => if items.len() > 0 {
                            match items[0] {
                                SpecVal::Int(n) => if i64::MIN <= n <= i64::MAX {
                                    seq![n as i64]
                                } else {
                                    Seq::empty()
                                },
                                _ => Seq::empty(),
                            }
                        } else {
                            Seq::empty()
                        },
                        _ => Seq::empty(),
                    };
                    match spec_fetch_sids(b.skip(used)) {
                        Err(e) => Err(e),
                        Ok(rest) => Ok(here + rest),
                    }
                }
            },
        }
    }
}

/// What a FETCH returns for the requested SIDs: an instance for each
/// SID that resolves and has a value, in order; the others are passed
/// over rather than reported.
pub open spec fn spec_fetch_result(cat: SidFile, data: SpecVal, sids: Seq<i64>, i: int) -> Seq<
    (i64, Option<SpecVal>),
>
    decreases sids.len() - i,
{
    if i < 0 || i >= sids.len() {
        Seq::empty()
    } else {
        let rest = spec_fetch_result(cat, data, sids, i + 1);
        match cat.spec_get_identifier(sids[i]) {
            None => rest,
            Some(id) => match crate::datastore::spec_get_path(data, id) {
                Some(v) => seq![(sids[i], Some(v))] + rest,
                None => rest,
            },
        }
    }
}

/// The datastore after applying decoded instances in order: a value
/// sets, none deletes; an unknown SID stops the work there.
pub open spec fn spec_apply_insts(
    cat: SidFile,
    t: SpecVal,
    xs: Seq<(i64, Option<SpecVal>)>,
    i: int,
) -> (SpecVal, bool)
    decreases xs.len() - i,
{
    if i < 0 || i >= xs.len() {
        (t, true)
    } else {
        match cat.spec_get_identifier(xs[i].0) {
            None => (t, false),
            Some(id) => {
                let t2 = match xs[i].1 {
                    Some(v) => spec_set_path(t, id, v),
                    None => spec_remove_path(t, id).0,
                };
                spec_apply_insts(cat, t2, xs, i + 1)
            },
        }
    }
}

/// Null acknowledgements for the first `i` inputs.
pub open spec fn post_acks(xs: Seq<(i64, Option<SpecVal>)>, i: int) -> Seq<(i64, Option<SpecVal>)> {
    Seq::new(i as nat, |j: int| (xs[j].0, None::<SpecVal>))
}

proof fn lemma_post_prefix(cat: SidFile, xs: Seq<(i64, Option<SpecVal>)>, i: int)
    requires
        0 <= i <= xs.len(),
        forall|j: int| 0 <= j < i ==> cat.spec_get_identifier((#[trigger] xs[j]).0) is Some,
    ensures
        spec_post_results(cat, xs, 0) == (match spec_post_results(cat, xs, i) {
            Ok(rest) => Ok::<_, i64>(post_acks(xs, i) + rest),
            Err(s) => Err(s),
        }),
    decreases i,
{
    if i == 0 {
        match spec_post_results(cat, xs, 0) {
            Ok(rest) => {
                assert(post_acks(xs, 0) + rest =~= rest);
            },
            Err(_) => {},
        }
    } else {
        lemma_post_prefix(cat, xs, i - 1);
        assert(cat.spec_get_identifier(xs[i - 1].0) is Some);
        match spec_post_results(cat, xs, i) {
            Ok(rest) => {
                assert(spec_post_results(cat, xs, i - 1) == Ok::<_, i64>(
                    seq![(xs[i - 1].0, None::<SpecVal>)] + rest,
                ));
                assert(post_acks(xs, i - 1) + (seq![(xs[i - 1].0, None::<SpecVal>)] + rest)
                    =~= post_acks(xs, i) + rest);
            },
            Err(s) => {
                assert(spec_post_results(cat, xs, i - 1) == Err::<Seq<(i64, Option<SpecVal>)>, _>(
                    s,
                ));
            },
        }
    }
}

/// The POST results: one null-output instance per input whose SID is in
/// the catalog; the first unknown SID is the failure.
pub open spec fn spec_post_results(cat: SidFile, xs: Seq<(i64, Option<SpecVal>)>, i: int) -> Result<
    Seq<(i64, Option<SpecVal>)>,
    i64,
>
    decreases xs.len() - i,
{
    if i < 0 || i >= xs.len() {
        Ok(Seq::empty())
    } else {
        match cat.spec_get_identifier(xs[i].0) {
            None => Err(xs[i].0),
            Some(_) => match spec_post_results(cat, xs, i + 1) {
                Err(s) => Err(s),
                Ok(rest) => Ok(seq![(xs[i].0, None::<SpecVal>)] + rest),
            },
        }
    }
}

/// Whether a content format is taken for FETCH.
pub open spec fn fetch_format_ok(f: Option<ContentFormat>) -> bool {
    match f {
        Some(f) => f == ContentFormat::YangIdentifiersCbor || f == ContentFormat::YangDataCbor,
        None => true,
    }
}

/// Whether a content format is taken for iPATCH.
pub open spec fn ipatch_format_ok(f: Option<ContentFormat>) -> bool {
    match f {
        Some(f) => f == ContentFormat::YangInstancesCborSeq || f == ContentFormat::YangDataCbor,
        None => true,
    }
}

/// Whether a content format is taken for POST.
pub open spec fn post_format_ok(f: Option<ContentFormat>) -> bool {
    match f {
        Some(f) => f == ContentFormat::YangInstancesCborSeq,
        None => true,
    }
}

/// What a GET response holds over the datastore.
pub open spec fn get_response_ok(cat: SidFile, data: SpecVal, r: Response) -> bool {
    match spec_to_wire_top(cat, data) {
        Ok(w) => r.code == ResponseCode::Content && r.payload@ == cbor_enc(w) && r.content_format
            == Some(ContentFormat::YangDataCbor),
        Err(_) => r.code == ResponseCode::InternalServerError,
    }
}

/// What a FETCH response holds: an unsupported format is refused even
/// when the payload would parse; an empty payload acts as GET; and the
/// result carries exactly the known SIDs that have values.
pub open spec fn fetch_response_ok(cat: SidFile, data: SpecVal, req: Request, r: Response) -> bool {
    if !fetch_format_ok(req.content_format) {
        r.code == ResponseCode::UnsupportedContentFormat
    } else if req.payload@.len() == 0 {
        get_response_ok(cat, data, r)
    } else {
        match spec_fetch_sids(req.payload@) {
            Err(_) => r.code == ResponseCode::BadRequest,
            Ok(sids) => r.code == ResponseCode::Content && r.payload@ == spec_enc_instances(
                spec_fetch_result(cat, data, sids, 0),
                0,
            ) && r.content_format == Some(ContentFormat::YangInstancesCborSeq),
        }
    }
}

/// What an iPATCH response and the new datastore hold.
pub open spec fn ipatch_response_ok(
    cat: SidFile,
    data: SpecVal,
    req: Request,
    r: Response,
    data2: SpecVal,
) -> bool {
    if !ipatch_format_ok(req.content_format) {
        r.code == ResponseCode::UnsupportedContentFormat && data2 == data
    } else {
        match spec_dec_instances(req.payload@) {
            Err(_) => r.code == ResponseCode::BadRequest && data2 == data,
            Ok(xs) => {
                let applied = spec_apply_insts(cat, data, xs, 0);
                &&& data2 == applied.0
                &&& (if applied.1 {
                    r.code == ResponseCode::Changed && r.payload@ == Seq::<u8>::empty()
                } else {
                    r.code == ResponseCode::Conflict
                })
            },
        }
    }
}

/// What a POST response holds: every named SID must be known, and the
/// reply acknowledges each input with a null output.
pub open spec fn post_response_ok(cat: SidFile, req: Request, r: Response) -> bool {
    if !post_format_ok(req.content_format) {
        r.code == ResponseCode::UnsupportedContentFormat
    } else {
        match spec_dec_instances(req.payload@) {
            Err(_) => r.code == ResponseCode::BadRequest,
            Ok(xs) => match spec_post_results(cat, xs, 0) {
                Err(_) => r.code == ResponseCode::NotFound,
                Ok(rs) => r.code == ResponseCode::Changed && r.payload@ == spec_enc_instances(
                    rs,
                    0,
                ) && r.content_format == Some(ContentFormat::YangInstancesCborSeq),
            },
        }
    }
}

/// The request handler; the datastore is its only state.
#[derive(Debug)]
pub struct RequestHandler {
    datastore: Datastore,
}

impl RequestHandler {
    pub closed spec fn spec_datastore(self) -> Datastore {
        self.datastore
    }

    /// A handler over the given datastore.
    pub fn new(datastore: Datastore) -> (r: Self)
        ensures
            r.spec_datastore() == datastore,
    {
        Self { datastore }
    }

    /// The datastore the handler works on.
    pub fn datastore(&self) -> (r: &Datastore)
        ensures
            *r == self.spec_datastore(),
    {
        &self.datastore
    }

    /// Handles one request: GET and FETCH read, iPATCH writes, POST
    /// acknowledges; the datastore is otherwise untouched.
    pub fn handle(&mut self, request: &Request) -> (r: Response)
        ensures
            final(self).spec_datastore().spec_model() == old(self).spec_datastore().spec_model(),
            match request.method {
                Method::Get => get_response_ok(
                    old(self).spec_datastore().spec_model().sid_file,
                    old(self).spec_datastore().spec_data(),
                    r,
                ) && final(self).spec_datastore().spec_data() == old(
                    self,
                ).spec_datastore().spec_data(),
                Method::Fetch => fetch_response_ok(
                    old(self).spec_datastore().spec_model().sid_file,
                    old(self).spec_datastore().spec_data(),
                    *request,
                    r,
                ) && final(self).spec_datastore().spec_data() == old(
                    self,
                ).spec_datastore().spec_data(),
                Method::IPatch => ipatch_response_ok(
                    old(self).spec_datastore().spec_model().sid_file,
                    old(self).spec_datastore().spec_data(),
                    *request,
                    r,
                    final(self).spec_datastore().spec_data(),
                ),
                Method::Post => post_response_ok(
                    old(self).spec_datastore().spec_model().sid_file,
                    *request,
                    r,
                ) && final(self).spec_datastore().spec_data() == old(
                    self,
                ).spec_datastore().spec_data(),
            },
    {
        match request.method {
            Method::Get => self.handle_get(request),
            Method::Fetch => self.handle_fetch(request),
            Method::IPatch => self.handle_ipatch(request),
            Method::Post => self.handle_post(request),
        }
    }

    fn handle_get(&self, _request: &Request) -> (r: Response)
        ensures
            get_response_ok(
                self.spec_datastore().spec_model().sid_file,
                self.spec_datastore().spec_data(),
                r,
            ),
    {
        match self.datastore.get_all_cbor() {
            Ok(cbor) => Response::content(cbor, ContentFormat::YangDataCbor),
            Err(e) => {
                let msg = e.describe();
                Response::error(ResponseCode::InternalServerError, msg.as_str())
            },
        }
    }

    fn handle_fetch(&self, request: &Request) -> (r: Response)
        ensures
            fetch_response_ok(
                self.spec_datastore().spec_model().sid_file,
                self.spec_datastore().spec_data(),
                *request,
                r,
            ),
    {
        match request.content_format {
            Some(format) => {
                if format != ContentFormat::YangIdentifiersCbor && format
                    != ContentFormat::YangDataCbor {
                    return Response::error(
                        ResponseCode::UnsupportedContentFormat,
                        "expected yang-identifiers+cbor",
                    );
                }
            },
            None => {},
        }
        if request.payload.len() == 0 {
            return self.handle_get(request);
        }
        let sids = match fetch_sids_at(request.payload.as_slice(), 0) {
            Ok(sids) => {
                proof {
                    assert(request.payload@.skip(0) =~= request.payload@);
                }
                sids
            },
            Err(e) => {
                proof {
                    assert(request.payload@.skip(0) =~= request.payload@);
                }
                let msg = e.describe();
                return Response::error(ResponseCode::BadRequest, msg.as_str());
            },
        };
        let ghost cat = self.spec_datastore().spec_model().sid_file;
        let ghost data = self.spec_datastore().spec_data();
        let mut instances: Vec<Instance> = Vec::new();
        let mut i: usize = 0;
        #[verifier::loop_isolation(false)]
        while i < sids.len()
            invariant
                i <= sids@.len(),
                spec_fetch_result(cat, data, sids@, 0) =~= crate::instance_id::view_insts(
                    instances@,
                ) + spec_fetch_result(cat, data, sids@, i as int),
            decreases sids@.len() - i,
        {
            let ghost pre = crate::instance_id::view_insts(instances@);
            let sid = sids[i];
            match self.datastore.get_by_sid(sid) {
                Ok(found) => {
                    match found {
                        Some(value) => {
                            let mut path = InstancePath::new();
                            path.push_delta(sid);
                            let inst = Instance::new(path, value);
                            instances.push(inst);
                            proof {
                                assert(crate::instance_id::view_insts(instances@) =~= pre.push(
                                    (sid, Some(value@)),
                                ));
                            }
                        },
                        None => {},
                    }
                },
                Err(_) => {},
            }
            proof {
                assert(spec_fetch_result(cat, data, sids@, 0)
                    =~= crate::instance_id::view_insts(instances@) + spec_fetch_result(
                    cat,
                    data,
                    sids@,
                    i + 1,
                ));
            }
            i = i + 1;
        }
        proof {
            assert(spec_fetch_result(cat, data, sids@, sids@.len() as int) =~= Seq::<
                (i64, Option<SpecVal>),
            >::empty());
            assert(crate::instance_id::view_insts(instances@) =~= spec_fetch_result(
                cat,
                data,
                sids@,
                0,
            ));
        }
        match encode_instances(&instances) {
            Ok(cbor) => Response::content(cbor, ContentFormat::YangInstancesCborSeq),
            Err(e) => {
                let msg = e.describe();
                Response::error(ResponseCode::InternalServerError, msg.as_str())
            },
        }
    }

    fn handle_ipatch(&mut self, request: &Request) -> (r: Response)
        ensures
            final(self).spec_datastore().spec_model() == old(self).spec_datastore().spec_model(),
            ipatch_response_ok(
                old(self).spec_datastore().spec_model().sid_file,
                old(self).spec_datastore().spec_data(),
                *request,
                r,
                final(self).spec_datastore().spec_data(),
            ),
    {
        match request.content_format {
            Some(format) => {
                if format != ContentFormat::YangInstancesCborSeq && format
                    != ContentFormat::YangDataCbor {
                    return Response::error(
                        ResponseCode::UnsupportedContentFormat,
                        "expected yang-instances+cbor-seq",
                    );
                }
            },
            None => {},
        }
        let instances = match decode_instances(request.payload.as_slice()) {
            Ok(instances) => instances,
            Err(e) => {
                let msg = e.describe();
                return Response::error(ResponseCode::BadRequest, msg.as_str());
            },
        };
        let ghost cat = old(self).spec_datastore().spec_model().sid_file;
        let ghost data0 = old(self).spec_datastore().spec_data();
        let ghost xs = crate::instance_id::view_insts(instances@);
        let mut i: usize = 0;
        #[verifier::loop_isolation(false)]
        while i < instances.len()
            invariant
                i <= instances@.len(),
                self.spec_datastore().spec_model() == old(self).spec_datastore().spec_model(),
                spec_apply_insts(cat, data0, xs, 0) == spec_apply_insts(
                    cat,
                    self.spec_datastore().spec_data(),
                    xs,
                    i as int,
                ),
            decreases instances@.len() - i,
        {
            let sid = match instances[i].path.absolute_sid() {
                Some(sid) => sid,
                None => {
                    proof {
                        assert(instances@[i as int].path.spec_absolute() == Some(
                            instances@[i as int].spec_sid(),
                        ));
                        assert(false);
                    }
                    0
                },
            };
            proof {
                assert(xs[i as int] == (instances@[i as int].spec_sid(),
                    instances@[i as int].spec_value()));
            }
            let outcome: Result<(), CoreconfError> = match &instances[i].value {
                Some(value) => self.datastore.set_by_sid(sid, value.dup()),
                None => match self.datastore.delete_by_sid(sid) {
                    Ok(_) => Ok(()),
                    Err(e) => Err(e),
                },
            };
            match outcome {
                Ok(_) => {},
                Err(e) => {
                    let msg = e.describe();
                    return Response::error(ResponseCode::Conflict, msg.as_str());
                },
            }
            i = i + 1;
        }
        Response::changed()
    }

    fn handle_post(&self, request: &Request) -> (r: Response)
        ensures
            post_response_ok(self.spec_datastore().spec_model().sid_file, *request, r),
    {
        match request.content_format {
            Some(format) => {
                if format != ContentFormat::YangInstancesCborSeq {
                    return Response::error(
                        ResponseCode::UnsupportedContentFormat,
                        "expected yang-instances+cbor-seq",
                    );
                }
            },
            None => {},
        }
        let instances = match decode_instances(request.payload.as_slice()) {
            Ok(instances) => instances,
            Err(e) => {
                let msg = e.describe();
                return Response::error(ResponseCode::BadRequest, msg.as_str());
            },
        };
        let ghost cat = self.spec_datastore().spec_model().sid_file;
        let ghost xs = crate::instance_id::view_insts(instances@);
        let mut results: Vec<Instance> = Vec::new();
        let mut i: usize = 0;
        #[verifier::loop_isolation(false)]
        while i < instances.len()
            invariant
                i <= instances@.len(),
                forall|j: int|
                    0 <= j < i ==> cat.spec_get_identifier((#[trigger] xs[j]).0) is Some,
                crate::instance_id::view_insts(results@) =~= post_acks(xs, i as int),
            decreases instances@.len() - i,
        {
            let ghost pre = crate::instance_id::view_insts(results@);
            let sid = match instances[i].path.absolute_sid() {
                Some(sid) => sid,
                None => {
                    proof {
                        assert(instances@[i as int].path.spec_absolute() == Some(
                            instances@[i as int].spec_sid(),
                        ));
                        assert(false);
                    }
                    0
                },
            };
            proof {
                assert(xs[i as int] == (instances@[i as int].spec_sid(),
                    instances@[i as int].spec_value()));
            }
            match self.datastore.model().sid_file.get_identifier(sid) {
                Some(_) => {
                    let mut result_path = InstancePath::new();
                    result_path.push_delta(sid);
                    let inst = Instance::delete(result_path);
                    results.push(inst);
                    proof {
                        assert(crate::instance_id::view_insts(results@) =~= pre.push(
                            (sid, None::<SpecVal>),
                        ));
                        assert(crate::instance_id::view_insts(results@) =~= post_acks(xs, i + 1));
                    }
                },
                None => {
                    proof {
                        lemma_post_prefix(cat, xs, i as int);
                        assert(spec_post_results(cat, xs, i as int) == Err::<
                            Seq<(i64, Option<SpecVal>)>,
                            _,
                        >(xs[i as int].0));
                    }
                    let num = crate::strutil::i64_to_string(sid);
                    let msg = crate::strutil::str_concat("RPC SID ", num.as_str());
                    return Response::not_found(msg.as_str());
                },
            }
            i = i + 1;
        }
        proof {
            lemma_post_prefix(cat, xs, instances@.len() as int);
            assert(spec_post_results(cat, xs, instances@.len() as int) == Ok::<_, i64>(Seq::<
                (i64, Option<SpecVal>),
            >::empty()));
            assert(post_acks(xs, instances@.len() as int) + Seq::<(i64, Option<SpecVal>)>::empty()
                =~= post_acks(xs, instances@.len() as int));
            assert(crate::instance_id::view_insts(results@) =~= spec_post_results(
                cat,
                xs,
                0,
            )->Ok_0);
        }
        match encode_instances(&results) {
            Ok(cbor) => Response {
                code: ResponseCode::Changed,
                payload: cbor,
                content_format: Some(ContentFormat::YangInstancesCborSeq),
            },
            Err(e) => {
                let msg = e.describe();
                Response::error(ResponseCode::InternalServerError, msg.as_str())
            },
        }
    }
}

/// A pluggable RPC implementation keyed by SID: a host may register
/// one so that POST does more than acknowledge. The core itself only
/// falls back to the null acknowledgement.
pub trait RpcHandler {
    /// Handles one RPC invocation with its optional input.
    fn handle(&self, input: Option<&Val>) -> Result<Option<Val>, CoreconfError>;
}

/// Reads the SIDs of a FETCH payload from position `pos` on.
fn fetch_sids_at(b: &[u8], pos: usize) -> (r: Result<Vec<i64>, CoreconfError>)
    requires
        pos <= b@.len(),
    ensures
        match r {
            Ok(sids) => spec_fetch_sids(b@.skip(pos as int)) == Ok::<_, SpecErr>(sids@),
            Err(e) => spec_fetch_sids(b@.skip(pos as int)) matches Err(se) && err_matches(e, se),
        },
    decreases b@.len() - pos,
{
    if pos >= b.len() {
        let sids: Vec<i64> = Vec::new();
        proof {
            assert(sids@ =~= Seq::<i64>::empty());
        }
        return Ok(sids);
    }
    let (v, end) = match cbor_decode_at(b, pos) {
        Ok(x) => x,
        Err(e) => {
            return Err(e);
        },
    };
    let ghost here_spec: Seq<i64> = match v@ {
        SpecVal::Int(n) => if i64::MIN <= n <= i64::MAX {
            seq![n as i64]
        } else {
            Seq::empty()
        },
        SpecVal::Arr(items) => if items.len() > 0 {
            match items[0] {
                SpecVal::Int(n) => if i64::MIN <= n <= i64::MAX {
                    seq![n as i64]
                } else {
                    Seq::empty()
                },
                _ => Seq::empty(),
            }
        } else {
            Seq::empty()
        },
        _ => Seq::empty(),
    };
    let here: Option<i64> = match &v {
        Val::Int(n) => {
            proof {
                assert(here_spec =~= seq![*n]);
            }
            Some(*n)
        },
        Val::UInt(n) => {
            if *n <= 0x7fffffffffffffffu64 {
                proof {
                    assert(here_spec =~= seq![(*n) as i64]);
                }
                Some(*n as i64)
            } else {
                proof {
                    assert(here_spec =~= Seq::<i64>::empty());
                }
                None
            }
        },
        Val::Arr(items) => {
            if items.len() > 0 {
                proof {
                    assert(v@->Arr_0[0] == items@[0]@);
                }
                match &items[0] {
                    Val::Int(n) => {
                        proof {
                            assert(here_spec =~= seq![*n]);
                        }
                        Some(*n)
                    },
                    Val::UInt(n) => {
                        if *n <= 0x7fffffffffffffffu64 {
                            proof {
                                assert(here_spec =~= seq![(*n) as i64]);
                            }
                            Some(*n as i64)
                        } else {
                            proof {
                                assert(here_spec =~= Seq::<i64>::empty());
                            }
                            None
                        }
                    },
                    _ => {
                        proof {
                            assert(here_spec =~= Seq::<i64>::empty());
                        }
                        None
                    },
                }
            } else {
                proof {
                    assert(here_spec =~= Seq::<i64>::empty());
                }
                None
            }
        },
        _ => {
            proof {
                assert(here_spec =~= Seq::<i64>::empty());
            }
            None
        },
    };
    let ghost here_ok: bool = match here {
        Some(sid) => here_spec == seq![sid],
        None => here_spec == Seq::<i64>::empty(),
    };
    proof {
        assert(here_ok);
    }
    let ghost tail = b@.skip(pos as int);
    proof {
        assert(tail.skip(end - pos as int) =~= b@.skip(end as int));
    }
    match fetch_sids_at(b, end) {
        Ok(mut rest) => {
            match here {
                Some(sid) => {
                    rest.insert(0, sid);
                    proof {
                        assert(rest@ =~= seq![sid] + spec_fetch_sids(b@.skip(end as int))->Ok_0);
                        assert(rest@ =~= here_spec + spec_fetch_sids(b@.skip(end as int))->Ok_0);
                    }
                    Ok(rest)
                },
                None => {
                    proof {
                        assert(rest@ =~= here_spec + spec_fetch_sids(b@.skip(end as int))->Ok_0);
                    }
                    Ok(rest)
                },
            }
        },
        Err(e) => Err(e),
    }
}

} // verus!
