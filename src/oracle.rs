//! The request registry and the commitment ledger, held in one state object.

use vstd::prelude::*;
use crate::assoc::{
    all_keys_unique, find, insert_entry, keys_unique, lemma_map_of_compose, lemma_map_of_empty,
    lemma_map_of_index, lemma_map_of_len, lemma_map_of_push, lemma_map_of_same,
    lemma_map_of_update, map_of, map_of_with, replace_at,
};
use crate::json::{
    fields_map, json_text_of_nested, json_text_of_objects, nested_map, nested_to_json,
    objects_map, objects_to_json, objects_wf,
};
use crate::types::{CommitModel, CommitReveal, OracleRequest, RequestModel};

verus! {

/// The most requests the registry holds at once.
pub const MAX_REQUESTS: usize = 10;

/// The most oracles that may commit to one request.
pub const MAX_COMMITMENTS: usize = 3;

/// An oracle's deposit must be strictly above this many minimal units.
pub const MIN_STAKE: u128 = 19_000_000;

/// Why a call was refused; a refused call changes nothing.
#[derive(Debug, Clone, Copy, PartialEq, Eq, Structural)]
pub enum OracleError {
    /// The registry, or a request's commitment set, is full.
    CapacityExceeded,
    /// The request id is already registered.
    DuplicateKey,
    /// The attached deposit is not above the minimum stake.
    InsufficientStake,
    /// The oracle already holds a slot for the request.
    AlreadyCommitted,
    /// No commitments exist for the request id.
    NoCommitments,
    /// The oracle is not on the request's committal list.
    NotCommitted,
}

/// The registry of requests and, per request id, the oracles' commitments.
pub struct OracleRequests {
    reqs: Vec<(String, OracleRequest)>,
    commitments_responses: Vec<(String, Vec<(String, CommitReveal)>)>,
}

/// The oracle-to-commitment map that a list of slots stands for.
pub open spec fn slots_view(v: Vec<(String, CommitReveal)>) -> Map<Seq<char>, CommitModel> {
    map_of(v@)
}

/// The registry after registering `id` as `req`, and the call's outcome:
/// refused when the registry is full, then when `id` is already registered.
pub open spec fn request_step(
    reqs: Map<Seq<char>, RequestModel>,
    id: Seq<char>,
    req: RequestModel,
) -> (Map<Seq<char>, RequestModel>, Result<(), OracleError>) {
    if reqs.len() >= MAX_REQUESTS {
        (reqs, Err(OracleError::CapacityExceeded))
    } else if reqs.contains_key(id) {
        (reqs, Err(OracleError::DuplicateKey))
    } else {
        (reqs.insert(id, req), Ok(()))
    }
}

/// The ledger after `signer` stakes `deposit` into `id`, and the call's
/// outcome: refused when the deposit is not above `MIN_STAKE`, then when
/// `signer` already holds a slot, then when the set is full; a request with
/// no set gets one holding only `signer`'s empty slot.
pub open spec fn commit_step(
    ledger: Map<Seq<char>, Map<Seq<char>, CommitModel>>,
    id: Seq<char>,
    signer: Seq<char>,
    deposit: u128,
) -> (Map<Seq<char>, Map<Seq<char>, CommitModel>>, Result<(), OracleError>) {
    if deposit <= MIN_STAKE {
        (ledger, Err(OracleError::InsufficientStake))
    } else if ledger.contains_key(id) {
        let set = ledger[id];
        if set.contains_key(signer) {
            (ledger, Err(OracleError::AlreadyCommitted))
        } else if set.len() >= MAX_COMMITMENTS {
            (ledger, Err(OracleError::CapacityExceeded))
        } else {
            (ledger.insert(id, set.insert(signer, CommitModel::empty())), Ok(()))
        }
    } else {
        (ledger.insert(id, map![signer => CommitModel::empty()]), Ok(()))
    }
}

/// The ledger after `signer` answers `id`, and the call's outcome: refused
/// when `id` has no set, then when `signer` holds no slot in it; otherwise the
/// slot is left empty.
pub open spec fn answer_step(
    ledger: Map<Seq<char>, Map<Seq<char>, CommitModel>>,
    id: Seq<char>,
    signer: Seq<char>,
) -> (Map<Seq<char>, Map<Seq<char>, CommitModel>>, Result<(), OracleError>) {
    if !ledger.contains_key(id) {
        (ledger, Err(OracleError::NoCommitments))
    } else if !ledger[id].contains_key(signer) {
        (ledger, Err(OracleError::NotCommitted))
    } else {
        (ledger.insert(id, ledger[id].insert(signer, CommitModel::empty())), Ok(()))
    }
}

/// A commitment set as JSON objects: oracle to the commitment's fields.
pub open spec fn commit_objects(set: Map<Seq<char>, CommitModel>) -> Map<
    Seq<char>,
    Map<Seq<char>, Seq<char>>,
> {
    set.map_values(|c: CommitModel| c.fields())
}

impl OracleRequests {
    /// Request id to request.
    pub closed spec fn requests(&self) -> Map<Seq<char>, RequestModel> {
        map_of(self.reqs@)
    }

    /// Request id to its commitment set, itself oracle to commitment.
    pub closed spec fn commitments(&self) -> Map<Seq<char>, Map<Seq<char>, CommitModel>> {
        map_of_with(self.commitments_responses@, |v: Vec<(String, CommitReveal)>| slots_view(v))
    }

    /// The registry's JSON text: request id to the request's fields.
    pub open spec fn requests_json(&self) -> Seq<char> {
        json_text_of_objects(self.requests().map_values(|m: RequestModel| m.fields()))
    }

    /// The ledger's JSON text: request id to oracle to the commitment's fields.
    pub open spec fn commitments_json(&self) -> Seq<char> {
        json_text_of_nested(
            self.commitments().map_values(|set: Map<Seq<char>, CommitModel>| commit_objects(set)),
        )
    }

    /// Keys are unique at every level, the registry holds at most
    /// `MAX_REQUESTS` requests and each set at most `MAX_COMMITMENTS` slots.
    pub closed spec fn wf(&self) -> bool {
        &&& keys_unique(self.reqs@)
        &&& self.reqs@.len() <= MAX_REQUESTS
        &&& keys_unique(self.commitments_responses@)
        &&& forall|i: int|
            0 <= i < self.commitments_responses@.len() ==> {
                &&& keys_unique((#[trigger] self.commitments_responses@[i]).1@)
                &&& self.commitments_responses@[i].1@.len() <= MAX_COMMITMENTS
            }
    }

    /// The well-formedness facts that callers can rely on.
    pub proof fn lemma_wf_bounds(&self)
        requires
            self.wf(),
        ensures
            self.requests().dom().finite(),
            self.requests().len() <= MAX_REQUESTS,
            self.commitments().dom().finite(),
            forall|id: Seq<char>| #[trigger] self.commitments().contains_key(id) ==> {
                &&& self.commitments()[id].dom().finite()
                &&& self.commitments()[id].len() <= MAX_COMMITMENTS
            },
    {
        lemma_map_of_len(self.reqs@, |x: OracleRequest| x@);
        let f = |v: Vec<(String, CommitReveal)>| slots_view(v);
        lemma_map_of_len(self.commitments_responses@, f);
        assert forall|id: Seq<char>| #[trigger] self.commitments().contains_key(id) implies {
            &&& self.commitments()[id].dom().finite()
            &&& self.commitments()[id].len() <= MAX_COMMITMENTS
        } by {
            let s = self.commitments_responses@;
            let i = choose|i: int| 0 <= i < s.len() && (#[trigger] s[i]).0@ == id;
            lemma_map_of_index(s, f, i);
            lemma_map_of_len(s[i].1@, |x: CommitReveal| x@);
        }
    }

    /// An empty registry and an empty ledger.
    pub fn new() -> (r: OracleRequests)
        ensures
            r.wf(),
            r.requests() == Map::<Seq<char>, RequestModel>::empty(),
            r.commitments() == Map::<Seq<char>, Map<Seq<char>, CommitModel>>::empty(),
    {
        let r = OracleRequests { reqs: Vec::new(), commitments_responses: Vec::new() };
        proof {
            lemma_map_of_empty(r.reqs@, |x: OracleRequest| x@);
            lemma_map_of_empty(
                r.commitments_responses@,
                |v: Vec<(String, CommitReveal)>| slots_view(v),
            );
        }
        r
    }
    /// Registers `request_id`, recording `signer` (the identity that made
    /// the call) as its caller. Refused when the registry is full, then when
    /// the id is already registered.
    pub fn add_request(
        &mut self,
        request_id: String,
        request_spec: String,
        token_address: String,
        signer: String,
    ) -> (r: Result<(), OracleError>)
        requires
            old(self).wf(),
        ensures
            final(self).wf(),
            final(self).commitments() == old(self).commitments(),
            (final(self).requests(), r) == request_step(
                old(self).requests(),
                request_id@,
                (RequestModel {
                    caller: signer@,
                    request_spec: request_spec@,
                    token_address: token_address@,
                }),
            ),
    {
        proof {
            lemma_map_of_len(self.reqs@, |x: OracleRequest| x@);
        }
        if self.reqs.len() >= MAX_REQUESTS {
            return Err(OracleError::CapacityExceeded);
        }
        if find(&self.reqs, &request_id).is_some() {
            return Err(OracleError::DuplicateKey);
        }
        let oracle_req = OracleRequest { caller: signer, request_spec, token_address };
        insert_entry(&mut self.reqs, request_id, oracle_req);
        Ok(())
    }

    /// Stakes `signer` into `request_id` with an empty commitment slot,
    /// opening the request's commitment set if it has none; the registry is
    /// not consulted. Refused when `deposit` is not above `MIN_STAKE`, then
    /// when `signer` already holds a slot, then when the set is full.
    pub fn add_commitment(&mut self, request_id: String, signer: String, deposit: u128) -> (r:
        Result<(), OracleError>)
        requires
            old(self).wf(),
        ensures
            final(self).wf(),
            final(self).requests() == old(self).requests(),
            (final(self).commitments(), r) == commit_step(
                old(self).commitments(),
                request_id@,
                signer@,
                deposit,
            ),
    {
        if deposit <= MIN_STAKE {
            return Err(OracleError::InsufficientStake);
        }
        let ghost f = |v: Vec<(String, CommitReveal)>| slots_view(v);
        let ghost g = |x: CommitReveal| x@;
        let ghost before = self.commitments_responses@;
        match find(&self.commitments_responses, &request_id) {
            Some(i) => {
                proof {
                    lemma_map_of_index(before, f, i as int);
                    lemma_map_of_len(before[i as int].1@, g);
                }
                if find(&self.commitments_responses[i].1, &signer).is_some() {
                    return Err(OracleError::AlreadyCommitted);
                }
                if self.commitments_responses[i].1.len() >= MAX_COMMITMENTS {
                    return Err(OracleError::CapacityExceeded);
                }
                let mut set = replace_at(&mut self.commitments_responses, i, Vec::new());
                insert_entry(&mut set, signer, CommitReveal::new());
                let ghost new_set = set;
                replace_at(&mut self.commitments_responses, i, set);
                proof {
                    let e = (before[i as int].0, new_set);
                    assert(self.commitments_responses@ == before.update(i as int, e));
                    lemma_map_of_update(before, f, i as int, e);
                    assert forall|j: int| 0 <= j < self.commitments_responses@.len() implies {
                        &&& keys_unique((#[trigger] self.commitments_responses@[j]).1@)
                        &&& self.commitments_responses@[j].1@.len() <= MAX_COMMITMENTS
                    } by {
                        if j != i {
                            assert(self.commitments_responses@[j] == before[j]);
                        }
                    }
                }
            },
            None => {
                let mut set: Vec<(String, CommitReveal)> = Vec::new();
                let slot = (signer, CommitReveal::new());
                proof {
                    lemma_map_of_empty(set@, g);
                    lemma_map_of_push(set@, g, slot);
                    assert(set@.push(slot)[0] == slot);
                }
                set.push(slot);
                let e = (request_id, set);
                proof {
                    lemma_map_of_push(before, f, e);
                    assert forall|j: int| 0 <= j < before.push(e).len() implies {
                        &&& keys_unique((#[trigger] before.push(e)[j]).1@)
                        &&& before.push(e)[j].1@.len() <= MAX_COMMITMENTS
                    } by {
                        if j < before.len() {
                            assert(before.push(e)[j] == before[j]);
                        }
                    }
                }
                self.commitments_responses.push(e);
            },
        }
        Ok(())
    }
    /// Writes `commit` and `reveal_type` into `signer`'s slot for
    /// `request_id` and then, within the same call, puts a fresh empty slot in
    /// its place: once the call returns the slot is empty whatever was sent.
    /// Refused when the request has no commitment set, then when `signer`
    /// holds no slot in it.
    pub fn add_answer_as_commit(
        &mut self,
        request_id: String,
        commit: String,
        reveal_type: String,
        signer: String,
    ) -> (r: Result<(), OracleError>)
        requires
            old(self).wf(),
        ensures
            final(self).wf(),
            final(self).requests() == old(self).requests(),
            (final(self).commitments(), r) == answer_step(
                old(self).commitments(),
                request_id@,
                signer@,
            ),
    {
        let ghost f = |v: Vec<(String, CommitReveal)>| slots_view(v);
        let ghost g = |x: CommitReveal| x@;
        let ghost before = self.commitments_responses@;
        let i = match find(&self.commitments_responses, &request_id) {
            Some(i) => i,
            None => {
                return Err(OracleError::NoCommitments);
            },
        };
        proof {
            lemma_map_of_index(before, f, i as int);
        }
        let j = match find(&self.commitments_responses[i].1, &signer) {
            Some(j) => j,
            None => {
                return Err(OracleError::NotCommitted);
            },
        };
        let mut set = replace_at(&mut self.commitments_responses, i, Vec::new());
        let ghost set0 = set@;
        let mut slot = replace_at(&mut set, j, CommitReveal::new());
        slot.commit_shrouded = commit;
        slot.reveal_type = reveal_type;
        let ghost set1 = set@;
        replace_at(&mut set, j, slot);
        proof {
            lemma_map_of_update(set0, g, j as int, set1[j as int]);
            lemma_map_of_update(set1, g, j as int, set@[j as int]);
            assert(map_of(set@) =~= map_of(set0).insert(signer@, slot@));
        }
        insert_entry(&mut set, signer, CommitReveal::new());
        let ghost new_set = set;
        replace_at(&mut self.commitments_responses, i, set);
        proof {
            let e = (before[i as int].0, new_set);
            assert(self.commitments_responses@ == before.update(i as int, e));
            lemma_map_of_update(before, f, i as int, e);
            assert(slots_view(new_set) =~= slots_view(before[i as int].1).insert(
                signer@,
                CommitModel::empty(),
            ));
            assert forall|k: int| 0 <= k < self.commitments_responses@.len() implies {
                &&& keys_unique((#[trigger] self.commitments_responses@[k]).1@)
                &&& self.commitments_responses@[k].1@.len() <= MAX_COMMITMENTS
            } by {
                if k != i {
                    assert(self.commitments_responses@[k] == before[k]);
                }
            }
        }
        Ok(())
    }

    /// Empties the registry; the ledger is untouched.
    pub fn clear_all_requests(&mut self)
        requires
            old(self).wf(),
        ensures
            final(self).wf(),
            final(self).requests() == Map::<Seq<char>, RequestModel>::empty(),
            final(self).requests().len() == 0,
            final(self).commitments() == old(self).commitments(),
    {
        self.reqs.clear();
        proof {
            lemma_map_of_empty(self.reqs@, |x: OracleRequest| x@);
        }
    }

    /// Empties the ledger, every request's commitment set at once; the
    /// registry is untouched.
    pub fn clear_all_commitments(&mut self)
        requires
            old(self).wf(),
        ensures
            final(self).wf(),
            final(self).requests() == old(self).requests(),
            final(self).commitments() == Map::<Seq<char>, Map<Seq<char>, CommitModel>>::empty(),
    {
        self.commitments_responses.clear();
        proof {
            lemma_map_of_empty(
                self.commitments_responses@,
                |v: Vec<(String, CommitReveal)>| slots_view(v),
            );
        }
    }
    /// The registry as JSON text: an object from request id to the request's
    /// fields; `{}` when it is empty.
    pub fn get_all_requests(&self) -> (r: String)
        requires
            self.wf(),
        ensures
            r@ == self.requests_json(),
            self.requests().len() == 0 ==> r@ == "{}"@,
    {
        let mut out: Vec<(String, Vec<(String, String)>)> = Vec::new();
        let mut i: usize = 0;
        while i < self.reqs.len()
            invariant
                self.wf(),
                i <= self.reqs@.len(),
                out@.len() == i,
                forall|j: int|
                    0 <= j < i ==> {
                        &&& (#[trigger] out@[j]).0@ == self.reqs@[j].0@
                        &&& keys_unique(out@[j].1@)
                        &&& fields_map(out@[j].1) == self.reqs@[j].1@.fields()
                    },
            decreases self.reqs@.len() - i,
        {
            let e = (self.reqs[i].0.clone(), self.reqs[i].1.to_fields());
            out.push(e);
            i = i + 1;
        }
        proof {
            lemma_map_of_same(
                self.reqs@,
                |x: OracleRequest| x@.fields(),
                out@,
                |v: Vec<(String, String)>| fields_map(v),
            );
            lemma_map_of_compose(self.reqs@, |x: OracleRequest| x@, |m: RequestModel| m.fields());
            assert(self.requests().map_values(|m: RequestModel| m.fields()) =~= objects_map(out@));
            lemma_map_of_len(self.reqs@, |x: OracleRequest| x@);
        }
        match objects_to_json(&out) {
            Ok(text) => text,
            Err(_) => String::new(),
        }
    }
    /// The commitment set of `request_id` as JSON text: an object from oracle
    /// to the commitment's fields. Refused when the request has no set.
    pub fn get_commitments_by_request_id(&self, request_id: String) -> (r: Result<
        String,
        OracleError,
    >)
        requires
            self.wf(),
        ensures
            !self.commitments().contains_key(request_id@) ==> r == Err::<String, OracleError>(
                OracleError::NoCommitments,
            ),
            self.commitments().contains_key(request_id@) ==> r is Ok && r->Ok_0@
                == json_text_of_objects(
                commit_objects(self.commitments()[request_id@]),
            ),
    {
        match find(&self.commitments_responses, &request_id) {
            Some(i) => {
                proof {
                    lemma_map_of_index(
                        self.commitments_responses@,
                        |v: Vec<(String, CommitReveal)>| slots_view(v),
                        i as int,
                    );
                }
                let out = slots_to_objects(&self.commitments_responses[i].1);
                match objects_to_json(&out) {
                    Ok(text) => Ok(text),
                    Err(_) => Ok(String::new()),
                }
            },
            None => Err(OracleError::NoCommitments),
        }
    }

    /// The whole ledger as JSON text: an object from request id to an object
    /// from oracle to the commitment's fields; `{}` when it is empty.
    pub fn get_all_commitments(&self) -> (r: String)
        requires
            self.wf(),
        ensures
            r@ == self.commitments_json(),
            self.commitments().len() == 0 ==> r@ == "{}"@,
    {
        let ghost f = |v: Vec<(String, CommitReveal)>| slots_view(v);
        let ghost h = |set: Map<Seq<char>, CommitModel>| commit_objects(set);
        let mut out: Vec<(String, Vec<(String, Vec<(String, String)>)>)> = Vec::new();
        let mut i: usize = 0;
        while i < self.commitments_responses.len()
            invariant
                self.wf(),
                i <= self.commitments_responses@.len(),
                out@.len() == i,
                forall|j: int|
                    0 <= j < i ==> {
                        &&& (#[trigger] out@[j]).0@ == self.commitments_responses@[j].0@
                        &&& objects_wf(out@[j].1@)
                        &&& objects_map(out@[j].1@) == commit_objects(
                            slots_view(self.commitments_responses@[j].1),
                        )
                    },
            decreases self.commitments_responses@.len() - i,
        {
            let e = (
                self.commitments_responses[i].0.clone(),
                slots_to_objects(&self.commitments_responses[i].1),
            );
            out.push(e);
            i = i + 1;
        }
        proof {
            let g = |v: Vec<(String, Vec<(String, String)>)>| objects_map(v@);
            lemma_map_of_same(
                self.commitments_responses@,
                |v: Vec<(String, CommitReveal)>| h(slots_view(v)),
                out@,
                g,
            );
            lemma_map_of_compose(self.commitments_responses@, f, h);
            assert(self.commitments().map_values(h) =~= nested_map(out@));
            lemma_map_of_len(self.commitments_responses@, f);
        }
        match nested_to_json(&out) {
            Ok(text) => text,
            Err(_) => String::new(),
        }
    }

    /// Hands out the registry's and the ledger's entries: each request id with
    /// its request, and each request id with its (oracle, commitment) slots.
    pub fn into_entries(self) -> (r: (
        Vec<(String, OracleRequest)>,
        Vec<(String, Vec<(String, CommitReveal)>)>,
    ))
        requires
            self.wf(),
        ensures
            keys_unique(r.0@),
            map_of(r.0@) == self.requests(),
            keys_unique(r.1@),
            map_of_with(r.1@, |v: Vec<(String, CommitReveal)>| slots_view(v))
                == self.commitments(),
            forall|i: int| 0 <= i < r.1@.len() ==> keys_unique((#[trigger] r.1@[i]).1@),
    {
        (self.reqs, self.commitments_responses)
    }

    /// Rebuilds a state from entries as `into_entries` hands them out; `None`
    /// when a key repeats at some level, when there are more than
    /// `MAX_REQUESTS` requests, or a set has more than `MAX_COMMITMENTS` slots.
    pub fn from_entries(
        reqs: Vec<(String, OracleRequest)>,
        commitments: Vec<(String, Vec<(String, CommitReveal)>)>,
    ) -> (r: Option<OracleRequests>)
        ensures
            r is Some <==> {
                &&& keys_unique(reqs@)
                &&& reqs@.len() <= MAX_REQUESTS
                &&& keys_unique(commitments@)
                &&& forall|i: int|
                    0 <= i < commitments@.len() ==> {
                        &&& keys_unique((#[trigger] commitments@[i]).1@)
                        &&& commitments@[i].1@.len() <= MAX_COMMITMENTS
                    }
            },
            r is Some ==> {
                &&& r->Some_0.wf()
                &&& r->Some_0.requests() == map_of(reqs@)
                &&& r->Some_0.commitments() == map_of_with(
                    commitments@,
                    |v: Vec<(String, CommitReveal)>| slots_view(v),
                )
            },
    {
        if reqs.len() > MAX_REQUESTS || !all_keys_unique(&reqs) || !all_keys_unique(&commitments) {
            return None;
        }
        let mut i: usize = 0;
        while i < commitments.len()
            invariant
                i <= commitments@.len(),
                forall|j: int|
                    0 <= j < i ==> {
                        &&& keys_unique((#[trigger] commitments@[j]).1@)
                        &&& commitments@[j].1@.len() <= MAX_COMMITMENTS
                    },
            decreases commitments@.len() - i,
        {
            if commitments[i].1.len() > MAX_COMMITMENTS || !all_keys_unique(&commitments[i].1) {
                return None;
            }
            i = i + 1;
        }
        Some(OracleRequests { reqs, commitments_responses: commitments })
    }

    /// How many requests are registered.
    pub fn request_count(&self) -> (r: usize)
        requires
            self.wf(),
        ensures
            r == self.requests().len(),
    {
        proof {
            lemma_map_of_len(self.reqs@, |x: OracleRequest| x@);
        }
        self.reqs.len()
    }

    /// Whether `request_id` is registered.
    pub fn has_request(&self, request_id: &String) -> (r: bool)
        ensures
            r == self.requests().contains_key(request_id@),
    {
        find(&self.reqs, request_id).is_some()
    }
}

impl Default for OracleRequests {
    /// An empty registry and an empty ledger, as `new` makes.
    fn default() -> (r: OracleRequests)
        ensures
            r.wf(),
            r.requests() == Map::<Seq<char>, RequestModel>::empty(),
            r.commitments() == Map::<Seq<char>, Map<Seq<char>, CommitModel>>::empty(),
    {
        OracleRequests::new()
    }
}

/// Each slot of a commitment set, with the commitment written as its fields.
fn slots_to_objects(set: &Vec<(String, CommitReveal)>) -> (r: Vec<(String, Vec<(String, String)>)>)
    requires
        keys_unique(set@),
    ensures
        objects_wf(r@),
        objects_map(r@) == commit_objects(slots_view(*set)),
{
    let mut out: Vec<(String, Vec<(String, String)>)> = Vec::new();
    let mut i: usize = 0;
    while i < set.len()
        invariant
            keys_unique(set@),
            i <= set@.len(),
            out@.len() == i,
            forall|j: int|
                0 <= j < i ==> {
                    &&& (#[trigger] out@[j]).0@ == set@[j].0@
                    &&& keys_unique(out@[j].1@)
                    &&& fields_map(out@[j].1) == set@[j].1@.fields()
                },
        decreases set@.len() - i,
    {
        let e = (set[i].0.clone(), set[i].1.to_fields());
        out.push(e);
        i = i + 1;
    }
    proof {
        lemma_map_of_same(
            set@,
            |x: CommitReveal| x@.fields(),
            out@,
            |v: Vec<(String, String)>| fields_map(v),
        );
        lemma_map_of_compose(set@, |x: CommitReveal| x@, |c: CommitModel| c.fields());
        assert(commit_objects(slots_view(*set)) =~= objects_map(out@));
    }
    out
}

} // verus!
