//! Laws of the registry and the ledger, stated over their models.

use vstd::prelude::*;
use crate::oracle::{
    answer_step, commit_step, request_step, OracleError, OracleRequests, MAX_COMMITMENTS,
    MAX_REQUESTS, MIN_STAKE,
};
use crate::types::{CommitModel, RequestModel};

verus! {

/// The registry after registering `ids[i]` as `reqs[i]`, in order, from empty.
pub open spec fn run_requests(ids: Seq<Seq<char>>, reqs: Seq<RequestModel>) -> Map<
    Seq<char>,
    RequestModel,
>
    decreases ids.len(),
{
    if ids.len() == 0 || reqs.len() < ids.len() {
        Map::empty()
    } else {
        request_step(run_requests(ids.drop_last(), reqs), ids.last(), reqs[ids.len() - 1]).0
    }
}

/// No id occurs twice.
pub open spec fn distinct(ids: Seq<Seq<char>>) -> bool {
    forall|i: int, j: int| 0 <= i < j < ids.len() ==> ids[i] != ids[j]
}

/// The smaller of `a` and `b`.
pub open spec fn min(a: int, b: int) -> int {
    if a < b {
        a
    } else {
        b
    }
}

proof fn lemma_run_requests(ids: Seq<Seq<char>>, reqs: Seq<RequestModel>)
    requires
        distinct(ids),
        reqs.len() >= ids.len(),
    ensures
        run_requests(ids, reqs).dom().finite(),
        run_requests(ids, reqs).len() == min(ids.len() as int, MAX_REQUESTS as int),
        forall|k: Seq<char>| #[trigger]
            run_requests(ids, reqs).contains_key(k) ==> exists|i: int|
                0 <= i < ids.len() && ids[i] == k,
    decreases ids.len(),
{
    if ids.len() > 0 {
        let p = ids.drop_last();
        assert(distinct(p));
        lemma_run_requests(p, reqs);
        let m = run_requests(p, reqs);
        let last = ids.last();
        if m.len() < MAX_REQUESTS {
            if m.contains_key(last) {
                let i = choose|i: int| 0 <= i < p.len() && p[i] == last;
                assert(ids[i] == last);
            }
        }
        assert forall|k: Seq<char>| #[trigger]
            run_requests(ids, reqs).contains_key(k) implies exists|i: int|
                0 <= i < ids.len() && ids[i] == k by {
            if k != last {
                let i = choose|i: int| 0 <= i < p.len() && p[i] == k;
                assert(ids[i] == k);
            } else {
                assert(ids[ids.len() - 1] == k);
            }
        }
    }
}

/// Registering distinct ids one after another from an empty registry: the
/// registry holds as many requests as calls succeeded, at most
/// `MAX_REQUESTS`; the calls before it is full succeed and every later one is
/// refused as over capacity.
pub proof fn law_distinct_requests_fill_to_capacity(
    ids: Seq<Seq<char>>,
    reqs: Seq<RequestModel>,
)
    requires
        distinct(ids),
        reqs.len() == ids.len(),
    ensures
        run_requests(ids, reqs).len() == min(ids.len() as int, MAX_REQUESTS as int),
        forall|k: int|
            0 <= k < ids.len() ==> (#[trigger] request_step(
                run_requests(ids.take(k), reqs),
                ids[k],
                reqs[k],
            )).1 == if k < MAX_REQUESTS {
                Ok::<(), OracleError>(())
            } else {
                Err(OracleError::CapacityExceeded)
            },
{
    lemma_run_requests(ids, reqs);
    assert forall|k: int| 0 <= k < ids.len() implies (#[trigger] request_step(
        run_requests(ids.take(k), reqs),
        ids[k],
        reqs[k],
    )).1 == if k < MAX_REQUESTS {
        Ok::<(), OracleError>(())
    } else {
        Err(OracleError::CapacityExceeded)
    } by {
        let p = ids.take(k);
        assert(distinct(p));
        lemma_run_requests(p, reqs);
        let m = run_requests(p, reqs);
        if m.contains_key(ids[k]) {
            let i = choose|i: int| 0 <= i < p.len() && p[i] == ids[k];
            assert(ids[i] == ids[k]);
        }
    }
}

/// Registering an id that is already registered never grows the registry,
/// and while the registry is not full it is refused as a duplicate.
pub proof fn law_duplicate_request_rejected(
    reqs: Map<Seq<char>, RequestModel>,
    id: Seq<char>,
    req: RequestModel,
)
    requires
        reqs.contains_key(id),
    ensures
        request_step(reqs, id, req).0 == reqs,
        reqs.len() < MAX_REQUESTS ==> request_step(reqs, id, req).1 == Err::<(), OracleError>(
            OracleError::DuplicateKey,
        ),
{
}

/// The first successful stake into a request leaves its set holding exactly
/// one slot, the staking oracle's, with every field empty.
pub proof fn law_first_commitment(
    ledger: Map<Seq<char>, Map<Seq<char>, CommitModel>>,
    id: Seq<char>,
    signer: Seq<char>,
    deposit: u128,
)
    requires
        !ledger.contains_key(id),
        commit_step(ledger, id, signer, deposit).1 is Ok,
    ensures
        commit_step(ledger, id, signer, deposit).0[id].dom() == set![signer],
        commit_step(ledger, id, signer, deposit).0[id].len() == 1,
        commit_step(ledger, id, signer, deposit).0[id][signer] == CommitModel::empty(),
{
    let set = commit_step(ledger, id, signer, deposit).0[id];
    assert(set.dom() =~= set![signer]);
    assert(set![signer].len() == 1) by {
        assert(set![signer] == Set::<Seq<char>>::empty().insert(signer));
    }
}

/// A new oracle staking, with enough deposit, into a set that is already
/// full is refused as over capacity, and the set keeps its size.
pub proof fn law_full_set_rejects(
    ledger: Map<Seq<char>, Map<Seq<char>, CommitModel>>,
    id: Seq<char>,
    signer: Seq<char>,
    deposit: u128,
)
    requires
        ledger.contains_key(id),
        ledger[id].len() == MAX_COMMITMENTS,
        !ledger[id].contains_key(signer),
        deposit > MIN_STAKE,
    ensures
        commit_step(ledger, id, signer, deposit).1 == Err::<(), OracleError>(
            OracleError::CapacityExceeded,
        ),
        commit_step(ledger, id, signer, deposit).0[id].len() == MAX_COMMITMENTS,
{
}

/// A stake whose deposit is not above `MIN_STAKE` is refused and creates
/// nothing.
pub proof fn law_low_stake_rejected(
    ledger: Map<Seq<char>, Map<Seq<char>, CommitModel>>,
    id: Seq<char>,
    signer: Seq<char>,
    deposit: u128,
)
    requires
        deposit <= MIN_STAKE,
    ensures
        commit_step(ledger, id, signer, deposit) == (
            ledger,
            Err::<(), OracleError>(OracleError::InsufficientStake),
        ),
{
}

/// Answering a request that has no commitment set is refused, and nothing
/// changes.
pub proof fn law_answer_without_set_rejected(
    ledger: Map<Seq<char>, Map<Seq<char>, CommitModel>>,
    id: Seq<char>,
    signer: Seq<char>,
)
    requires
        !ledger.contains_key(id),
    ensures
        answer_step(ledger, id, signer) == (
            ledger,
            Err::<(), OracleError>(OracleError::NoCommitments),
        ),
{
}

/// Answering as an oracle that holds no slot in the request's set is
/// refused, and nothing changes.
pub proof fn law_answer_by_stranger_rejected(
    ledger: Map<Seq<char>, Map<Seq<char>, CommitModel>>,
    id: Seq<char>,
    signer: Seq<char>,
)
    requires
        ledger.contains_key(id),
        !ledger[id].contains_key(signer),
    ensures
        answer_step(ledger, id, signer) == (
            ledger,
            Err::<(), OracleError>(OracleError::NotCommitted),
        ),
{
}

/// Listing the registry, or the ledger, twice with no change in between
/// gives the same text both times.
pub proof fn law_listings_repeat(
    state: OracleRequests,
    requests_first: String,
    requests_second: String,
    commitments_first: String,
    commitments_second: String,
)
    requires
        requests_first@ == state.requests_json(),
        requests_second@ == state.requests_json(),
        commitments_first@ == state.commitments_json(),
        commitments_second@ == state.commitments_json(),
    ensures
        requests_first@ == requests_second@,
        commitments_first@ == commitments_second@,
{
}

} // verus!
