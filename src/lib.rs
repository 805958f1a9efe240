//! Commit-reveal bookkeeping for oracle requests: a registry of requests and,
//! per request, a bounded ledger of oracle commitments. Every operation takes
//! the identity of the calling party and, where it matters, the deposit it
//! attached, as plain values from the host that runs it.

mod assoc;
mod json;
mod laws;
mod oracle;
mod types;

pub use assoc::{has_key, keys_unique, map_of, map_of_with};
pub use json::{json_text_of_nested, json_text_of_objects};
pub use laws::{
    distinct, law_answer_by_stranger_rejected, law_answer_without_set_rejected,
    law_distinct_requests_fill_to_capacity, law_duplicate_request_rejected,
    law_first_commitment, law_full_set_rejects, law_listings_repeat, law_low_stake_rejected,
    run_requests,
};
pub use oracle::{
    answer_step, commit_objects, commit_step, request_step, OracleError, OracleRequests,
    MAX_COMMITMENTS, MAX_REQUESTS, MIN_STAKE,
};
pub use types::{CommitModel, CommitReveal, OracleRequest, RequestModel};
