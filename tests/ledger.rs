use oracle_contract::{CommitReveal, OracleError, OracleRequests, MIN_STAKE};

const STAKE: u128 = 20_000_000;
const EMPTY_SLOT: &str =
    "{\"commit_shrouded\":\"\",\"reveal_answer\":\"\",\"reveal_suffix\":\"\",\"reveal_type\":\"\"}";

fn s(text: &str) -> String {
    text.to_string()
}

fn slots(contract: &OracleRequests, id: &str) -> usize {
    let text = contract.get_commitments_by_request_id(s(id)).unwrap();
    let value: serde_json::Value = serde_json::from_str(&text).unwrap();
    value.as_object().unwrap().len()
}

#[test]
fn new_commit_reveal_is_empty() {
    let c = CommitReveal::new();
    assert_eq!("", c.commit_shrouded);
    assert_eq!("", c.reveal_answer);
    assert_eq!("", c.reveal_suffix);
    assert_eq!("", c.reveal_type);
    let d = CommitReveal::default();
    assert_eq!("", d.reveal_type);
}

#[test]
fn first_commitment_opens_set_with_one_empty_slot() {
    let mut contract = OracleRequests::new();
    contract.add_commitment(s("a"), s("bob_near"), STAKE).unwrap();
    assert_eq!(
        format!("{{\"bob_near\":{}}}", EMPTY_SLOT),
        contract.get_commitments_by_request_id(s("a")).unwrap()
    );
    assert_eq!(
        format!("{{\"a\":{{\"bob_near\":{}}}}}", EMPTY_SLOT),
        contract.get_all_commitments()
    );
}

#[test]
fn commitment_needs_no_registered_request() {
    let mut contract = OracleRequests::new();
    assert_eq!(Ok(()), contract.add_commitment(s("never-registered"), s("o1"), STAKE));
    assert_eq!(0, contract.request_count());
    assert_eq!(1, slots(&contract, "never-registered"));
}

#[test]
fn fourth_oracle_is_over_capacity() {
    let mut contract = OracleRequests::new();
    for oracle in ["o1", "o2", "o3"] {
        contract.add_commitment(s("a"), s(oracle), STAKE).unwrap();
    }
    assert_eq!(3, slots(&contract, "a"));
    assert_eq!(
        Err(OracleError::CapacityExceeded),
        contract.add_commitment(s("a"), s("o4"), STAKE)
    );
    assert_eq!(3, slots(&contract, "a"));
}

#[test]
fn oracle_cannot_commit_twice() {
    let mut contract = OracleRequests::new();
    contract.add_commitment(s("a"), s("o1"), STAKE).unwrap();
    assert_eq!(
        Err(OracleError::AlreadyCommitted),
        contract.add_commitment(s("a"), s("o1"), STAKE)
    );
    assert_eq!(1, slots(&contract, "a"));
}

#[test]
fn stake_must_be_above_threshold() {
    let mut contract = OracleRequests::new();
    assert_eq!(19_000_000, MIN_STAKE);
    for deposit in [0, 1, 19_000_000] {
        assert_eq!(
            Err(OracleError::InsufficientStake),
            contract.add_commitment(s("a"), s("o1"), deposit)
        );
    }
    assert_eq!(Err(OracleError::NoCommitments), contract.get_commitments_by_request_id(s("a")));
    assert_eq!("{}", contract.get_all_commitments());
    assert_eq!(Ok(()), contract.add_commitment(s("a"), s("o1"), 19_000_001));
}

#[test]
fn low_stake_into_existing_set_adds_nothing() {
    let mut contract = OracleRequests::new();
    contract.add_commitment(s("a"), s("o1"), STAKE).unwrap();
    assert_eq!(
        Err(OracleError::InsufficientStake),
        contract.add_commitment(s("a"), s("o2"), 5)
    );
    assert_eq!(1, slots(&contract, "a"));
}

#[test]
fn answer_without_set_is_not_found() {
    let mut contract = OracleRequests::new();
    assert_eq!(
        Err(OracleError::NoCommitments),
        contract.add_answer_as_commit(s("a"), s("deadbeef"), s("sha256"), s("o1"))
    );
}

#[test]
fn answer_by_stranger_is_not_found() {
    let mut contract = OracleRequests::new();
    contract.add_commitment(s("a"), s("o1"), STAKE).unwrap();
    let before = contract.get_all_commitments();
    assert_eq!(
        Err(OracleError::NotCommitted),
        contract.add_answer_as_commit(s("a"), s("deadbeef"), s("sha256"), s("o2"))
    );
    assert_eq!(before, contract.get_all_commitments());
}

#[test]
fn answer_leaves_the_slot_empty() {
    let mut contract = OracleRequests::new();
    contract.add_commitment(s("a"), s("o1"), STAKE).unwrap();
    assert_eq!(
        Ok(()),
        contract.add_answer_as_commit(s("a"), s("deadbeef"), s("keccak256"), s("o1"))
    );
    assert_eq!(
        format!("{{\"o1\":{}}}", EMPTY_SLOT),
        contract.get_commitments_by_request_id(s("a")).unwrap()
    );
}

#[test]
fn unknown_request_has_no_commitments() {
    let contract = OracleRequests::new();
    assert_eq!(Err(OracleError::NoCommitments), contract.get_commitments_by_request_id(s("zz")));
}

#[test]
fn clear_all_commitments_keeps_requests() {
    let mut contract = OracleRequests::new();
    contract.add_request(s("a"), s("spec"), s("tok"), s("bob_near")).unwrap();
    contract.add_commitment(s("a"), s("o1"), STAKE).unwrap();
    contract.add_commitment(s("b"), s("o1"), STAKE).unwrap();
    contract.clear_all_commitments();
    assert_eq!("{}", contract.get_all_commitments());
    assert_eq!(1, contract.request_count());
    assert_eq!(Ok(()), contract.add_commitment(s("a"), s("o1"), STAKE));
}

#[test]
fn ledger_lists_every_request() {
    let mut contract = OracleRequests::new();
    contract.add_commitment(s("b"), s("o2"), STAKE).unwrap();
    contract.add_commitment(s("a"), s("o1"), STAKE).unwrap();
    contract.add_commitment(s("a"), s("o3"), STAKE).unwrap();
    assert_eq!(
        format!(
            "{{\"a\":{{\"o1\":{e},\"o3\":{e}}},\"b\":{{\"o2\":{e}}}}}",
            e = EMPTY_SLOT
        ),
        contract.get_all_commitments()
    );
}
