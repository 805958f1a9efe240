use oracle_contract::{OracleError, OracleRequests, MAX_REQUESTS};

fn s(text: &str) -> String {
    text.to_string()
}

fn add(contract: &mut OracleRequests, id: &str) -> Result<(), OracleError> {
    contract.add_request(s(id), s("getLatestTokenPriceByHash"), s("battokenaddy"), s("bob_near"))
}

#[test]
fn add_one_oracle_request() {
    let mut contract = OracleRequests::default();
    contract
        .add_request(s("a"), s("getLatestTokenPriceByHash"), s("battokenaddy"), s("bob_near"))
        .unwrap();
    assert_eq!(1, contract.request_count());
}

#[test]
fn add_and_remove_one_oracle_request() {
    let mut contract = OracleRequests::default();
    contract
        .add_request(s("a"), s("getLatestTokenPriceByHash"), s("battokenaddy"), s("bob_near"))
        .unwrap();
    assert_eq!(1, contract.request_count());
    contract.clear_all_requests();
    assert_eq!(0, contract.request_count());
}

#[test]
fn add_one_oracle_request_get_serialized() {
    let mut contract = OracleRequests::default();
    contract
        .add_request(s("a"), s("getLatestTokenPriceByHash"), s("battokenaddy"), s("bob_near"))
        .unwrap();
    let serialized_output = contract.get_all_requests();
    assert_eq!(
        "{\"a\":{\"caller\":\"bob_near\",\"request_spec\":\"getLatestTokenPriceByHash\",\"token_address\":\"battokenaddy\"}}",
        serialized_output
    );
}

#[test]
fn add_two_oracle_requests_check_keys() {
    let mut contract = OracleRequests::default();
    add(&mut contract, "request-id-alpha").unwrap();
    add(&mut contract, "request-id-bravo").unwrap();
    assert_eq!(true, contract.has_request(&s("request-id-alpha")));
    assert_eq!(true, contract.has_request(&s("request-id-bravo")));
    assert_eq!(false, contract.has_request(&s("request-id-charlie")));
}

#[test]
fn caller_is_the_signer_not_an_argument() {
    let mut contract = OracleRequests::new();
    contract.add_request(s("q"), s("spec"), s("tok"), s("carol_near")).unwrap();
    assert_eq!(
        "{\"q\":{\"caller\":\"carol_near\",\"request_spec\":\"spec\",\"token_address\":\"tok\"}}",
        contract.get_all_requests()
    );
}

#[test]
fn registry_caps_at_ten_and_eleventh_fails() {
    let mut contract = OracleRequests::new();
    for i in 0..MAX_REQUESTS {
        assert_eq!(Ok(()), add(&mut contract, &format!("req-{}", i)));
        assert_eq!(i + 1, contract.request_count());
    }
    assert_eq!(10, contract.request_count());
    assert_eq!(Err(OracleError::CapacityExceeded), add(&mut contract, "req-10"));
    assert_eq!(10, contract.request_count());
    assert!(!contract.has_request(&s("req-10")));
}

#[test]
fn duplicate_request_fails_and_keeps_size() {
    let mut contract = OracleRequests::new();
    add(&mut contract, "a").unwrap();
    add(&mut contract, "b").unwrap();
    let before = contract.get_all_requests();
    let r = contract.add_request(s("a"), s("other"), s("other"), s("dave_near"));
    assert_eq!(Err(OracleError::DuplicateKey), r);
    assert_eq!(2, contract.request_count());
    assert_eq!(before, contract.get_all_requests());
}

#[test]
fn full_registry_reports_capacity_before_duplicate() {
    let mut contract = OracleRequests::new();
    for i in 0..10 {
        add(&mut contract, &format!("r{}", i)).unwrap();
    }
    assert_eq!(Err(OracleError::CapacityExceeded), add(&mut contract, "r0"));
}

#[test]
fn clear_all_requests_empties_any_registry() {
    let mut contract = OracleRequests::new();
    contract.clear_all_requests();
    assert_eq!(0, contract.request_count());
    for i in 0..7 {
        add(&mut contract, &format!("r{}", i)).unwrap();
    }
    contract.clear_all_requests();
    assert_eq!(0, contract.request_count());
    assert_eq!("{}", contract.get_all_requests());
    add(&mut contract, "r0").unwrap();
    assert_eq!(1, contract.request_count());
}

#[test]
fn empty_registry_lists_as_empty_object() {
    let contract = OracleRequests::new();
    assert_eq!("{}", contract.get_all_requests());
    assert_eq!("{}", contract.get_all_commitments());
}

#[test]
fn listings_are_the_same_twice() {
    let mut contract = OracleRequests::new();
    add(&mut contract, "x").unwrap();
    add(&mut contract, "y").unwrap();
    contract.add_commitment(s("x"), s("o1"), 20_000_000).unwrap();
    contract.add_commitment(s("y"), s("o2"), 20_000_000).unwrap();
    assert_eq!(contract.get_all_requests(), contract.get_all_requests());
    assert_eq!(contract.get_all_commitments(), contract.get_all_commitments());
}

#[test]
fn two_requests_list_by_key() {
    let mut contract = OracleRequests::new();
    add(&mut contract, "b").unwrap();
    add(&mut contract, "a").unwrap();
    let text = contract.get_all_requests();
    let value: serde_json::Value = serde_json::from_str(&text).unwrap();
    let object = value.as_object().unwrap();
    assert_eq!(2, object.len());
    assert_eq!("bob_near", object["a"]["caller"].as_str().unwrap());
    assert_eq!("battokenaddy", object["b"]["token_address"].as_str().unwrap());
}
