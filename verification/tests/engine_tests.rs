use cosmwasm_simulate::bank::BankQuery;
use cosmwasm_simulate::engine::{error_json, Registry, DEFAULT_BLOCK_HEIGHT};
use cosmwasm_simulate::querier::{QueryRequest, RoutedQuery, RouterError};

#[test]
fn loading_registers_a_fresh_instance() {
    let mut reg = Registry::new();
    reg.load_or_replace(b"contract_a");
    assert_eq!(reg.len(), 1);
    let i = reg.find(b"contract_a").unwrap();
    let inst = reg.instance(i);
    assert_eq!(inst.address(), &b"contract_a".to_vec());
    assert_eq!(inst.height(), DEFAULT_BLOCK_HEIGHT);
}

#[test]
fn replacement_preserves_store_contents_and_height() {
    let mut reg = Registry::new();
    reg.load_or_replace(b"contract_a");
    let i = reg.find(b"contract_a").unwrap();
    reg.instance_mut(i).storage.set(b"state", b"kept");
    reg.load_or_replace(b"contract_a");
    assert_eq!(reg.len(), 1);
    let i2 = reg.find(b"contract_a").unwrap();
    let (v, _) = reg.instance(i2).storage.get(b"state");
    assert_eq!(v, Some(b"kept".to_vec()));
    assert_eq!(reg.instance(i2).height(), DEFAULT_BLOCK_HEIGHT);
}

#[test]
fn smart_query_to_absent_contract_is_no_such_contract() {
    let mut reg = Registry::new();
    reg.load_or_replace(b"present");
    let r = reg.resolve_contract(b"absent");
    assert!(matches!(r, Err(RouterError::NoSuchContract { addr }) if addr == b"absent"));
    assert!(reg.resolve_contract(b"present").is_ok());
}

#[test]
fn error_json_escapes_the_message() {
    assert_eq!(error_json(b"plain"), br#"{"error":"plain"}"#.to_vec());
    assert_eq!(error_json(br#"say "hi""#), br#"{"error":"say \"hi\""}"#.to_vec());
}

#[test]
fn an_instance_routes_queries_against_its_own_remaining_gas() {
    let mut reg = Registry::new();
    reg.load_or_replace(b"contract_a");
    let i = reg.find(b"contract_a").unwrap();
    let request = QueryRequest::Bank(BankQuery::AllBalances { address: b"contract_a".to_vec() });
    let (routed, _) = reg.instance(i).query(&request, 0);
    assert!(matches!(routed, RoutedQuery::Local { .. }));
    reg.instance_mut(i).set_gas_limit(10);
    let (refused, _) = reg.instance(i).query(&request, 0);
    assert!(matches!(refused, RoutedQuery::Failed { error: RouterError::OutOfGas }));
}
