use cosmwasm_simulate::bank::{BankQuerier, BankQuery};
use cosmwasm_simulate::querier::{
    charge_query_gas, settle_external, QueryRequest, RoutedQuery, RouterError, StdMockQuerier,
    WasmQuery, GAS_COST_QUERY_FLAT,
};
use cosmwasm_simulate::staking::{Delegation, StakingQuerier, StakingQuery, Validator};
use cosmwasm_simulate::types::Coin;

fn coin(denom: &[u8], amount: u128) -> Coin {
    Coin { denom: denom.to_vec(), amount }
}

fn empty_staking() -> StakingQuerier {
    StakingQuerier::new(b"orai".to_vec(), Vec::new(), Vec::new())
}

#[test]
fn balance_query_reports_the_configured_amount() {
    let bank = BankQuerier::new(vec![(b"alice".to_vec(), vec![coin(b"orai", 150)])]);
    let out = bank.query(&BankQuery::Balance { address: b"alice".to_vec(), denom: b"orai".to_vec() });
    assert_eq!(out, br#"{"amount":{"denom":"orai","amount":"150"}}"#.to_vec());
}

#[test]
fn balance_query_for_missing_denom_is_zero() {
    let bank = BankQuerier::new(vec![(b"alice".to_vec(), vec![coin(b"orai", 150)])]);
    let out = bank.query(&BankQuery::Balance { address: b"alice".to_vec(), denom: b"atom".to_vec() });
    assert_eq!(out, br#"{"amount":{"denom":"atom","amount":"0"}}"#.to_vec());
}

#[test]
fn all_balances_for_unknown_address_is_an_empty_list() {
    let bank = BankQuerier::new(vec![(b"alice".to_vec(), vec![coin(b"orai", 150)])]);
    let out = bank.query(&BankQuery::AllBalances { address: b"nobody".to_vec() });
    assert_eq!(out, br#"{"amount":[]}"#.to_vec());
}

#[test]
fn all_balances_lists_every_coin() {
    let bank = BankQuerier::new(vec![(
        b"alice".to_vec(),
        vec![coin(b"orai", 1), coin(b"atom", 2)],
    )]);
    let out = bank.query(&BankQuery::AllBalances { address: b"alice".to_vec() });
    assert_eq!(
        out,
        br#"{"amount":[{"denom":"orai","amount":"1"},{"denom":"atom","amount":"2"}]}"#.to_vec()
    );
}

#[test]
fn update_balance_replaces_and_returns_the_old_coins() {
    let mut bank = BankQuerier::new(vec![(b"alice".to_vec(), vec![coin(b"orai", 1)])]);
    let old = bank.update_balance(b"alice".to_vec(), vec![coin(b"orai", 9)]);
    assert_eq!(old.unwrap()[0].amount, 1);
    let out = bank.query(&BankQuery::Balance { address: b"alice".to_vec(), denom: b"orai".to_vec() });
    assert_eq!(out, br#"{"amount":{"denom":"orai","amount":"9"}}"#.to_vec());
    let fresh = bank.update_balance(b"bob".to_vec(), vec![coin(b"orai", 3)]);
    assert!(fresh.is_none());
}

#[test]
fn staking_tables_answer_each_query_kind() {
    let st = StakingQuerier::new(
        b"orai".to_vec(),
        vec![Validator { address: b"val1".to_vec() }],
        vec![Delegation {
            delegator: b"alice".to_vec(),
            validator: b"val1".to_vec(),
            amount: coin(b"orai", 5),
        }],
    );
    assert_eq!(st.query(&StakingQuery::BondedDenom), br#"{"denom":"orai"}"#.to_vec());
    assert_eq!(
        st.query(&StakingQuery::AllValidators),
        br#"{"validators":[{"address":"val1"}]}"#.to_vec()
    );
    assert_eq!(
        st.query(&StakingQuery::Validator { address: b"val1".to_vec() }),
        br#"{"validator":{"address":"val1"}}"#.to_vec()
    );
    assert_eq!(
        st.query(&StakingQuery::Validator { address: b"none".to_vec() }),
        br#"{"validator":null}"#.to_vec()
    );
    assert_eq!(
        st.query(&StakingQuery::AllDelegations { delegator: b"alice".to_vec() }),
        br#"{"delegations":[{"delegator":"alice","validator":"val1","amount":{"denom":"orai","amount":"5"}}]}"#
            .to_vec()
    );
    assert_eq!(
        st.query(&StakingQuery::AllDelegations { delegator: b"bob".to_vec() }),
        br#"{"delegations":[]}"#.to_vec()
    );
    assert_eq!(
        st.query(&StakingQuery::Delegation {
            delegator: b"alice".to_vec(),
            validator: b"nope".to_vec()
        }),
        br#"{"delegation":null}"#.to_vec()
    );
}

#[test]
fn router_charges_flat_plus_response_bytes() {
    let q = StdMockQuerier::new(vec![(b"alice".to_vec(), vec![coin(b"orai", 1)])], empty_staking());
    let request = QueryRequest::Bank(BankQuery::Balance {
        address: b"alice".to_vec(),
        denom: b"orai".to_vec(),
    });
    let (routed, gas) = q.query(&request, 0, u64::MAX);
    let data = match routed {
        RoutedQuery::Local { data } => data,
        other => panic!("unexpected route: {:?}", other),
    };
    assert_eq!(gas, GAS_COST_QUERY_FLAT + 100 * data.len() as u64);
}

#[test]
fn router_fails_with_out_of_gas_before_returning_data() {
    let q = StdMockQuerier::new(vec![], empty_staking());
    let request = QueryRequest::Bank(BankQuery::AllBalances { address: b"alice".to_vec() });
    let (routed, gas) = q.query(&request, 0, 10);
    assert!(matches!(routed, RoutedQuery::Failed { error: RouterError::OutOfGas }));
    assert!(gas > 10);
}

#[test]
fn smart_and_custom_queries_are_handed_back() {
    let q = StdMockQuerier::new(vec![], empty_staking());
    let smart = QueryRequest::Wasm(WasmQuery::Smart {
        contract_addr: b"target".to_vec(),
        msg: b"{}".to_vec(),
    });
    let (routed, gas) = q.query(&smart, 2, u64::MAX);
    assert!(matches!(
        routed,
        RoutedQuery::Contract { contract_addr, msg } if contract_addr == b"target" && msg == b"{}"
    ));
    assert_eq!(gas, 0);
    let custom = QueryRequest::Custom(b"payload".to_vec());
    let (routed2, _) = q.query(&custom, 7, u64::MAX);
    assert!(matches!(routed2, RoutedQuery::Custom { payload } if payload == b"payload"));
}

#[test]
fn external_answers_settle_under_the_same_gas_rule() {
    let (ok, gas) = settle_external(b"result".to_vec(), 0, u64::MAX);
    assert_eq!(ok.unwrap(), b"result".to_vec());
    assert_eq!(gas, GAS_COST_QUERY_FLAT + 600);
    let (bad, _) = settle_external(b"result".to_vec(), 0, 5);
    assert!(matches!(bad, Err(RouterError::OutOfGas)));
}

#[test]
fn the_gas_rule_itself_is_exact() {
    let (ok, cost) = charge_query_gas(10, 3, u64::MAX);
    assert!(ok.is_ok());
    assert_eq!(cost, GAS_COST_QUERY_FLAT + 300);
    let (bad, cost2) = charge_query_gas(0, 0, 1);
    assert!(matches!(bad, Err(RouterError::OutOfGas)));
    assert_eq!(cost2, GAS_COST_QUERY_FLAT);
}

#[test]
fn the_router_balance_update_is_visible_to_later_queries() {
    let mut q = StdMockQuerier::new(vec![], empty_staking());
    let old = q.update_balance(b"alice".to_vec(), vec![coin(b"orai", 44)]);
    assert!(old.is_none());
    let request = QueryRequest::Bank(BankQuery::Balance {
        address: b"alice".to_vec(),
        denom: b"orai".to_vec(),
    });
    let (routed, _) = q.query(&request, 0, u64::MAX);
    match routed {
        RoutedQuery::Local { data } => {
            assert_eq!(data, br#"{"amount":{"denom":"orai","amount":"44"}}"#.to_vec());
        }
        other => panic!("unexpected route: {:?}", other),
    }
}
