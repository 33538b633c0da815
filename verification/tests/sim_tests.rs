use cosmwasm_simulate::addr::GAS_COST_CANONICALIZE;
use cosmwasm_simulate::storage::{Order, StoreError};
use cosmwasm_simulate::engine::DEFAULT_BLOCK_HEIGHT;
use cosmwasm_simulate::sim::{
    parse_call_kind, BackendEvent, CallKind, EngineAction, Simulation,
};
use cosmwasm_simulate::types::{Attribute, CallOutcome, Coin, CosmosMsg, QueryOutcome, Response};

fn engine_with(contracts: &[&[u8]]) -> Simulation {
    let mut sim = Simulation::new();
    sim.add_account(
        b"oraifake_sender_addr".to_vec(),
        vec![Coin { denom: b"orai".to_vec(), amount: 10_000 }],
    );
    for c in contracts {
        sim.registry.load_or_replace(c);
    }
    sim
}

fn sender() -> Vec<u8> {
    b"oraifake_sender_addr".to_vec()
}

fn ok_response(attributes: Vec<Attribute>, messages: Vec<CosmosMsg>) -> BackendEvent {
    BackendEvent::Call {
        outcome: CallOutcome::Response(Response { attributes, messages }),
        gas_remaining: 1_000_000,
    }
}

#[test]
fn call_kinds_parse_and_anything_else_is_refused() {
    assert_eq!(parse_call_kind(b"instantiate"), Some(CallKind::Instantiate));
    assert_eq!(parse_call_kind(b"execute"), Some(CallKind::Execute));
    assert_eq!(parse_call_kind(b"query"), Some(CallKind::Query));
    assert_eq!(parse_call_kind(b"handle"), None);

    let mut sim = engine_with(&[b"a"]);
    let (_s, act) = sim.begin_call(b"a", b"handle", b"{}", &sender());
    match act {
        EngineAction::Done { output } => {
            assert_eq!(output.result, br#"{"error":"wrong dispatcher call handle"}"#.to_vec());
        }
        other => panic!("unexpected action: {:?}", other),
    }
}

#[test]
fn unknown_account_is_refused() {
    let mut sim = engine_with(&[b"a"]);
    let (_s, act) = sim.begin_call(b"a", b"execute", b"{}", b"stranger_address");
    match act {
        EngineAction::Done { output } => {
            assert_eq!(output.result, br#"{"error":"No account found: stranger_address"}"#.to_vec());
        }
        other => panic!("unexpected action: {:?}", other),
    }
}

#[test]
fn unknown_contract_is_refused() {
    let mut sim = engine_with(&[b"a"]);
    let (_s, act) = sim.begin_call(b"missing", b"execute", b"{}", &sender());
    match act {
        EngineAction::Done { output } => {
            assert_eq!(output.result, br#"{"error":"No engine found: missing"}"#.to_vec());
        }
        other => panic!("unexpected action: {:?}", other),
    }
}

#[test]
fn gas_limit_below_canonicalization_cost_fails_without_touching_the_store() {
    let mut sim = engine_with(&[b"a"]);
    let i = sim.registry.find(b"a").unwrap();
    sim.registry.instance_mut(i).storage.set(b"persist", b"yes");
    assert!(GAS_COST_CANONICALIZE > 10);
    sim.registry.instance_mut(i).set_gas_limit(10);
    let (_s, act) = sim.begin_call(b"a", b"execute", b"{}", &sender());
    match act {
        EngineAction::Done { output } => {
            assert_eq!(output.result, br#"{"error":"Ran out of gas"}"#.to_vec());
            assert_eq!(output.gas_used, 0);
        }
        other => panic!("unexpected action: {:?}", other),
    }
    let (v, _) = sim.registry.instance(i).storage.get(b"persist");
    assert_eq!(v, Some(b"yes".to_vec()));
    assert_eq!(sim.registry.instance(i).gas_remaining(), 10);
}

#[test]
fn a_successful_execute_reports_success_and_advances_the_height() {
    let mut sim = engine_with(&[b"a"]);
    let i = sim.registry.find(b"a").unwrap();
    let before = sim.registry.instance(i).height();
    let (mut session, act) = sim.begin_call(b"a", b"execute", b"{\"do\":1}", &sender());
    match act {
        EngineAction::Invoke { contract_index, kind, payload, info, .. } => {
            assert_eq!(contract_index, i);
            assert_eq!(kind, CallKind::Execute);
            assert_eq!(payload, b"{\"do\":1}".to_vec());
            assert_eq!(info.sender, sender());
            assert_eq!(info.funds.len(), 1);
        }
        other => panic!("unexpected action: {:?}", other),
    }
    let act2 = sim.step(&mut session, ok_response(Vec::new(), Vec::new()));
    match act2 {
        EngineAction::Done { output } => {
            assert_eq!(output.result, br#"{"message":"execute succeeded"}"#.to_vec());
            assert!(output.attributes.is_empty());
        }
        other => panic!("unexpected action: {:?}", other),
    }
    assert_eq!(sim.registry.instance(i).height(), before + 1);
}

#[test]
fn two_executes_advance_the_height_by_exactly_two() {
    let mut sim = engine_with(&[b"a"]);
    let i = sim.registry.find(b"a").unwrap();
    assert_eq!(sim.registry.instance(i).height(), DEFAULT_BLOCK_HEIGHT);
    for _ in 0..2 {
        let (mut session, _act) = sim.begin_call(b"a", b"execute", b"{}", &sender());
        sim.step(&mut session, ok_response(Vec::new(), Vec::new()));
    }
    assert_eq!(sim.registry.instance(i).height(), DEFAULT_BLOCK_HEIGHT + 2);
}

#[test]
fn a_query_leaves_the_height_unchanged() {
    let mut sim = engine_with(&[b"a"]);
    let i = sim.registry.find(b"a").unwrap();
    let before = sim.registry.instance(i).height();
    let (mut session, act) = sim.begin_call(b"a", b"query", b"{\"q\":0}", &sender());
    assert!(matches!(act, EngineAction::Invoke { kind: CallKind::Query, .. }));
    let act2 = sim.step(
        &mut session,
        BackendEvent::Query { outcome: QueryOutcome::Data(b"42".to_vec()), gas_remaining: 5 },
    );
    match act2 {
        EngineAction::Done { output } => {
            assert_eq!(output.result, b"42".to_vec());
        }
        other => panic!("unexpected action: {:?}", other),
    }
    assert_eq!(sim.registry.instance(i).height(), before);
}

#[test]
fn query_results_pass_through_as_raw_bytes() {
    let mut sim = engine_with(&[b"a"]);
    for data in [vec![0x0au8], vec![0x00u8, 0xffu8, 0x10u8], b"plain text".to_vec()] {
        let (mut session, _act) = sim.begin_call(b"a", b"query", b"{}", &sender());
        let act = sim.step(
            &mut session,
            BackendEvent::Query {
                outcome: QueryOutcome::Data(data.clone()),
                gas_remaining: 1_000_000,
            },
        );
        match act {
            EngineAction::Done { output } => assert_eq!(output.result, data),
            other => panic!("unexpected action: {:?}", other),
        }
    }
}

#[test]
fn contract_errors_surface_as_error_json_without_a_height_change() {
    let mut sim = engine_with(&[b"a"]);
    let i = sim.registry.find(b"a").unwrap();
    let before = sim.registry.instance(i).height();
    let (mut session, _act) = sim.begin_call(b"a", b"execute", b"{}", &sender());
    let act = sim.step(
        &mut session,
        BackendEvent::Call {
            outcome: CallOutcome::ContractErr(b"unauthorized".to_vec()),
            gas_remaining: 0,
        },
    );
    match act {
        EngineAction::Done { output } => {
            assert_eq!(output.result, br#"{"error":"unauthorized"}"#.to_vec());
        }
        other => panic!("unexpected action: {:?}", other),
    }
    assert_eq!(sim.registry.instance(i).height(), before);
}

#[test]
fn dispatch_records_the_target_result_as_an_attribute() {
    let mut sim = engine_with(&[b"contract_a", b"contract_b"]);
    let (mut session, _act) = sim.begin_call(b"contract_a", b"instantiate", b"{}", &sender());
    let outbound = CosmosMsg::WasmExecute {
        contract_addr: b"contract_b".to_vec(),
        msg: b"{\"ping\":1}".to_vec(),
        funds: Vec::new(),
    };
    let act = sim.step(&mut session, ok_response(Vec::new(), vec![outbound]));
    match act {
        EngineAction::Invoke { contract_addr, kind, payload, info, .. } => {
            assert_eq!(contract_addr, b"contract_b".to_vec());
            assert_eq!(kind, CallKind::Execute);
            assert_eq!(payload, b"{\"ping\":1}".to_vec());
            assert_eq!(info.sender, b"contract_a".to_vec());
        }
        other => panic!("unexpected action: {:?}", other),
    }
    let act2 = sim.step(&mut session, ok_response(Vec::new(), Vec::new()));
    match act2 {
        EngineAction::Done { output } => {
            assert_eq!(output.result, br#"{"message":"instantiate succeeded"}"#.to_vec());
            assert_eq!(output.attributes.len(), 1);
            assert_eq!(output.attributes[0].key, b"contract_b".to_vec());
            assert_eq!(
                output.attributes[0].value,
                br#"{"message":"execute succeeded"}"#.to_vec()
            );
        }
        other => panic!("unexpected action: {:?}", other),
    }
    let b = sim.registry.find(b"contract_b").unwrap();
    assert_eq!(sim.registry.instance(b).height(), DEFAULT_BLOCK_HEIGHT + 1);
}

#[test]
fn dispatch_to_a_missing_contract_records_its_error_and_continues() {
    let mut sim = engine_with(&[b"contract_a"]);
    let (mut session, _act) = sim.begin_call(b"contract_a", b"instantiate", b"{}", &sender());
    let outbound = CosmosMsg::WasmExecute {
        contract_addr: b"contract_b".to_vec(),
        msg: b"{\"ping\":1}".to_vec(),
        funds: Vec::new(),
    };
    let own_attr = Attribute { key: b"action".to_vec(), value: b"init".to_vec() };
    let act = sim.step(&mut session, ok_response(vec![own_attr], vec![outbound]));
    match act {
        EngineAction::Done { output } => {
            assert_eq!(output.result, br#"{"message":"instantiate succeeded"}"#.to_vec());
            assert_eq!(output.attributes.len(), 2);
            assert_eq!(output.attributes[0].key, b"action".to_vec());
            assert_eq!(output.attributes[1].key, b"contract_b".to_vec());
            assert_eq!(
                output.attributes[1].value,
                br#"{"error":"No such contract: contract_b"}"#.to_vec()
            );
        }
        other => panic!("unexpected action: {:?}", other),
    }
}

#[test]
fn opaque_messages_are_reported_as_attributes() {
    let mut sim = engine_with(&[b"a"]);
    let (mut session, _act) = sim.begin_call(b"a", b"execute", b"{}", &sender());
    let act = sim.step(
        &mut session,
        ok_response(
            Vec::new(),
            vec![CosmosMsg::Opaque { description: b"bank send".to_vec() }],
        ),
    );
    match act {
        EngineAction::Done { output } => {
            assert_eq!(output.attributes.len(), 1);
            assert_eq!(output.attributes[0].key, b"message".to_vec());
            assert_eq!(output.attributes[0].value, b"bank send".to_vec());
        }
        other => panic!("unexpected action: {:?}", other),
    }
}

#[test]
fn gas_used_is_the_drop_in_remaining_gas() {
    let mut sim = engine_with(&[b"a"]);
    let i = sim.registry.find(b"a").unwrap();
    sim.registry.instance_mut(i).set_gas_limit(1_000_000);
    let (mut session, _act) = sim.begin_call(b"a", b"execute", b"{}", &sender());
    let act = sim.step(
        &mut session,
        BackendEvent::Call {
            outcome: CallOutcome::Response(Response { attributes: Vec::new(), messages: Vec::new() }),
            gas_remaining: 600_000,
        },
    );
    match act {
        EngineAction::Done { output } => {
            assert_eq!(output.gas_used, 400_000);
        }
        other => panic!("unexpected action: {:?}", other),
    }
}

#[test]
fn the_default_account_is_the_lexicographically_first() {
    let mut sim = Simulation::new();
    assert!(sim.default_account().is_none());
    sim.add_account(b"carol".to_vec(), Vec::new());
    sim.add_account(b"alice".to_vec(), Vec::new());
    sim.add_account(b"bob".to_vec(), Vec::new());
    assert_eq!(sim.default_account(), Some(b"alice".to_vec()));
}

#[test]
fn the_recursion_limit_refuses_deeper_dispatch() {
    let mut sim = engine_with(&[b"contract_a", b"contract_b"]);
    sim.recursion_limit = 1;
    let (mut session, _act) = sim.begin_call(b"contract_a", b"execute", b"{}", &sender());
    let outbound = CosmosMsg::WasmExecute {
        contract_addr: b"contract_b".to_vec(),
        msg: b"{}".to_vec(),
        funds: Vec::new(),
    };
    let act = sim.step(&mut session, ok_response(Vec::new(), vec![outbound]));
    match act {
        EngineAction::Done { output } => {
            assert_eq!(output.attributes.len(), 1);
            assert_eq!(output.attributes[0].key, b"contract_b".to_vec());
            assert_eq!(
                output.attributes[0].value,
                br#"{"error":"Recursion limit exceeded"}"#.to_vec()
            );
        }
        other => panic!("unexpected action: {:?}", other),
    }
    let b = sim.registry.find(b"contract_b").unwrap();
    assert_eq!(sim.registry.instance(b).height(), DEFAULT_BLOCK_HEIGHT);
}

#[test]
fn a_sender_address_outside_the_codec_bounds_is_refused() {
    let mut sim = Simulation::new();
    sim.add_account(b"ab".to_vec(), Vec::new());
    sim.registry.load_or_replace(b"contract_a");
    let (_s, act) = sim.begin_call(b"contract_a", b"execute", b"{}", b"ab");
    match act {
        EngineAction::Done { output } => {
            assert_eq!(output.result, br#"{"error":"address too short"}"#.to_vec());
        }
        other => panic!("unexpected action: {:?}", other),
    }
}

#[test]
fn several_outbound_messages_dispatch_in_order() {
    let mut sim = engine_with(&[b"contract_a", b"contract_b", b"contract_c"]);
    let (mut session, _act) = sim.begin_call(b"contract_a", b"execute", b"{}", &sender());
    let to = |addr: &[u8]| CosmosMsg::WasmExecute {
        contract_addr: addr.to_vec(),
        msg: b"{}".to_vec(),
        funds: Vec::new(),
    };
    let act = sim.step(
        &mut session,
        ok_response(Vec::new(), vec![to(b"contract_b"), to(b"contract_c")]),
    );
    match act {
        EngineAction::Invoke { contract_addr, .. } => assert_eq!(contract_addr, b"contract_b".to_vec()),
        other => panic!("unexpected action: {:?}", other),
    }
    let act2 = sim.step(&mut session, ok_response(Vec::new(), Vec::new()));
    match act2 {
        EngineAction::Invoke { contract_addr, .. } => assert_eq!(contract_addr, b"contract_c".to_vec()),
        other => panic!("unexpected action: {:?}", other),
    }
    let act3 = sim.step(&mut session, ok_response(Vec::new(), Vec::new()));
    match act3 {
        EngineAction::Done { output } => {
            let keys: Vec<Vec<u8>> = output.attributes.iter().map(|a| a.key.clone()).collect();
            assert_eq!(keys, vec![b"contract_b".to_vec(), b"contract_c".to_vec()]);
        }
        other => panic!("unexpected action: {:?}", other),
    }
}

#[test]
fn nested_dispatch_runs_with_the_inner_sender() {
    let mut sim = engine_with(&[b"contract_a", b"contract_b", b"contract_c"]);
    let (mut session, _act) = sim.begin_call(b"contract_a", b"execute", b"{}", &sender());
    let to = |addr: &[u8]| CosmosMsg::WasmExecute {
        contract_addr: addr.to_vec(),
        msg: b"{}".to_vec(),
        funds: Vec::new(),
    };
    let act = sim.step(&mut session, ok_response(Vec::new(), vec![to(b"contract_b")]));
    assert!(matches!(act, EngineAction::Invoke { .. }));
    // the dispatched execute on B itself sends a message to C
    let act2 = sim.step(&mut session, ok_response(Vec::new(), vec![to(b"contract_c")]));
    match act2 {
        EngineAction::Invoke { contract_addr, info, .. } => {
            assert_eq!(contract_addr, b"contract_c".to_vec());
            assert_eq!(info.sender, b"contract_b".to_vec());
        }
        other => panic!("unexpected action: {:?}", other),
    }
    let act3 = sim.step(&mut session, ok_response(Vec::new(), Vec::new()));
    match act3 {
        EngineAction::Done { output } => {
            // only the root-level dispatch result surfaces at the top
            assert_eq!(output.attributes.len(), 1);
            assert_eq!(output.attributes[0].key, b"contract_b".to_vec());
        }
        other => panic!("unexpected action: {:?}", other),
    }
    let c = sim.registry.find(b"contract_c").unwrap();
    assert_eq!(sim.registry.instance(c).height(), DEFAULT_BLOCK_HEIGHT + 1);
}

#[test]
fn iterators_opened_during_a_failed_call_are_released() {
    let mut sim = engine_with(&[b"a"]);
    let i = sim.registry.find(b"a").unwrap();
    let (mut session, _act) = sim.begin_call(b"a", b"execute", b"{}", &sender());
    // the backend opens a scan while executing, then the contract fails
    let (id, _) = sim.registry.instance_mut(i).storage.scan(None, None, Order::Ascending);
    let _ = sim.step(
        &mut session,
        BackendEvent::Call {
            outcome: CallOutcome::ContractErr(b"boom".to_vec()),
            gas_remaining: 0,
        },
    );
    let (r, _) = sim.registry.instance_mut(i).storage.next(id);
    assert!(matches!(r, Err(StoreError::IteratorNotFound)));
}
