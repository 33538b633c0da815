//! The chain query router: one entry point multiplexing bank, staking,
//! cross-contract and custom queries.  Bank and staking queries are answered
//! from the in-memory tables; a cross-contract query is handed back to the
//! engine for resolution against the registry; a custom query is handed to
//! the application's pluggable handler.  Every locally answered query is
//! charged a request-plus-response byte cost against the caller's gas limit
//! and fails with an out-of-gas error before any data is returned when that
//! cost exceeds the limit; externally produced answers are settled against
//! the same rule.

use vstd::prelude::*;

use crate::bank::{BankQuerier, BankQuery};
use crate::staking::{StakingQuerier, StakingQuery};
use crate::storage::clamp_u64;
use crate::types::Coin;

verus! {

/// Flat gas charged per routed query.
pub const GAS_COST_QUERY_FLAT: u64 = 100_000;

/// Gas per request byte.
pub const GAS_COST_QUERY_REQUEST_MULTIPLIER: u64 = 0;

/// Gas per response byte.
pub const GAS_COST_QUERY_RESPONSE_MULTIPLIER: u64 = 100;

/// A cross-contract query.
#[derive(Debug)]
pub enum WasmQuery {
    /// Run another contract's query entry point on the given payload.
    Smart { contract_addr: Vec<u8>, msg: Vec<u8> },
}

/// A routed request: the closed union of query kinds the router multiplexes.
#[derive(Debug)]
pub enum QueryRequest {
    Bank(BankQuery),
    Staking(StakingQuery),
    Wasm(WasmQuery),
    Custom(Vec<u8>),
}

/// Errors of the router.
#[derive(Debug)]
pub enum RouterError {
    /// The request-plus-response byte cost exceeds the caller's gas limit.
    OutOfGas,
    /// A cross-contract query named an address with no registered contract.
    NoSuchContract { addr: Vec<u8> },
}

/// Where a routed query ends up.
#[derive(Debug)]
pub enum RoutedQuery {
    /// Answered locally, within the gas limit.
    Local { data: Vec<u8> },
    /// Refused locally: the gas charge failed.
    Failed { error: RouterError },
    /// Needs another contract's query entry point.
    Contract { contract_addr: Vec<u8>, msg: Vec<u8> },
    /// Needs the application's custom handler.
    Custom { payload: Vec<u8> },
}

/// The gas a routed query costs: a flat charge plus per-byte charges on
/// request and response.
pub open spec fn spec_query_gas(request_len: nat, response_len: nat) -> int {
    GAS_COST_QUERY_FLAT + GAS_COST_QUERY_REQUEST_MULTIPLIER * request_len
        + GAS_COST_QUERY_RESPONSE_MULTIPLIER * response_len
}

/// Charges the query gas rule: reports the (clamped) cost, and whether it
/// fits the limit.
pub fn charge_query_gas(request_len: u64, response_len: u64, gas_limit: u64) -> (r: (
    Result<(), RouterError>,
    u64,
))
    ensures
        r.1 == clamp_u64(spec_query_gas(request_len as nat, response_len as nat)),
        r.0 is Ok <==> r.1 <= gas_limit,
        r.0 is Err ==> r.0 == Result::<(), RouterError>::Err(RouterError::OutOfGas),
{
    let req_part = mul_clamped(GAS_COST_QUERY_REQUEST_MULTIPLIER, request_len);
    let resp_part = mul_clamped(GAS_COST_QUERY_RESPONSE_MULTIPLIER, response_len);
    let cost = GAS_COST_QUERY_FLAT.saturating_add(req_part).saturating_add(resp_part);
    if cost > gas_limit {
        (Err(RouterError::OutOfGas), cost)
    } else {
        (Ok(()), cost)
    }
}

/// Settles an externally produced answer (a cross-contract or custom query
/// result) against the gas rule: within the limit the data passes through
/// untouched, beyond it the router fails with an out-of-gas error and the
/// data is withheld.
pub fn settle_external(response: Vec<u8>, request_len: u64, gas_limit: u64) -> (r: (
    Result<Vec<u8>, RouterError>,
    u64,
))
    ensures
        r.1 == clamp_u64(spec_query_gas(request_len as nat, response@.len())),
        r.1 <= gas_limit ==> (r.0 matches Ok(d) && d@ == response@),
        r.1 > gas_limit ==> r.0 == Result::<Vec<u8>, RouterError>::Err(RouterError::OutOfGas),
{
    let len64 = clamp_len(response.len());
    let (check, cost) = charge_query_gas(request_len, len64, gas_limit);
    match check {
        Ok(_) => (Ok(response), cost),
        Err(e) => (Err(e), cost),
    }
}

/// The product of two gas quantities, clamped into the `u64` range.
fn mul_clamped(a: u64, b: u64) -> (r: u64)
    ensures
        r == clamp_u64(a * b),
{
    proof {
        assert((a as int) * (b as int) <= (u64::MAX as int) * (u64::MAX as int)) by (nonlinear_arith)
            requires
                a <= u64::MAX,
                b <= u64::MAX,
        ;
    }
    let p = (a as u128) * (b as u128);
    if p > u64::MAX as u128 {
        u64::MAX
    } else {
        p as u64
    }
}

/// A byte length as `u64`.
fn clamp_len(n: usize) -> (r: u64)
    ensures
        r == n,
{
    n as u64
}

/// The query router: the bank and staking tables behind one entry point.
#[derive(Debug)]
pub struct StdMockQuerier {
    bank: BankQuerier,
    staking: StakingQuerier,
}

impl StdMockQuerier {
    /// The bank table.
    pub closed spec fn spec_bank(self) -> BankQuerier {
        self.bank
    }

    /// The staking tables.
    pub closed spec fn spec_staking(self) -> StakingQuerier {
        self.staking
    }

    /// The router's invariant: the bank table is well formed.
    pub open spec fn wf(self) -> bool {
        self.spec_bank().wf()
    }

    /// The answer the router computes locally, when the request kind is
    /// answered from the tables.
    pub open spec fn spec_local_answer(self, request: QueryRequest) -> Option<Seq<u8>> {
        match request {
            QueryRequest::Bank(BankQuery::Balance { address, denom }) => Some(
                crate::bank::spec_balance_response_json(
                    denom@,
                    self.spec_bank().balance_of(address@, denom@),
                ),
            ),
            QueryRequest::Bank(BankQuery::AllBalances { address }) => Some(
                crate::bank::spec_all_balance_json(self.spec_bank().coins_of(address@)),
            ),
            QueryRequest::Staking(sq) => Some(self.spec_staking_answer(sq)),
            QueryRequest::Wasm(_) => None,
            QueryRequest::Custom(_) => None,
        }
    }

    /// The staking table's answer for each staking query kind.
    pub open spec fn spec_staking_answer(self, sq: StakingQuery) -> Seq<u8> {
        match sq {
            StakingQuery::BondedDenom => crate::staking::spec_bonded_denom_json(
                self.spec_staking().spec_denom(),
            ),
            StakingQuery::AllValidators => crate::staking::spec_all_validators_json(
                self.spec_staking().spec_validators(),
            ),
            StakingQuery::Validator { address } => crate::staking::spec_validator_response_json(
                crate::staking::find_validator(self.spec_staking().spec_validators(), address@),
            ),
            StakingQuery::AllDelegations { delegator } => crate::staking::spec_all_delegations_json(
                crate::staking::dels_of(self.spec_staking().spec_delegations(), delegator@),
            ),
            StakingQuery::Delegation { delegator, validator } => {
                crate::staking::spec_delegation_response_json(
                    crate::staking::find_delegation(
                        self.spec_staking().spec_delegations(),
                        delegator@,
                        validator@,
                    ),
                )
            },
        }
    }

    /// A router over the given balance configuration and staking tables.
    pub fn new(balances: Vec<(Vec<u8>, Vec<Coin>)>, staking: StakingQuerier) -> (r: StdMockQuerier)
        ensures
            r.wf(),
            r.spec_bank().balances_map() == crate::bank::spec_balances_init(
                crate::bank::balances_input_view(balances@),
            ),
            r.spec_staking() == staking,
    {
        StdMockQuerier { bank: BankQuerier::new(balances), staking }
    }

    /// Sets a new balance for the given address and returns the old balance.
    pub fn update_balance(&mut self, address: Vec<u8>, balance: Vec<Coin>) -> (r: Option<Vec<Coin>>)
        requires
            old(self).wf(),
        ensures
            final(self).wf(),
            final(self).spec_staking() == old(self).spec_staking(),
            final(self).spec_bank().balances_map() == old(self).spec_bank().balances_map().insert(
                address@,
                crate::types::coins_view(balance@),
            ),
            r is Some <==> old(self).spec_bank().balances_map().contains_key(address@),
            r matches Some(v) ==> crate::types::coins_view(v@) == old(
                self,
            ).spec_bank().balances_map()[address@],
    {
        self.bank.update_balance(address, balance)
    }

    /// Multiplexes one request: table-answerable kinds get their answer,
    /// cross-contract and custom kinds are handed back for the caller to
    /// resolve.
    pub fn handle_query(&self, request: &QueryRequest) -> (r: RoutedQuery)
        requires
            self.wf(),
        ensures
            self.spec_local_answer(*request) matches Some(data) ==> (r matches RoutedQuery::Local {
                data: d } && d@ == data),
            request matches QueryRequest::Wasm(WasmQuery::Smart { contract_addr, msg }) ==> (
            r matches RoutedQuery::Contract { contract_addr: c, msg: m } && c@ == contract_addr@
                && m@ == msg@),
            request matches QueryRequest::Custom(payload) ==> (r matches RoutedQuery::Custom {
                payload: p } && p@ == payload@),
    {
        match request {
            QueryRequest::Bank(bq) => RoutedQuery::Local { data: self.bank.query(bq) },
            QueryRequest::Staking(sq) => RoutedQuery::Local { data: self.staking.query(sq) },
            QueryRequest::Wasm(WasmQuery::Smart { contract_addr, msg }) => RoutedQuery::Contract {
                contract_addr: crate::types::copy_bytes(contract_addr.as_slice()),
                msg: crate::types::copy_bytes(msg.as_slice()),
            },
            QueryRequest::Custom(payload) => RoutedQuery::Custom {
                payload: crate::types::copy_bytes(payload.as_slice()),
            },
        }
    }

    /// Routes one request under the gas rule.  A locally answered query is
    /// charged its byte cost and fails with an out-of-gas error, data
    /// withheld, when the cost exceeds the limit; a cross-contract or custom
    /// request is handed back uncharged, to be settled when its answer is in.
    pub fn query(&self, request: &QueryRequest, request_len: u64, gas_limit: u64) -> (r: (
        RoutedQuery,
        u64,
    ))
        requires
            self.wf(),
        ensures
            self.spec_local_answer(*request) matches Some(data) ==> ({
                let cost = clamp_u64(spec_query_gas(request_len as nat, data.len()));
                &&& r.1 == cost
                &&& cost <= gas_limit ==> (r.0 matches RoutedQuery::Local { data: d } && d@
                    == data)
                &&& cost > gas_limit ==> (r.0 matches RoutedQuery::Failed { error } && error
                    is OutOfGas)
            }),
            request matches QueryRequest::Wasm(WasmQuery::Smart { contract_addr, msg }) ==> (
            r.0 matches RoutedQuery::Contract { contract_addr: c, msg: m } && c@ == contract_addr@
                && m@ == msg@ && r.1 == 0),
            request matches QueryRequest::Custom(payload) ==> (r.0 matches RoutedQuery::Custom {
                payload: p } && p@ == payload@ && r.1 == 0),
    {
        let routed = self.handle_query(request);
        match routed {
            RoutedQuery::Local { data } => {
                let len64 = clamp_len(data.len());
                let (check, cost) = charge_query_gas(request_len, len64, gas_limit);
                match check {
                    Ok(_) => (RoutedQuery::Local { data }, cost),
                    Err(e) => (RoutedQuery::Failed { error: e }, cost),
                }
            },
            other => (other, 0),
        }
    }
}

} // verus!
