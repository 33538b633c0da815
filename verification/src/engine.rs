//! Contract instances and the registry.  An instance binds one loaded
//! contract to its execution environment, a dedicated gas-metered store and
//! a query router; the registry maps addresses to instances and survives
//! hot reloads by copying a replaced instance's store into its successor.
//! The bytecode backend that actually runs contract code is external: the
//! simulation engine in this crate hands it work through actions and takes
//! its results back as events.

use vstd::prelude::*;
use vstd::string::StringSliceAdditionalSpecFns;

use crate::json::{lit_bytes, push_lit, spec_json_string};
use crate::bank::spec_balances_init;
use crate::querier::{RoutedQuery, StdMockQuerier};
use crate::staking::StakingQuerier;
use crate::storage::MockStorage;
use crate::types::{bytes_eq, copy_bytes, Coin, Env, BlockInfo};

verus! {

/// Gas a fresh instance may spend over its lifetime.
pub const DEFAULT_GAS_LIMIT: u64 = 500_000_000_000_000;

/// The initial bank balance configured for a fresh instance's own address.
pub const DEFAULT_CONTRACT_BALANCE: u128 = 10_000_000_000_000_000;

/// The block height a fresh environment starts at.
pub const DEFAULT_BLOCK_HEIGHT: u64 = 12_345;

/// The block time, fixed for a run.
pub const DEFAULT_BLOCK_TIME: u64 = 1_571_797_419;

/// The chain's staking and balance denomination.
pub open spec fn spec_denom() -> Seq<u8> {
    ("orai").spec_bytes()
}

/// The chain id, constant for a run.
pub open spec fn spec_chain_id() -> Seq<u8> {
    ("Oraichain").spec_bytes()
}

/// The denomination as bytes.
pub fn default_denom() -> (r: Vec<u8>)
    ensures
        r@ == spec_denom(),
{
    lit_bytes("orai")
}

/// The chain id as bytes.
pub fn default_chain_id() -> (r: Vec<u8>)
    ensures
        r@ == spec_chain_id(),
{
    lit_bytes("Oraichain")
}

/// An error surfaced to the caller as JSON.
pub open spec fn spec_error_json(msg: Seq<u8>) -> Seq<u8> {
    ("{\"error\":").spec_bytes() + spec_json_string(msg) + ("}").spec_bytes()
}

/// Builds the error JSON for a message.
pub fn error_json(msg: &[u8]) -> (r: Vec<u8>)
    ensures
        r@ == spec_error_json(msg@),
{
    let mut out: Vec<u8> = Vec::new();
    push_lit(&mut out, "{\"error\":");
    crate::json::push_json_string(&mut out, msg);
    push_lit(&mut out, "}");
    proof {
        assert(out@ =~= spec_error_json(msg@));
    }
    out
}

/// One loaded contract: its address, environment, store, router and gas
/// accounting.
#[derive(Debug)]
pub struct ContractInstance {
    address: Vec<u8>,
    env: Env,
    pub storage: MockStorage,
    pub querier: StdMockQuerier,
    gas_limit: u64,
    gas_remaining: u64,
}

impl ContractInstance {
    /// The address this instance is bound to.
    pub closed spec fn spec_address(self) -> Seq<u8> {
        self.address@
    }

    /// The current block height of this instance's environment.
    pub closed spec fn spec_height(self) -> u64 {
        self.env.block.height
    }

    /// The block time of this instance's environment.
    pub closed spec fn spec_time(self) -> u64 {
        self.env.block.time
    }

    /// The chain id of this instance's environment.
    pub closed spec fn spec_env_chain_id(self) -> Seq<u8> {
        self.env.block.chain_id@
    }

    /// The contract address named by this instance's environment.
    pub closed spec fn spec_env_addr(self) -> Seq<u8> {
        self.env.contract_addr@
    }

    /// The declared gas limit.
    pub closed spec fn spec_gas_limit(self) -> u64 {
        self.gas_limit
    }

    /// The gas still available.
    pub closed spec fn spec_gas_remaining(self) -> u64 {
        self.gas_remaining
    }

    /// The instance's store.
    pub closed spec fn spec_store(self) -> MockStorage {
        self.storage
    }

    /// The instance's query router.
    pub closed spec fn spec_querier(self) -> StdMockQuerier {
        self.querier
    }

    /// An instance is well formed when its store and router are, its gas
    /// remaining never exceeds its limit, and its environment names its own
    /// address.
    pub open spec fn wf(self) -> bool {
        &&& self.spec_store().wf()
        &&& self.spec_querier().wf()
        &&& self.spec_gas_remaining() <= self.spec_gas_limit()
        &&& self.spec_env_addr() == self.spec_address()
    }

    /// A fresh instance bound to `address`, carrying the given store: an
    /// empty one on first load, a copy of the predecessor's on replacement.
    /// The environment starts at the given height, and the bank table opens
    /// with the instance's own default balance.
    pub fn new_instance(address: &[u8], storage: MockStorage, height: u64) -> (r: ContractInstance)
        requires
            storage.wf(),
        ensures
            r.wf(),
            r.spec_address() == address@,
            r.spec_height() == height,
            r.spec_time() == DEFAULT_BLOCK_TIME,
            r.spec_env_chain_id() == spec_chain_id(),
            r.spec_store() == storage,
            r.spec_gas_limit() == DEFAULT_GAS_LIMIT,
            r.spec_gas_remaining() == DEFAULT_GAS_LIMIT,
            r.spec_querier().spec_bank().balances_map() == Map::<Seq<u8>, Seq<(Seq<u8>, u128)>>::empty()
                .insert(address@, seq![(spec_denom(), DEFAULT_CONTRACT_BALANCE)]),
    {
        let env = Env {
            block: BlockInfo {
                height,
                time: DEFAULT_BLOCK_TIME,
                chain_id: default_chain_id(),
            },
            contract_addr: copy_bytes(address),
        };
        let mut coins: Vec<Coin> = Vec::new();
        coins.push(Coin { denom: default_denom(), amount: DEFAULT_CONTRACT_BALANCE });
        let mut balances: Vec<(Vec<u8>, Vec<Coin>)> = Vec::new();
        let ghost coins_snapshot = coins@;
        balances.push((copy_bytes(address), coins));
        let querier = StdMockQuerier::new(
            balances,
            StakingQuerier::new(default_denom(), Vec::new(), Vec::new()),
        );
        proof {
            let iv = crate::bank::balances_input_view(balances@);

            assert(iv.len() == 1);
            assert(iv.drop_last() =~= Seq::<(Seq<u8>, Seq<(Seq<u8>, u128)>)>::empty());
            assert(crate::types::coins_view(coins_snapshot) =~= seq![
                (spec_denom(), DEFAULT_CONTRACT_BALANCE),
            ]);
            assert(iv.last() == iv[0]);
            assert(iv[0].0 == address@);
            assert(iv[0].1 == crate::types::coins_view(coins_snapshot));
            assert(spec_balances_init(iv.drop_last()) =~= Map::<
                Seq<u8>,
                Seq<(Seq<u8>, u128)>,
            >::empty());
            assert(spec_balances_init(iv) == spec_balances_init(iv.drop_last()).insert(
                iv.last().0,
                iv.last().1,
            ));
            assert(querier.spec_bank().balances_map() =~= Map::<
                Seq<u8>,
                Seq<(Seq<u8>, u128)>,
            >::empty().insert(address@, seq![(spec_denom(), DEFAULT_CONTRACT_BALANCE)]));
        }
        ContractInstance {
            address: copy_bytes(address),
            env,
            storage,
            querier,
            gas_limit: DEFAULT_GAS_LIMIT,
            gas_remaining: DEFAULT_GAS_LIMIT,
        }
    }

    /// The address as bytes.
    pub fn address(&self) -> (r: &Vec<u8>)
        ensures
            r@ == self.spec_address(),
    {
        &self.address
    }

    /// The current block height.
    pub fn height(&self) -> (r: u64)
        ensures
            r == self.spec_height(),
    {
        self.env.block.height
    }

    /// The gas still available.
    pub fn gas_remaining(&self) -> (r: u64)
        ensures
            r == self.spec_gas_remaining(),
    {
        self.gas_remaining
    }

    /// Declares a new gas limit, refilling the remaining gas to it.
    pub fn set_gas_limit(&mut self, limit: u64)
        requires
            old(self).wf(),
        ensures
            final(self).wf(),
            final(self).spec_gas_limit() == limit,
            final(self).spec_gas_remaining() == limit,
            final(self).spec_address() == old(self).spec_address(),
            final(self).spec_height() == old(self).spec_height(),
            final(self).spec_store() == old(self).spec_store(),
            final(self).spec_querier() == old(self).spec_querier(),
    {
        self.gas_limit = limit;
        self.gas_remaining = limit;
    }

    /// A copy of the environment, as handed to the backend.
    pub fn env_copy(&self) -> (r: Env)
        ensures
            r.block.height == self.spec_height(),
            r.block.time == self.spec_time(),
            r.block.chain_id@ == self.spec_env_chain_id(),
            r.contract_addr@ == self.spec_env_addr(),
    {
        Env {
            block: BlockInfo {
                height: self.env.block.height,
                time: self.env.block.time,
                chain_id: copy_bytes(self.env.block.chain_id.as_slice()),
            },
            contract_addr: copy_bytes(self.env.contract_addr.as_slice()),
        }
    }

    /// Routes a query on behalf of this instance's contract, with the
    /// instance's remaining gas as the limit.
    pub fn query(&self, request: &crate::querier::QueryRequest, request_len: u64) -> (r: (
        RoutedQuery,
        u64,
    ))
        requires
            self.wf(),
        ensures
            self.spec_querier().spec_local_answer(*request) matches Some(data) ==> ({
                let cost = crate::storage::clamp_u64(
                    crate::querier::spec_query_gas(request_len as nat, data.len()),
                );
                &&& r.1 == cost
                &&& cost <= self.spec_gas_remaining() ==> (r.0 matches RoutedQuery::Local {
                    data: d } && d@ == data)
                &&& cost > self.spec_gas_remaining() ==> (r.0 matches RoutedQuery::Failed { error }
                    && error is OutOfGas)
            }),
            request matches crate::querier::QueryRequest::Wasm(
                crate::querier::WasmQuery::Smart { contract_addr, msg },
            ) ==> (r.0 matches RoutedQuery::Contract { contract_addr: c, msg: m } && c@
                == contract_addr@ && m@ == msg@),
            request matches crate::querier::QueryRequest::Custom(payload) ==> (
            r.0 matches RoutedQuery::Custom { payload: p } && p@ == payload@),
    {
        self.querier.query(request, request_len, self.gas_remaining)
    }

    /// Takes the backend's report of gas remaining after a call.  Gas never
    /// grows back: a report above the current remaining is ignored.
    pub fn report_gas_remaining(&mut self, g: u64)
        requires
            old(self).wf(),
        ensures
            final(self).wf(),
            final(self).spec_gas_remaining() == if g <= old(self).spec_gas_remaining() {
                g
            } else {
                old(self).spec_gas_remaining()
            },
            final(self).spec_address() == old(self).spec_address(),
            final(self).spec_height() == old(self).spec_height(),
            final(self).spec_gas_limit() == old(self).spec_gas_limit(),
            final(self).spec_store() == old(self).spec_store(),
            final(self).spec_querier() == old(self).spec_querier(),
    {
        if g <= self.gas_remaining {
            self.gas_remaining = g;
        }
    }

    /// Marks a successful state-changing call: the block height advances by
    /// exactly one, and the iterators opened during the call are released.
    /// The stored entries and pending store events are untouched.
    pub fn record_success(&mut self)
        requires
            old(self).wf(),
        ensures
            final(self).wf(),
            final(self).spec_height() == spec_bump_height(old(self).spec_height()),
            final(self).spec_address() == old(self).spec_address(),
            final(self).spec_gas_remaining() == old(self).spec_gas_remaining(),
            final(self).spec_gas_limit() == old(self).spec_gas_limit(),
            final(self).spec_querier() == old(self).spec_querier(),
            final(self).spec_store().as_map() == old(self).spec_store().as_map(),
            final(self).spec_store().entries() == old(self).spec_store().entries(),
            final(self).spec_store().pending_events() == old(self).spec_store().pending_events(),
            final(self).spec_store().iters().len() == 0,
    {
        if self.env.block.height < u64::MAX {
            self.env.block.height = self.env.block.height + 1;
        }
        self.storage.clear_iterators();
    }

    /// Releases the iterators opened during a call that did not succeed:
    /// they are scoped to the call's lifetime whatever its outcome.  The
    /// stored entries and pending store events are untouched.
    pub fn release_iterators(&mut self)
        requires
            old(self).wf(),
        ensures
            final(self).wf(),
            final(self).spec_height() == old(self).spec_height(),
            final(self).spec_address() == old(self).spec_address(),
            final(self).spec_gas_remaining() == old(self).spec_gas_remaining(),
            final(self).spec_gas_limit() == old(self).spec_gas_limit(),
            final(self).spec_querier() == old(self).spec_querier(),
            final(self).spec_store().as_map() == old(self).spec_store().as_map(),
            final(self).spec_store().entries() == old(self).spec_store().entries(),
            final(self).spec_store().pending_events() == old(self).spec_store().pending_events(),
            final(self).spec_store().iters().len() == 0,
    {
        self.storage.clear_iterators();
    }

    /// Burns `gas` from the remaining allowance, stopping at zero.
    pub fn consume_gas(&mut self, gas: u64)
        requires
            old(self).wf(),
        ensures
            final(self).wf(),
            final(self).spec_gas_remaining() == if old(self).spec_gas_remaining() >= gas {
                (old(self).spec_gas_remaining() - gas) as u64
            } else {
                0u64
            },
            final(self).spec_address() == old(self).spec_address(),
            final(self).spec_height() == old(self).spec_height(),
            final(self).spec_gas_limit() == old(self).spec_gas_limit(),
            final(self).spec_store() == old(self).spec_store(),
            final(self).spec_querier() == old(self).spec_querier(),
    {
        if self.gas_remaining >= gas {
            self.gas_remaining = self.gas_remaining - gas;
        } else {
            self.gas_remaining = 0;
        }
    }
}

/// The next block height: one more, held at the top of the range.
pub open spec fn spec_bump_height(h: u64) -> u64 {
    if h < u64::MAX {
        (h + 1) as u64
    } else {
        h
    }
}

/// Two successful state-changing calls advance an instance's block height
/// by exactly two, block by block; the engine's step contract advances the
/// height by one bump per successful instantiate or execute and leaves it
/// untouched on queries and failures.
pub proof fn lemma_two_successes_advance_height_by_two(h: u64)
    requires
        h + 2 <= u64::MAX,
    ensures
        spec_bump_height(spec_bump_height(h)) == h + 2,
{
}

/// The process-wide map of address to contract instance.
#[derive(Debug)]
pub struct Registry {
    instances: Vec<ContractInstance>,
}

/// Whether some instance in `s` is bound to address `a`.
pub open spec fn reg_has(s: Seq<ContractInstance>, a: Seq<u8>) -> bool {
    exists|i: int| 0 <= i < s.len() && (#[trigger] s[i]).spec_address() == a
}

/// The index of the instance bound to `a`, when one exists.
pub open spec fn reg_index(s: Seq<ContractInstance>, a: Seq<u8>) -> int {
    choose|i: int| 0 <= i < s.len() && (#[trigger] s[i]).spec_address() == a
}

impl Registry {
    /// The instances, in load order.
    pub closed spec fn instances(self) -> Seq<ContractInstance> {
        self.instances@
    }

    /// Each address is bound at most once and every instance is well formed.
    pub open spec fn wf(self) -> bool {
        &&& forall|i: int, j: int|
            0 <= i < j < self.instances().len() ==> (#[trigger] self.instances()[i]).spec_address()
                != (#[trigger] self.instances()[j]).spec_address()
        &&& forall|i: int|
            0 <= i < self.instances().len() ==> (#[trigger] self.instances()[i]).wf()
    }

    /// Whether a contract is registered under `a`.
    pub open spec fn has_contract(self, a: Seq<u8>) -> bool {
        reg_has(self.instances(), a)
    }

    /// An empty registry.
    pub fn new() -> (r: Registry)
        ensures
            r.wf(),
            r.instances().len() == 0,
    {
        Registry { instances: Vec::new() }
    }

    /// How many contracts are registered.
    pub fn len(&self) -> (r: usize)
        ensures
            r == self.instances().len(),
    {
        self.instances.len()
    }

    /// The index of the instance bound to `addr`, when one is registered.
    pub fn find(&self, addr: &[u8]) -> (r: Option<usize>)
        requires
            self.wf(),
        ensures
            r matches Some(i) ==> i < self.instances().len() && self.instances()[
                i as int
            ].spec_address() == addr@ && self.has_contract(addr@),
            r is None ==> !self.has_contract(addr@),
    {
        let mut i: usize = 0;
        while i < self.instances.len()
            invariant
                self.wf(),
                i <= self.instances().len(),
                forall|j: int|
                    0 <= j < i ==> (#[trigger] self.instances()[j]).spec_address() != addr@,
            decreases self.instances().len() - i,
        {
            if bytes_eq(self.instances[i].address.as_slice(), addr) {
                return Some(i);
            }
            i = i + 1;
        }
        proof {
            assert(!reg_has(self.instances(), addr@));
        }
        None
    }

    /// A shared borrow of the instance at `index`.
    pub fn instance(&self, index: usize) -> (r: &ContractInstance)
        requires
            index < self.instances().len(),
        ensures
            *r == self.instances()[index as int],
    {
        &self.instances[index]
    }

    /// A mutable borrow of the instance at `index`, through which the
    /// application drives that contract's store and gas between engine
    /// steps.
    pub fn instance_mut(&mut self, index: usize) -> (r: &mut ContractInstance)
        requires
            index < old(self).instances().len(),
        ensures
            *r == old(self).instances()[index as int],
            final(self).instances() == old(self).instances().update(index as int, *final(r)),
    {
        &mut self.instances[index]
    }

    /// Resolves the target of a cross-contract query: the index of the
    /// registered instance exactly when one is bound to `addr`, and the
    /// router's no-such-contract error exactly when none is.
    pub fn resolve_contract(&self, addr: &[u8]) -> (r: Result<usize, crate::querier::RouterError>)
        requires
            self.wf(),
        ensures
            self.has_contract(addr@) <==> r is Ok,
            r matches Ok(i) ==> i < self.instances().len() && self.instances()[
                i as int
            ].spec_address() == addr@,
            !self.has_contract(addr@) <==> (r matches Err(e) && e matches
                crate::querier::RouterError::NoSuchContract { addr: a } && a@ == addr@),
    {
        match self.find(addr) {
            Some(i) => Ok(i),
            None => Err(crate::querier::RouterError::NoSuchContract { addr: copy_bytes(addr) }),
        }
    }

    /// Takes the backend's gas report for the instance at `index`.
    pub fn report_gas(&mut self, index: usize, g: u64)
        requires
            old(self).wf(),
            index < old(self).instances().len(),
        ensures
            final(self).wf(),
            final(self).instances().len() == old(self).instances().len(),
            forall|j: int|
                0 <= j < old(self).instances().len() && j != index ==> final(self).instances()[j]
                    == old(self).instances()[j],
            ({
                let it = final(self).instances()[index as int];
                let ot = old(self).instances()[index as int];
                &&& it.spec_gas_remaining() == if g <= ot.spec_gas_remaining() {
                    g
                } else {
                    ot.spec_gas_remaining()
                }
                &&& it.spec_address() == ot.spec_address()
                &&& it.spec_height() == ot.spec_height()
                &&& it.spec_gas_limit() == ot.spec_gas_limit()
                &&& it.spec_store() == ot.spec_store()
                &&& it.spec_querier() == ot.spec_querier()
            }),
    {
        let ghost olds = self.instances();
        let inst = &mut self.instances[index];
        inst.report_gas_remaining(g);
        proof {
            lemma_registry_frame(olds, final(self).instances(), index as int);
        }
    }

    /// Burns gas from the instance at `index`, stopping at zero.
    pub fn consume_gas(&mut self, index: usize, gas: u64)
        requires
            old(self).wf(),
            index < old(self).instances().len(),
        ensures
            final(self).wf(),
            final(self).instances().len() == old(self).instances().len(),
            forall|j: int|
                0 <= j < old(self).instances().len() && j != index ==> final(self).instances()[j]
                    == old(self).instances()[j],
            ({
                let it = final(self).instances()[index as int];
                let ot = old(self).instances()[index as int];
                &&& it.spec_gas_remaining() == if ot.spec_gas_remaining() >= gas {
                    (ot.spec_gas_remaining() - gas) as u64
                } else {
                    0u64
                }
                &&& it.spec_address() == ot.spec_address()
                &&& it.spec_height() == ot.spec_height()
                &&& it.spec_gas_limit() == ot.spec_gas_limit()
                &&& it.spec_store() == ot.spec_store()
                &&& it.spec_querier() == ot.spec_querier()
            }),
    {
        let ghost olds = self.instances();
        let inst = &mut self.instances[index];
        inst.consume_gas(gas);
        proof {
            lemma_registry_frame(olds, final(self).instances(), index as int);
        }
    }

    /// Releases the call-scoped iterators of the instance at `index`.
    pub fn release_iterators(&mut self, index: usize)
        requires
            old(self).wf(),
            index < old(self).instances().len(),
        ensures
            final(self).wf(),
            final(self).instances().len() == old(self).instances().len(),
            forall|j: int|
                0 <= j < old(self).instances().len() && j != index ==> final(self).instances()[j]
                    == old(self).instances()[j],
            ({
                let it = final(self).instances()[index as int];
                let ot = old(self).instances()[index as int];
                &&& it.spec_height() == ot.spec_height()
                &&& it.spec_address() == ot.spec_address()
                &&& it.spec_gas_remaining() == ot.spec_gas_remaining()
                &&& it.spec_gas_limit() == ot.spec_gas_limit()
                &&& it.spec_querier() == ot.spec_querier()
                &&& it.spec_store().as_map() == ot.spec_store().as_map()
                &&& it.spec_store().entries() == ot.spec_store().entries()
                &&& it.spec_store().pending_events() == ot.spec_store().pending_events()
                &&& it.spec_store().iters().len() == 0
            }),
    {
        let ghost olds = self.instances();
        let inst = &mut self.instances[index];
        inst.release_iterators();
        proof {
            lemma_registry_frame(olds, final(self).instances(), index as int);
        }
    }

    /// Marks a successful state-changing call on the instance at `index`.
    pub fn record_success(&mut self, index: usize)
        requires
            old(self).wf(),
            index < old(self).instances().len(),
        ensures
            final(self).wf(),
            final(self).instances().len() == old(self).instances().len(),
            forall|j: int|
                0 <= j < old(self).instances().len() && j != index ==> final(self).instances()[j]
                    == old(self).instances()[j],
            ({
                let it = final(self).instances()[index as int];
                let ot = old(self).instances()[index as int];
                &&& it.spec_height() == spec_bump_height(ot.spec_height())
                &&& it.spec_address() == ot.spec_address()
                &&& it.spec_gas_remaining() == ot.spec_gas_remaining()
                &&& it.spec_gas_limit() == ot.spec_gas_limit()
                &&& it.spec_querier() == ot.spec_querier()
                &&& it.spec_store().as_map() == ot.spec_store().as_map()
                &&& it.spec_store().entries() == ot.spec_store().entries()
                &&& it.spec_store().pending_events() == ot.spec_store().pending_events()
                &&& it.spec_store().iters().len() == 0
            }),
    {
        let ghost olds = self.instances();
        let inst = &mut self.instances[index];
        inst.record_success();
        proof {
            lemma_registry_frame(olds, final(self).instances(), index as int);
        }
    }

    /// Loads a contract under `addr`, or replaces the one already there.  A
    /// first load starts with an empty store; a replacement copies the prior
    /// instance's entries into the new one, and keeps its block height, so
    /// in-flight simulated chain state survives a binary update.
    pub fn load_or_replace(&mut self, addr: &[u8])
        requires
            old(self).wf(),
        ensures
            final(self).wf(),
            final(self).has_contract(addr@),
            !old(self).has_contract(addr@) ==> ({
                &&& final(self).instances().len() == old(self).instances().len() + 1
                &&& final(self).instances().drop_last() == old(self).instances()
                &&& final(self).instances().last().spec_address() == addr@
                &&& final(self).instances().last().spec_store().as_map() == Map::<
                    Seq<u8>,
                    Seq<u8>,
                >::empty()
                &&& final(self).instances().last().spec_height() == DEFAULT_BLOCK_HEIGHT
            }),
            old(self).has_contract(addr@) ==> ({
                let i = reg_index(old(self).instances(), addr@);
                &&& final(self).instances().len() == old(self).instances().len()
                &&& (forall|j: int|
                    0 <= j < old(self).instances().len() && j != i ==> final(self).instances()[j]
                        == old(self).instances()[j])
                &&& final(self).instances()[i].spec_address() == addr@
                &&& final(self).instances()[i].spec_store().as_map() == old(self).instances()[
                    i
                ].spec_store().as_map()
                &&& final(self).instances()[i].spec_height() == old(self).instances()[
                    i
                ].spec_height()
                &&& final(self).instances()[i].spec_gas_remaining() == DEFAULT_GAS_LIMIT
            }),
    {
        let found = self.find(addr);
        match found {
            Some(i) => {
                proof {
                    lemma_reg_index(self.instances(), i as int);
                }
                let copied = self.instances[i].storage.copy_contents();
                let height = self.instances[i].env.block.height;
                let fresh = ContractInstance::new_instance(addr, copied, height);
                let ghost olds = self.instances();
                proof {
                    lemma_reg_index(olds, i as int);
                }
                self.instances[i] = fresh;
                proof {
                    assert forall|a: int, b: int|
                        0 <= a < b < self.instances().len() implies (
                    #[trigger] self.instances()[a]).spec_address() != (
                    #[trigger] self.instances()[b]).spec_address() by {
                        if a != i && b != i {
                            assert(self.instances()[a] == olds[a]);
                            assert(self.instances()[b] == olds[b]);
                        } else if a == i {
                            assert(self.instances()[b] == olds[b]);
                            assert(olds[b].spec_address() != addr@);
                        } else {
                            assert(self.instances()[a] == olds[a]);
                            assert(olds[a].spec_address() != addr@);
                        }
                    }
                    assert((self.instances()[i as int]).spec_address() == addr@);
                    assert(reg_has(self.instances(), addr@));
                    assert forall|j: int| 0 <= j < self.instances().len() implies (
                    #[trigger] self.instances()[j]).wf() by {
                        if j != i {
                            assert(self.instances()[j] == olds[j]);
                        }
                    }
                }
            },
            None => {
                let fresh = ContractInstance::new_instance(
                    addr,
                    MockStorage::new(),
                    DEFAULT_BLOCK_HEIGHT,
                );
                let ghost olds = self.instances();
                self.instances.push(fresh);
                proof {
                    assert forall|a: int, b: int|
                        0 <= a < b < self.instances().len() implies (
                    #[trigger] self.instances()[a]).spec_address() != (
                    #[trigger] self.instances()[b]).spec_address() by {
                        if b < self.instances().len() - 1 {
                            assert(self.instances()[a] == olds[a]);
                            assert(self.instances()[b] == olds[b]);
                        } else {
                            assert(self.instances()[a] == olds[a]);
                            assert(!reg_has(olds, addr@));
                        }
                    }
                    assert(self.instances().drop_last() =~= olds);
                    assert((self.instances()[self.instances().len() - 1]).spec_address() == addr@);
                    assert(reg_has(self.instances(), addr@));
                }
            },
        }
    }
}

/// Changing one instance without changing its address keeps the registry
/// well formed.
proof fn lemma_registry_frame(olds: Seq<ContractInstance>, news: Seq<ContractInstance>, i: int)
    requires
        forall|a: int, b: int|
            0 <= a < b < olds.len() ==> (#[trigger] olds[a]).spec_address() != (
            #[trigger] olds[b]).spec_address(),
        0 <= i < olds.len(),
        news.len() == olds.len(),
        forall|j: int| 0 <= j < olds.len() && j != i ==> news[j] == olds[j],
        news[i].spec_address() == olds[i].spec_address(),
    ensures
        forall|a: int, b: int|
            0 <= a < b < news.len() ==> (#[trigger] news[a]).spec_address() != (
            #[trigger] news[b]).spec_address(),
{
    assert forall|a: int, b: int| 0 <= a < b < news.len() implies (
    #[trigger] news[a]).spec_address() != (#[trigger] news[b]).spec_address() by {
        assert(news[a].spec_address() == olds[a].spec_address());
        assert(news[b].spec_address() == olds[b].spec_address());
    }
}

/// With unique addresses, the instance at index `i` is the one its address
/// resolves to.
pub proof fn lemma_reg_index(s: Seq<ContractInstance>, i: int)
    requires
        forall|a: int, b: int|
            0 <= a < b < s.len() ==> (#[trigger] s[a]).spec_address() != (
            #[trigger] s[b]).spec_address(),
        0 <= i < s.len(),
    ensures
        reg_has(s, s[i].spec_address()),
        reg_index(s, s[i].spec_address()) == i,
{
    assert(reg_has(s, s[i].spec_address()));
}

} // verus!
