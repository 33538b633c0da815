//! The plain data the simulator works on: coins, the per-contract execution
//! environment, caller information, response attributes and outbound
//! messages, and the outcomes a backend call can report.  All byte-string
//! data is held as `Vec<u8>`; the application converts to text at its edges.

use vstd::prelude::*;

verus! {

/// An amount of one denomination.
#[derive(Debug)]
pub struct Coin {
    pub denom: Vec<u8>,
    pub amount: u128,
}

/// The simulated block a contract sees.
#[derive(Debug)]
pub struct BlockInfo {
    pub height: u64,
    pub time: u64,
    pub chain_id: Vec<u8>,
}

/// The execution environment bound to one contract instance.
#[derive(Debug)]
pub struct Env {
    pub block: BlockInfo,
    pub contract_addr: Vec<u8>,
}

/// Who calls, and what funds the call attaches.
#[derive(Debug)]
pub struct MessageInfo {
    pub sender: Vec<u8>,
    pub funds: Vec<Coin>,
}

/// A key/value pair a contract call reports.
#[derive(Debug)]
pub struct Attribute {
    pub key: Vec<u8>,
    pub value: Vec<u8>,
}

/// An outbound message in a contract's response.  The engine resolves only
/// the cross-contract execute variant itself; anything else is opaque to it.
#[derive(Debug)]
pub enum CosmosMsg {
    /// Ask the environment to execute another contract.
    WasmExecute { contract_addr: Vec<u8>, msg: Vec<u8>, funds: Vec<Coin> },
    /// Any other message kind, carried through unresolved.
    Opaque { description: Vec<u8> },
}

/// What a contract returns from a successful state-changing call.
#[derive(Debug)]
pub struct Response {
    pub attributes: Vec<Attribute>,
    pub messages: Vec<CosmosMsg>,
}

/// What the backend reports for an instantiate or execute call.
#[derive(Debug)]
pub enum CallOutcome {
    /// The contract ran and returned a response.
    Response(Response),
    /// The contract ran and returned its own error.
    ContractErr(Vec<u8>),
    /// The backend itself failed: a trap, a malformed payload, gas exhaustion.
    VmErr(Vec<u8>),
}

/// What the backend reports for a query call.
#[derive(Debug)]
pub enum QueryOutcome {
    /// The query returned raw bytes.
    Data(Vec<u8>),
    /// The contract returned its own error.
    ContractErr(Vec<u8>),
    /// The backend itself failed.
    VmErr(Vec<u8>),
}

/// The view of one coin: its denomination bytes and amount.
pub open spec fn coin_view(c: Coin) -> (Seq<u8>, u128) {
    (c.denom@, c.amount)
}

/// The view of a coin sequence.
pub open spec fn coins_view(s: Seq<Coin>) -> Seq<(Seq<u8>, u128)> {
    Seq::new(s.len(), |i: int| coin_view(s[i]))
}

/// The view of one attribute: its key and value bytes.
pub open spec fn attr_view(a: Attribute) -> (Seq<u8>, Seq<u8>) {
    (a.key@, a.value@)
}

/// The view of an attribute sequence.
pub open spec fn attrs_view(s: Seq<Attribute>) -> Seq<(Seq<u8>, Seq<u8>)> {
    Seq::new(s.len(), |i: int| attr_view(s[i]))
}

/// A copy of a byte string.
pub fn copy_bytes(v: &[u8]) -> (r: Vec<u8>)
    ensures
        r@ == v@,
{
    vstd::slice::slice_to_vec(v)
}

/// A copy of one coin.
pub fn copy_coin(c: &Coin) -> (r: Coin)
    ensures
        coin_view(r) == coin_view(*c),
{
    Coin { denom: copy_bytes(c.denom.as_slice()), amount: c.amount }
}

/// A copy of a coin list, coin by coin.
pub fn copy_coins(cs: &Vec<Coin>) -> (r: Vec<Coin>)
    ensures
        coins_view(r@) == coins_view(cs@),
{
    let mut out: Vec<Coin> = Vec::new();
    let mut i: usize = 0;
    while i < cs.len()
        invariant
            i <= cs@.len(),
            out@.len() == i,
            forall|j: int| 0 <= j < i ==> coin_view(#[trigger] out@[j]) == coin_view(cs@[j]),
        decreases cs@.len() - i,
    {
        out.push(copy_coin(&cs[i]));
        i = i + 1;
    }
    proof {
        assert(coins_view(out@) =~= coins_view(cs@));
    }
    out
}

/// Whether two byte strings hold the same bytes.
pub fn bytes_eq(a: &[u8], b: &[u8]) -> (r: bool)
    ensures
        r <==> a@ == b@,
{
    match crate::keys::compare_keys(a, b) {
        crate::keys::KeyOrdering::Equal => true,
        _ => false,
    }
}

} // verus!
