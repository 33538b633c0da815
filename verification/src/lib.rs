//! A verified core for a smart-contract simulation harness: a deterministic
//! address codec, a gas-metered key/value store with snapshot iterators, a
//! chain query router over mocked bank and staking tables, and a contract
//! registry with a recursive dispatch engine.  The sandboxed bytecode backend
//! that actually runs contract code is an external collaborator: the engine
//! exposes its calls as an action/event protocol that the surrounding
//! application drives.

pub mod addr;
pub mod assoc;
pub mod bank;
pub mod engine;
pub mod helper;
pub mod json;
pub mod keys;
pub mod querier;
pub mod sim;
pub mod staking;
pub mod storage;
pub mod types;
