//! A small proof-of-stake ledger: transactions, hash-linked blocks, a
//! stake-weighted proposer election and the chain that ties them together.

pub mod encoding;
pub mod digest;
pub mod transaction;
pub mod validator;
pub mod rng;
pub mod pos;
pub mod block;
pub mod blockchain;
