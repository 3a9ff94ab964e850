//! A small UTXO blockchain node: blocks mined by proof of work, signed transactions, an
//! index of unspent outputs, wallets, and the decisions of a peer-to-peer node, each with a
//! contract that Verus proves.

pub mod assoc;
pub mod block;
pub mod blockchain;
pub mod config;
pub mod consistency;
pub mod error;
pub mod primitives;
pub mod server;
pub mod transaction;
pub mod utxoset;
pub mod wallets;
