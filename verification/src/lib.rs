//! Persistent chain-state storage: key layout, tip records and the rules of
//! the height index.

pub mod block;
pub mod bytes;
pub mod chain;
pub mod error;
pub mod hash;
pub mod keys;
pub mod kv;
pub mod ser;
pub mod store;
pub mod tip;
