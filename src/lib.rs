//! A multi-token ledger: fungible and unique-unit tokens held by many
//! accounts, with delegated transfer allowances and viewing keys that guard
//! private reads.

pub mod contract;
pub mod laws;
pub mod ledger;
pub mod outside;
pub mod state;
pub mod table;

pub use contract::{handle, init, query, try_give_permission};
