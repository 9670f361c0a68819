//! Resource-contract and metered-billing engine for a decentralized compute
//! marketplace.
//!
//! Users rent node capacity and optional public IPv4 addresses by opening a
//! contract, nodes periodically report consumption, and the engine converts
//! consumption into deterministic cost, deducts funds at a fixed cadence,
//! splits proceeds among stakeholders, and automatically decommissions
//! contracts that can no longer pay.

pub mod billing;
pub mod contracts;
pub mod engine;
pub mod fixed;
pub mod ledger;
pub mod pool;
pub mod schedule;
pub mod types;
