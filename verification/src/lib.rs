//! A supply-chain tracking ledger: a registry of shipments and an
//! append-only, monotonically indexed log of shipping events that drive
//! shipment lifecycle transitions, together with a product catalog and a
//! bounded membership set.
//!
//! All state lives in explicit, verified data structures; the surrounding
//! execution environment is expected to sequence calls, authenticate the
//! caller, supply the current time, and persist the state between calls.

pub mod account_set;
pub mod assoc;
pub mod catalog;
pub mod ledger;
pub mod shipment;
pub mod simple_map;
