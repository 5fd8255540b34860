//! Core of a companion server for golden-value regression testing.
//!
//! A script under test reports values and pass/fail outcomes over a tiny
//! binary protocol instead of comparing against files itself. This crate
//! holds the verified core of that server: the wire codec for the request
//! envelope, the hierarchical key model and its mapping to storage paths,
//! the key-addressed value store, the append-only ledger of reported
//! failures, and the dispatcher that routes decoded requests and renders
//! response markers. Transport, process orchestration and disk access are
//! thin unverified glue around these pieces.

pub mod codec;
pub mod dispatch;
pub mod key;
pub mod ledger;
pub mod store;
