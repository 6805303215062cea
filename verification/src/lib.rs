//! Subscription reconciliation engine for a node's RPC service.
//!
//! Clients subscribe to a live feed of block headers and receive a
//! gap-free, duplicate-free stream of notifications starting from a chosen
//! historical point. The engine merges a point-in-time replay from durable
//! storage with an unbounded live feed (`reconcile`), multiplexes many
//! subscriptions and plain calls over one connection (`mux`), and tracks
//! each subscription's lifecycle (`registry`).

pub mod context;
pub mod flow;
pub mod get_block_with_tx_hashes;
pub mod history;
pub mod mux;
pub mod reconcile;
pub mod registry;
pub mod types;
