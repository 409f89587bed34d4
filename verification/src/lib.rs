//! The decisions behind data dissemination in a DAG-based consensus node: which headers, batches
//! and proposals to wait for, whom to ask for them, what to answer a peer that asks, and how
//! client transactions become batches.

pub mod asynchrony;
pub mod batch_laws;
pub mod batch_maker;
pub mod committee;
pub mod digest_map;
pub mod encoding;
pub mod header_waiter;
pub mod helper;
pub mod helper_laws;
pub mod numbers;
pub mod order;
pub mod partition;
pub mod primary_connector;
pub mod request_laws;
pub mod store_keys;
pub mod types;
pub mod waiter_laws;
pub mod waiter_model;
