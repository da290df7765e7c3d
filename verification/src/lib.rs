//! Ingestion core for a market-data warehouse: surrogate-key
//! allocation, reconciliation of freshly fetched observation batches
//! against what storage already holds, an all-or-nothing bulk load, and
//! the per-source pipeline that ties them together while isolating each
//! entity's failures.

pub mod cli;
pub mod crypto;
pub mod dates;
pub mod errors;
pub mod exchange;
pub mod key_tracker;
pub mod pipeline;
pub mod rest_api;
pub mod rows;
pub mod stock;
pub mod store;
