//! Acquisition of a listener's top tracks and artists: the timeframe grid, the
//! collector that joins the per-cell responses into one snapshot, the
//! cache-backed resolver that turns bare identifiers into full records, and the
//! assembler that puts resolved records back into their timeframe buckets.
//!
//! Nothing in this crate performs I/O. Every network, cache and database
//! operation is described as a value that the embedding program carries out.

pub mod error;
pub mod timeframe;
pub mod models;
pub mod urls;
pub mod acquire;
pub mod acquire_laws;
pub mod assemble;
pub mod rank_order;
pub mod history;
pub mod auth;
pub mod resolver_model;
pub mod resolver;
pub mod resolver_laws;
