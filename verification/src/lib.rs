//! Fee quotes for the indexers of a deployment.
//!
//! The crate holds the rules of a two-stage pipeline. The first stage finds the
//! indexers that serve a deployment and collects the cost model each of them
//! declares; the second prices one query against every collected cost model.
//! Network traffic and the cost model interpreter stay with the caller: the two
//! stages are state machines that say what to do next and take the outcome back.
//!
//! - [`discovery`]: the query to the registry, and the set of endpoints that
//!   its answer names.
//! - [`collector`]: one cost model record, or none, for every endpoint.
//! - [`evaluator`]: one fee, or none, for every collected entry.
//! - [`record`]: the cost model record.
//! - [`sorted_map`] and [`order`]: the map in key order that carries the
//!   results of both stages, and the order of its keys.
//! - [`address`]: endpoint addresses in canonical form.

pub mod address;
pub mod collector;
pub mod discovery;
pub mod evaluator;
pub mod order;
pub mod record;
pub mod sorted_map;
