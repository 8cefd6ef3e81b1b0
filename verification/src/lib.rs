//! A node-graph image-processing engine core.
//!
//! A processing graph is a set of typed filter nodes joined by typed
//! connections.  This crate provides the value model, the graph store with
//! its structural invariants, topology analysis, the validation pipeline,
//! the execution scheduler with caching and progress tracking, and the
//! tiled processing substrate for images larger than the memory budget.
//!
//! Filters that compute on pixels, files or floats plug in from outside
//! through the `FilterNode` trait; everything here is verified.

pub mod cache;
pub mod chunked;
pub mod contexts;
pub mod engine;
pub mod errors;
pub mod filters;
pub mod graph;
pub mod nodes;
pub mod ports;
pub mod progress;
pub mod strutil;
pub mod topology;
pub mod validation;
pub mod values;
