//! grep+: hybrid lexical and semantic code search.
//!
//! The library holds the decisions and data handling of the search tool,
//! each with its contract: routing a query, parsing `grep` output, merging
//! and pinning candidates, MinHash sketches, query expansion, the JIT
//! reheat planner, index and model bookkeeping, and evaluation matching.
//! Processes, files, networks and floating-point scoring live outside it.
use vstd::prelude::*;

pub mod text;
pub mod types;
pub mod query;
pub mod paths;
pub mod config;
pub mod router;
pub mod engine;
pub mod order;
pub mod laser;
pub mod sketch;
pub mod catalog;
pub mod models;
pub mod grep;
pub mod search;
pub mod fusion;
pub mod eval;
pub mod index;
pub mod download;
pub mod onnx;

verus! {
} // verus!
