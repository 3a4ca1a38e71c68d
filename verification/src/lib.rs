//! A provenance-graph engine for machine-learning models: starting from
//! one model identifier it walks the chain of upstream artifacts the model
//! was derived from or trained on, labels each edge with a relation
//! inferred in a fixed priority order, normalizes free-text licenses to
//! canonical identifiers, and assembles the result into a bill-of-materials
//! document.
//!
//! The engine is deterministic over recorded metadata-source outcomes: the
//! driver performs the network calls the resolver asks for and records
//! them, and the resolver runs over the recorded outcomes alone.
use vstd::prelude::*;

pub mod component_generator;
pub mod generator;
pub mod license_handler;
pub mod model_analyzer;
pub mod models;
pub mod text;

verus! {

/// Adds two counters; the caller keeps the sum within the machine word.
pub fn add(left: u64, right: u64) -> (r: u64)
    requires
        left + right <= u64::MAX,
    ensures
        r == left + right,
{
    left + right
}

} // verus!
