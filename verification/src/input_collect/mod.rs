//! Guided input collection: the prompt plan, the per-control capture policy, the collection
//! state machine, and the candidate capabilities document it emits.
pub mod codes;
pub mod plan;
pub mod source;
pub mod emit;
pub mod analysis;
pub mod collect;
pub mod session;
