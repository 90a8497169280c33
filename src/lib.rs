//! A branching-dialogue graph: the graph store with its structural rules,
//! the validator and the projection for game-engine export.

pub mod graph;
pub mod id;
pub mod types;
pub mod validation;
pub mod export;
