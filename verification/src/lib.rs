//! Chaincraft: verified core logic of a blockchain prototyping framework.

pub mod text;
pub mod json;
pub mod canonical_laws;
pub mod hashing;
pub mod state_memento;
pub mod net;
pub mod error;
pub mod shared;
pub mod shared_object;
pub mod json_map;
pub mod byte_map;
pub mod storage;
pub mod merkle_state;
pub mod core_objects;
pub mod nat_traversal;
pub mod node;
pub mod shared_registry;
