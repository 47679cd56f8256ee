//! Voxel terrain streaming and surface extraction.
//!
//! The crate keeps a store of fixed-size voxel chunks around a moving
//! viewpoint and turns each chunk into a triangle mesh with marching cubes.
//! Every function carries a contract that Verus checks.

pub mod chunk;
pub mod chunk_manager;
pub mod chunk_store;
pub mod coord;
pub mod mesh;
pub mod scheduler;
pub mod seq_facts;
pub mod tables;
pub mod voxel;
