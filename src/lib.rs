//! Spatial indexing for diffusion-limited aggregation on an integer lattice.

pub mod point;
pub mod quad_tree;
pub mod cover_tree;
pub mod flake;
pub mod generate;
