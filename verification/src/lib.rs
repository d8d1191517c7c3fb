//! A polygon-rewriting engine: a small textual grammar describes how a
//! polygon of a given vertex count is rewritten, generation by generation,
//! into derived polygons built from its vertices, edge subdivision points
//! and centroid.

pub mod apply;
pub mod frac;
pub mod geom;
pub mod grammar;
pub mod laws;
pub mod rule;
pub mod symbols;
pub mod text;
