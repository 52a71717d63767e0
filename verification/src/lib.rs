//! Wrap a flat triangulated mesh onto a cylinder.
//!
//! The library works on fixed-point integer coordinates: a coordinate is an
//! `i64` holding the real value times a scale chosen by the caller. All of
//! the geometry pipeline — bounds scanning, adaptive midpoint subdivision,
//! the planar-to-cylindrical vertex mapping, and triangle-normal
//! recomputation — is verified here. Only the trigonometric evaluation and
//! the mesh file handling stay with the caller.

pub mod bounds;
pub mod geometry;
pub mod normal;
pub mod pipeline;
pub mod subdivide;
pub mod wrap;

pub use geometry::Triangle;
pub use geometry::Vec3;
