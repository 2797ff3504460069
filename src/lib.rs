//! Generative line art from a shrunken Voronoi tessellation: site generation,
//! the centroid-and-shrink transform of cells, and assembly of the drawing path.
//!
//! Coordinates are fixed-point integers: one drawing unit is `UNIT` steps.

pub mod geometry;
pub mod path;
pub mod sites;
