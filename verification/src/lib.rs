//! A verified engine for Conway's Game of Life on a fixed-size toroidal grid.
//!
//! The grid owns a flat, row-major sequence of cell states. Each generation
//! step replaces the whole state at once, every new value computed from the
//! previous generation only. Neighbor addressing wraps around both edges, so
//! the topology is a torus. A small coordinate-mapping helper turns a pointer
//! position in window pixels into a grid cell for interactive editing.

pub mod coords;
pub mod grid;
pub mod shaders;
