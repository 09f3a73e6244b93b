//! A verified core for the classic pixel-fire cellular automaton: a grid of
//! heat intensities in `0..=36`, a per-cell decay/drift propagation step, and
//! a fixed palette that turns an intensity into an RGBA pixel. Rendering and
//! input live outside; the library owns the buffer and the rules.

pub mod error;
pub mod grid;
pub mod laws;
pub mod palette;
pub mod propagate;
