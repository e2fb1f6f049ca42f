//! Broad-phase overlap detection for a 2D scene of moving circles and squares.
//!
//! Coordinates live on an integer grid, time advances in fixed steps, and
//! every step clears the collision flags, moves the shapes, rebuilds a box
//! index and flags each shape whose box meets another shape's box.
pub mod geometry;
pub mod index;
pub mod world;
pub mod laws;
pub mod spawn;
