//! Verified engine for an N×N×N twisty-cube puzzle.
//!
//! The cube holds six N×N grids of colored tiles. Every transform — face
//! turns, whole-cube rotations and inner-layer slices — is built from two
//! verified primitives (a 90° face rotation and a four-way strip exchange),
//! and every transform is proved to be a permutation with the group laws a
//! cube obeys: each move undone by its primed counterpart, four quarter
//! turns the identity. A small verified parser turns move notation such as
//! `3R2 M' x` into a validated, count-expanded move list.

pub mod color;
pub mod cube;
pub mod face;
pub mod grid;
pub mod laws;
pub mod moves;
pub mod state;
pub mod tiles;

pub use color::Color;
pub use cube::Cube;
pub use cube::Direction;
pub use face::Face;
pub use moves::Move;
