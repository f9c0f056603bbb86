//! The rules of a three-dimensional falling-block game: figures, the well they fall
//! into, plane clearing, rotations and the game state that ties them together.
use vstd::prelude::*;

pub mod geometry;
pub mod figure;
pub mod well;
pub mod orientation;
pub mod symmetry;
pub mod moves;
pub mod settings;
pub mod bag;
pub mod game;
pub mod laws;

verus! {
} // verus!
