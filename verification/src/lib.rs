//! Game rules, randomness, input routing, layout and frame rendering of a
//! terminal Flappy-Bird-like game, with their contracts proved by Verus.

pub mod rng;
pub mod rules;
pub mod text;
pub mod scene;
pub mod course;
pub mod input;
pub mod layout;
pub mod term;
pub mod cli;
pub mod laws;
