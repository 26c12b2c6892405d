//! Procedural parkour generation: a fixed-point movement simulator, a
//! weighted block-palette resolver, segment generation and placement,
//! and a per-player session state machine with score and combo tracking.

pub mod errors;
pub mod generation;
pub mod generator;
pub mod geom;
pub mod palette;
pub mod physics;
pub mod rng;
pub mod session;
pub mod traverse;
pub mod trig;
pub mod utils;
pub mod weighted;
pub mod world;

use vstd::prelude::*;

verus! {

} // verus!
