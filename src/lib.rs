//! Reads rhythm-game charts in the TJA text format into timed notes, and mixes
//! hit sounds onto a backing track at those times.
//!
//! Times are whole nanoseconds, tempos and other decimals are millionths, and
//! audio samples are fixed-point integers (see `render::ONE`).
use vstd::prelude::*;

pub mod balloon;
pub mod directives;
pub mod model;
pub mod number;
pub mod parser;
pub mod render;
pub mod text;
pub mod timing;

pub use parser::{ParserState, TJAParser};

verus! {

} // verus!
