//! Streaming adapter around a block-oriented binary-delta codec: a windowed
//! cache that serves random-access blocks of a reference stream read once,
//! and the decisions of the loop that pumps input, codec signals and output.
use vstd::prelude::*;

pub mod driver;
pub mod window;

verus! {

} // verus!
