//! Conway's Game of Life on a fixed-size toroidal grid, with a
//! double-buffered generation engine whose rule is proved correct.
use vstd::prelude::*;

pub mod rule;
pub mod cells;

verus! {

} // verus!
