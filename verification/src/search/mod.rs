pub mod history;
pub mod move_picker;
pub mod params;

pub use params::Params;

use vstd::prelude::*;

verus! {

/// The deepest ply the search reaches.
pub const MAX_PLY: usize = 256;

/// A search score.
#[derive(Clone, Copy, PartialEq, Eq, Structural, Debug)]
pub struct Score(pub i32);

} // verus!
