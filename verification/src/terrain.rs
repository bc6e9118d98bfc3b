//! Terrain piece orientation.
use vstd::prelude::*;

verus! {

/// How a terrain piece is mirrored before it is rotated and placed.
#[derive(Debug, Clone, Copy, PartialEq, Eq, Structural)]
pub enum Mirror {
    Unmirrored,
    Horizontal,
    Vertical,
}

impl Default for Mirror {
    /// Unmirrored.
    fn default() -> (r: Self)
        ensures
            r == Mirror::Unmirrored,
    {
        Mirror::Unmirrored
    }
}

} // verus!
