//! Structures related to tile animations.

use vstd::prelude::*;

verus! {

/// A frame of a tile animation.
#[derive(Debug, PartialEq, Eq, Clone, Copy, Structural)]
pub struct Frame {
    /// The local ID of a tile within the parent tileset.
    pub tile_id: u32,
    /// How long (in milliseconds) this frame should be displayed before advancing to the next frame.
    pub duration: u32,
}

} // verus!
