//! Tile addresses. The framework only ever asks a source for a single
//! tile by `(x, y, z)`.
use vstd::prelude::*;

verus! {

/// One tile request. Coordinates are tile-space integers at zoom
/// level `z`.
#[derive(Clone, Copy, Debug, PartialEq, Eq, Hash, Structural)]
pub struct TileKey {
    pub x: u32,
    pub y: u32,
    pub z: u8,
}

} // verus!
