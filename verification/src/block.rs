use vstd::prelude::*;

verus! {

/// A single voxel block type. Values line up with the Minecraft 1.8.9
/// numeric block ids for the small set known so far; unknown ids still
/// round-trip through the inner value.
#[derive(Debug, Clone, Copy, PartialEq, Eq, Structural, Default)]
pub struct BlockId(pub u16);

// Raw ids of the blocks known so far (`BlockId(STONE)` is stone).
pub const AIR: u16 = 0;
pub const STONE: u16 = 1;
pub const GRASS: u16 = 2;
pub const DIRT: u16 = 3;
pub const COBBLESTONE: u16 = 4;
pub const WOOD_PLANKS: u16 = 5;
pub const BEDROCK: u16 = 7;
pub const SAND: u16 = 12;
pub const LOG: u16 = 17;
pub const LEAVES: u16 = 18;

impl BlockId {
    pub fn is_air(self) -> (r: bool)
        ensures
            r == (self.0 == 0),
    {
        self.0 == 0
    }

    /// Every block known so far is a full opaque cube, so anything that
    /// is not air is opaque.
    pub fn is_opaque(self) -> (r: bool)
        ensures
            r == (self.0 != 0),
    {
        !self.is_air()
    }
}

} // verus!
