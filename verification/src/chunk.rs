use vstd::prelude::*;

use crate::block::{BlockId, AIR, BEDROCK, COBBLESTONE, DIRT, GRASS, LEAVES, LOG, SAND, STONE, WOOD_PLANKS};

verus! {

pub const CHUNK_SIZE: usize = 16;

/// Number of blocks in one 16x16x16 section.
pub const CHUNK_VOLUME: usize = 4096;

/// Light levels are 0-15, the range of the wire's 4-bit nibble arrays;
/// stored unpacked here, one byte per block.
pub const MAX_LIGHT: u8 = 15;

/// Position of block (x, y, z) in a section's storage (Y-Z-X order, the
/// order the 1.8 chunk section format uses on the wire).
pub open spec fn chunk_index(x: int, y: int, z: int) -> int {
    (y * 16 + z) * 16 + x
}

pub open spec fn in_chunk(x: int, y: int, z: int) -> bool {
    0 <= x < 16 && 0 <= y < 16 && 0 <= z < 16
}

/// The light level `level` is stored as: clamped to `MAX_LIGHT`.
pub open spec fn clamp_light(level: u8) -> u8 {
    if level > MAX_LIGHT {
        MAX_LIGHT
    } else {
        level
    }
}

/// The hardcoded demo terrain: bedrock, three stone and three dirt
/// layers under a grass top with a 5x5 sand patch in one corner, a small
/// tree (log trunk at (8, 8..12, 8) with leaves around it) and a
/// cobblestone slab under a plank slab at x 12..15, z 2..5.
pub open spec fn demo_block(x: int, y: int, z: int) -> BlockId {
    if y == 0 {
        BlockId(BEDROCK)
    } else if 1 <= y < 4 {
        BlockId(STONE)
    } else if 4 <= y < 7 {
        BlockId(DIRT)
    } else if y == 7 {
        if x < 5 && z < 5 {
            BlockId(SAND)
        } else {
            BlockId(GRASS)
        }
    } else if x == 8 && z == 8 && 8 <= y < 12 {
        BlockId(LOG)
    } else if 10 <= y < 12 && 6 <= x <= 10 && 6 <= z <= 10 {
        BlockId(LEAVES)
    } else if y == 12 && 7 <= x <= 9 && 7 <= z <= 9 {
        BlockId(LEAVES)
    } else if 12 <= x < 15 && 2 <= z < 5 && y == 8 {
        BlockId(COBBLESTONE)
    } else if 12 <= x < 15 && 2 <= z < 5 && y == 9 {
        BlockId(WOOD_PLANKS)
    } else {
        BlockId(AIR)
    }
}

fn demo_block_exec(x: usize, y: usize, z: usize) -> (b: BlockId)
    ensures
        b == demo_block(x as int, y as int, z as int),
{
    if y == 0 {
        BlockId(BEDROCK)
    } else if 1 <= y && y < 4 {
        BlockId(STONE)
    } else if 4 <= y && y < 7 {
        BlockId(DIRT)
    } else if y == 7 {
        if x < 5 && z < 5 {
            BlockId(SAND)
        } else {
            BlockId(GRASS)
        }
    } else if x == 8 && z == 8 && 8 <= y && y < 12 {
        BlockId(LOG)
    } else if 10 <= y && y < 12 && 6 <= x && x <= 10 && 6 <= z && z <= 10 {
        BlockId(LEAVES)
    } else if y == 12 && 7 <= x && x <= 9 && 7 <= z && z <= 9 {
        BlockId(LEAVES)
    } else if 12 <= x && x < 15 && 2 <= z && z < 5 && y == 8 {
        BlockId(COBBLESTONE)
    } else if 12 <= x && x < 15 && 2 <= z && z < 5 && y == 9 {
        BlockId(WOOD_PLANKS)
    } else {
        BlockId(AIR)
    }
}

/// A single 16x16x16 chunk section with per-block block light and sky
/// light.
pub struct Chunk {
    blocks: Vec<BlockId>,
    block_light: Vec<u8>,
    sky_light: Vec<u8>,
}

impl Chunk {
    /// Blocks in storage order.
    pub closed spec fn blocks(&self) -> Seq<BlockId> {
        self.blocks@
    }

    pub closed spec fn block_lights(&self) -> Seq<u8> {
        self.block_light@
    }

    pub closed spec fn sky_lights(&self) -> Seq<u8> {
        self.sky_light@
    }

    /// Every storage array holds exactly one entry per block, and every
    /// light level is at most `MAX_LIGHT`.
    pub open spec fn wf(&self) -> bool {
        &&& self.blocks().len() == CHUNK_VOLUME
        &&& self.block_lights().len() == CHUNK_VOLUME
        &&& self.sky_lights().len() == CHUNK_VOLUME
        &&& forall|i: int| 0 <= i < CHUNK_VOLUME ==> #[trigger] self.block_lights()[i] <= MAX_LIGHT
        &&& forall|i: int| 0 <= i < CHUNK_VOLUME ==> #[trigger] self.sky_lights()[i] <= MAX_LIGHT
    }

    /// The block at (x, y, z); air outside the section.
    pub open spec fn block_at(&self, x: int, y: int, z: int) -> BlockId {
        if in_chunk(x, y, z) {
            self.blocks()[chunk_index(x, y, z)]
        } else {
            BlockId(AIR)
        }
    }

    /// Block light at (x, y, z); 0 outside the section.
    pub open spec fn block_light_at(&self, x: int, y: int, z: int) -> u8 {
        if in_chunk(x, y, z) {
            self.block_lights()[chunk_index(x, y, z)]
        } else {
            0
        }
    }

    /// Sky light at (x, y, z); `MAX_LIGHT` (open sky) outside the section.
    pub open spec fn sky_light_at(&self, x: int, y: int, z: int) -> u8 {
        if in_chunk(x, y, z) {
            self.sky_lights()[chunk_index(x, y, z)]
        } else {
            MAX_LIGHT
        }
    }

    /// An all-air section whose light has not been received yet (every
    /// level 0).
    pub fn empty() -> (c: Self)
        ensures
            c.wf(),
            forall|i: int| 0 <= i < CHUNK_VOLUME ==> #[trigger] c.blocks()[i] == BlockId(AIR),
            forall|i: int| 0 <= i < CHUNK_VOLUME ==> #[trigger] c.block_lights()[i] == 0,
            forall|i: int| 0 <= i < CHUNK_VOLUME ==> #[trigger] c.sky_lights()[i] == 0,
    {
        let mut blocks: Vec<BlockId> = Vec::new();
        let mut block_light: Vec<u8> = Vec::new();
        let mut sky_light: Vec<u8> = Vec::new();
        let mut i: usize = 0;
        while i < CHUNK_VOLUME
            invariant
                i <= CHUNK_VOLUME,
                blocks@.len() == i,
                block_light@.len() == i,
                sky_light@.len() == i,
                forall|j: int| 0 <= j < i ==> #[trigger] blocks@[j] == BlockId(AIR),
                forall|j: int| 0 <= j < i ==> #[trigger] block_light@[j] == 0,
                forall|j: int| 0 <= j < i ==> #[trigger] sky_light@[j] == 0,
            decreases CHUNK_VOLUME - i,
        {
            blocks.push(BlockId(AIR));
            block_light.push(0);
            sky_light.push(0);
            i = i + 1;
        }
        Chunk { blocks, block_light, sky_light }
    }

    /// A section from its three storage arrays (storage order).
    pub(crate) fn from_parts(blocks: Vec<BlockId>, block_light: Vec<u8>, sky_light: Vec<u8>) -> (c: Self)
        requires
            blocks@.len() == CHUNK_VOLUME,
            block_light@.len() == CHUNK_VOLUME,
            sky_light@.len() == CHUNK_VOLUME,
            forall|i: int| 0 <= i < CHUNK_VOLUME ==> #[trigger] block_light@[i] <= MAX_LIGHT,
            forall|i: int| 0 <= i < CHUNK_VOLUME ==> #[trigger] sky_light@[i] <= MAX_LIGHT,
        ensures
            c.wf(),
            c.blocks() == blocks@,
            c.block_lights() == block_light@,
            c.sky_lights() == sky_light@,
    {
        Chunk { blocks, block_light, sky_light }
    }

    fn index(x: usize, y: usize, z: usize) -> (i: usize)
        requires
            chunk_index(x as int, y as int, z as int) < CHUNK_VOLUME,
        ensures
            i == chunk_index(x as int, y as int, z as int),
    {
        (y * CHUNK_SIZE + z) * CHUNK_SIZE + x
    }

    pub fn get(&self, x: usize, y: usize, z: usize) -> (b: BlockId)
        requires
            self.wf(),
        ensures
            b == self.block_at(x as int, y as int, z as int),
    {
        if x >= CHUNK_SIZE || y >= CHUNK_SIZE || z >= CHUNK_SIZE {
            return BlockId(AIR);
        }
        self.blocks[Self::index(x, y, z)]
    }

    /// Writes storage slot `(y * 16 + z) * 16 + x`, which must lie inside
    /// the section (writing past the end would be an out-of-bounds
    /// index).
    pub fn set(&mut self, x: usize, y: usize, z: usize, block: BlockId)
        requires
            old(self).wf(),
            chunk_index(x as int, y as int, z as int) < CHUNK_VOLUME,
        ensures
            final(self).wf(),
            final(self).blocks() == old(self).blocks().update(
                chunk_index(x as int, y as int, z as int),
                block,
            ),
            final(self).block_lights() == old(self).block_lights(),
            final(self).sky_lights() == old(self).sky_lights(),
    {
        let i = Self::index(x, y, z);
        self.blocks.set(i, block);
    }

    pub fn block_light(&self, x: usize, y: usize, z: usize) -> (l: u8)
        requires
            self.wf(),
        ensures
            l == self.block_light_at(x as int, y as int, z as int),
    {
        if x >= CHUNK_SIZE || y >= CHUNK_SIZE || z >= CHUNK_SIZE {
            return 0;
        }
        self.block_light[Self::index(x, y, z)]
    }

    /// Stores `level` clamped to `MAX_LIGHT`.
    pub fn set_block_light(&mut self, x: usize, y: usize, z: usize, level: u8)
        requires
            old(self).wf(),
            chunk_index(x as int, y as int, z as int) < CHUNK_VOLUME,
        ensures
            final(self).wf(),
            final(self).block_lights() == old(self).block_lights().update(
                chunk_index(x as int, y as int, z as int),
                clamp_light(level),
            ),
            final(self).blocks() == old(self).blocks(),
            final(self).sky_lights() == old(self).sky_lights(),
    {
        let i = Self::index(x, y, z);
        let clamped = if level > MAX_LIGHT {
            MAX_LIGHT
        } else {
            level
        };
        self.block_light.set(i, clamped);
    }

    pub fn sky_light(&self, x: usize, y: usize, z: usize) -> (l: u8)
        requires
            self.wf(),
        ensures
            l == self.sky_light_at(x as int, y as int, z as int),
    {
        if x >= CHUNK_SIZE || y >= CHUNK_SIZE || z >= CHUNK_SIZE {
            return MAX_LIGHT;
        }
        self.sky_light[Self::index(x, y, z)]
    }

    /// Stores `level` clamped to `MAX_LIGHT`.
    pub fn set_sky_light(&mut self, x: usize, y: usize, z: usize, level: u8)
        requires
            old(self).wf(),
            chunk_index(x as int, y as int, z as int) < CHUNK_VOLUME,
        ensures
            final(self).wf(),
            final(self).sky_lights() == old(self).sky_lights().update(
                chunk_index(x as int, y as int, z as int),
                clamp_light(level),
            ),
            final(self).blocks() == old(self).blocks(),
            final(self).block_lights() == old(self).block_lights(),
    {
        let i = Self::index(x, y, z);
        let clamped = if level > MAX_LIGHT {
            MAX_LIGHT
        } else {
            level
        };
        self.sky_light.set(i, clamped);
    }
    /// The hardcoded demo terrain (`demo_block`), lit as a plain outdoor
    /// scene: full sky light everywhere, no block light.
    pub fn hardcoded_demo() -> (c: Self)
        ensures
            c.wf(),
            forall|x: int, y: int, z: int|
                in_chunk(x, y, z) ==> #[trigger] c.block_at(x, y, z) == demo_block(x, y, z),
            forall|i: int| 0 <= i < CHUNK_VOLUME ==> #[trigger] c.block_lights()[i] == 0,
            forall|i: int| 0 <= i < CHUNK_VOLUME ==> #[trigger] c.sky_lights()[i] == MAX_LIGHT,
    {
        let mut blocks: Vec<BlockId> = Vec::new();
        let mut block_light: Vec<u8> = Vec::new();
        let mut sky_light: Vec<u8> = Vec::new();
        let mut x: usize = 0;
        let mut y: usize = 0;
        let mut z: usize = 0;
        let mut i: usize = 0;
        while i < CHUNK_VOLUME
            invariant
                i <= CHUNK_VOLUME,
                x < 16,
                z < 16,
                y <= 16,
                i == chunk_index(x as int, y as int, z as int),
                i < CHUNK_VOLUME ==> y < 16,
                blocks@.len() == i,
                block_light@.len() == i,
                sky_light@.len() == i,
                forall|a: int, b: int, c: int|
                    in_chunk(a, b, c) && chunk_index(a, b, c) < i ==> #[trigger] blocks@[chunk_index(
                        a,
                        b,
                        c,
                    )] == demo_block(a, b, c),
                forall|j: int| 0 <= j < i ==> #[trigger] block_light@[j] == 0,
                forall|j: int| 0 <= j < i ==> #[trigger] sky_light@[j] == MAX_LIGHT,
            decreases CHUNK_VOLUME - i,
        {
            blocks.push(demo_block_exec(x, y, z));
            block_light.push(0);
            sky_light.push(MAX_LIGHT);
            i = i + 1;
            if x + 1 < 16 {
                x = x + 1;
            } else {
                x = 0;
                if z + 1 < 16 {
                    z = z + 1;
                } else {
                    z = 0;
                    y = y + 1;
                }
            }
        }
        Chunk { blocks, block_light, sky_light }
    }
}

/// What a read gives back of a write: after `set(x, y, z, block)` the
/// block at (x, y, z) is `block`, and every other position keeps its
/// block.
pub proof fn lemma_set_then_get(before: Chunk, after: Chunk, x: int, y: int, z: int, block: BlockId)
    requires
        before.wf(),
        in_chunk(x, y, z),
        after.blocks() == before.blocks().update(chunk_index(x, y, z), block),
    ensures
        after.block_at(x, y, z) == block,
        forall|a: int, b: int, c: int|
            (a, b, c) != (x, y, z) ==> #[trigger] after.block_at(a, b, c) == before.block_at(a, b, c),
{
}

/// What a read gives back of a light write: after
/// `set_block_light(x, y, z, level)` the block light at (x, y, z) is
/// `level` clamped to `MAX_LIGHT`, and every other position keeps its
/// light.
pub proof fn lemma_set_light_then_get(before: Chunk, after: Chunk, x: int, y: int, z: int, level: u8)
    requires
        before.wf(),
        in_chunk(x, y, z),
        after.block_lights() == before.block_lights().update(chunk_index(x, y, z), clamp_light(level)),
    ensures
        after.block_light_at(x, y, z) == clamp_light(level),
        forall|a: int, b: int, c: int|
            (a, b, c) != (x, y, z) ==> #[trigger] after.block_light_at(a, b, c) == before.block_light_at(
                a,
                b,
                c,
            ),
{
}

} // verus!
