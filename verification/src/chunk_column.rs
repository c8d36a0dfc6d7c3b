use vstd::prelude::*;

use crate::block::{BlockId, AIR};
use crate::chunk::{chunk_index, in_chunk, Chunk, CHUNK_SIZE, CHUNK_VOLUME, MAX_LIGHT, clamp_light};

verus! {

/// Number of 16x16x16 sections stacked in a 1.8.9 chunk column.
pub const SECTIONS_PER_COLUMN: usize = 16;

/// World height in blocks (0..256).
pub const WORLD_HEIGHT: usize = 256;

/// The blocks of a section that was never received: all air.
pub open spec fn empty_blocks() -> Seq<BlockId> {
    Seq::new(CHUNK_VOLUME as nat, |i: int| BlockId(AIR))
}

/// The light of a freshly allocated section: all 0.
pub open spec fn zero_lights() -> Seq<u8> {
    Seq::new(CHUNK_VOLUME as nat, |i: int| 0u8)
}

/// How `ChunkColumn::set_block(x, y, z, block)` turns `old` into `new`:
/// nothing happens at or above `WORLD_HEIGHT`; otherwise the section
/// holding `y` exists afterwards (allocated all air with light 0 when it
/// was missing), one storage slot of it holds `block`, and every other
/// section is untouched.
pub open spec fn set_block_post(old: ChunkColumn, new: ChunkColumn, x: int, y: int, z: int, block: BlockId) -> bool {
    &&& new.column_x() == old.column_x()
    &&& new.column_z() == old.column_z()
    &&& y >= WORLD_HEIGHT ==> new.sections() == old.sections()
    &&& y < WORLD_HEIGHT ==> {
        let s = y / 16;
        &&& new.sections()[s] is Some
        &&& new.section_blocks(s) == old.section_blocks(s).update(chunk_index(x, y % 16, z), block)
        &&& new.section_block_lights(s) == old.section_block_lights(s)
        &&& new.section_sky_lights(s) == old.section_sky_lights(s)
        &&& forall|t: int| 0 <= t < SECTIONS_PER_COLUMN && t != s ==> #[trigger] new.sections()[t] == old.sections()[t]
    }
}

/// A vertical stack of up to 16 chunk sections at (chunk_x, chunk_z), as
/// the 1.8.9 Chunk Data packet lays it out: a bitmask selects which
/// sections are present, and a missing section is all air.
pub struct ChunkColumn {
    pub chunk_x: i32,
    pub chunk_z: i32,
    sections: [Option<Chunk>; 16],
}

impl ChunkColumn {
    pub closed spec fn sections(&self) -> Seq<Option<Chunk>> {
        self.sections@
    }

    /// The column's chunk x coordinate: the public `chunk_x` field. (The
    /// private `sections` field makes Verus keep the struct's fields out
    /// of specifications outside this module; this names the field there.)
    pub closed spec fn column_x(&self) -> i32 {
        self.chunk_x
    }

    /// The column's chunk z coordinate: the public `chunk_z` field.
    pub closed spec fn column_z(&self) -> i32 {
        self.chunk_z
    }

    /// Chunk coordinates `(chunk_x, chunk_z)` of this column.
    pub fn key(&self) -> (k: (i32, i32))
        ensures
            k == (self.column_x(), self.column_z()),
    {
        (self.chunk_x, self.chunk_z)
    }

    /// Every present section is well formed.
    pub open spec fn wf(&self) -> bool {
        &&& self.sections().len() == SECTIONS_PER_COLUMN
        &&& forall|s: int|
            0 <= s < SECTIONS_PER_COLUMN ==> (#[trigger] self.sections()[s] matches Some(c)
                ==> c.wf())
    }

    /// Blocks of section `s`, all air when it is missing.
    pub open spec fn section_blocks(&self, s: int) -> Seq<BlockId> {
        match self.sections()[s] {
            Some(c) => c.blocks(),
            None => empty_blocks(),
        }
    }

    /// Block light of section `s`, all 0 when it is missing.
    pub open spec fn section_block_lights(&self, s: int) -> Seq<u8> {
        match self.sections()[s] {
            Some(c) => c.block_lights(),
            None => zero_lights(),
        }
    }

    /// Sky light of section `s`, all 0 when it is missing (what a newly
    /// allocated section starts with).
    pub open spec fn section_sky_lights(&self, s: int) -> Seq<u8> {
        match self.sections()[s] {
            Some(c) => c.sky_lights(),
            None => zero_lights(),
        }
    }

    /// The block at column-local (x, z) and world height y: air above the
    /// world, in a missing section, or outside 0..16 horizontally.
    pub open spec fn block_at(&self, x: int, y: int, z: int) -> BlockId {
        if 0 <= y < WORLD_HEIGHT {
            match self.sections()[y / 16] {
                Some(c) => c.block_at(x, y % 16, z),
                None => BlockId(AIR),
            }
        } else {
            BlockId(AIR)
        }
    }

    /// `(block_light, sky_light)` at (x, y, z). Above the world and in a
    /// missing section this is open sky: `(0, MAX_LIGHT)`.
    pub open spec fn light_at(&self, x: int, y: int, z: int) -> (u8, u8) {
        if 0 <= y < WORLD_HEIGHT {
            match self.sections()[y / 16] {
                Some(c) => (c.block_light_at(x, y % 16, z), c.sky_light_at(x, y % 16, z)),
                None => (0, MAX_LIGHT),
            }
        } else {
            (0, MAX_LIGHT)
        }
    }

    /// A column with no sections at all.
    pub fn empty(chunk_x: i32, chunk_z: i32) -> (c: Self)
        ensures
            c.wf(),
            c.column_x() == chunk_x,
            c.column_z() == chunk_z,
            forall|s: int| 0 <= s < SECTIONS_PER_COLUMN ==> #[trigger] c.sections()[s] is None,
    {
        ChunkColumn {
            chunk_x,
            chunk_z,
            sections: [
                None,
                None,
                None,
                None,
                None,
                None,
                None,
                None,
                None,
                None,
                None,
                None,
                None,
                None,
                None,
                None,
            ],
        }
    }

    /// The section at index `section_y`, if present (`None` also past
    /// the top of the column).
    pub fn section(&self, section_y: usize) -> (r: Option<&Chunk>)
        requires
            self.wf(),
        ensures
            section_y < SECTIONS_PER_COLUMN ==> r == match self.sections()[section_y as int] {
                Some(c) => Some(&c),
                None => None::<&Chunk>,
            },
            section_y >= SECTIONS_PER_COLUMN ==> r is None,
    {
        if section_y >= SECTIONS_PER_COLUMN {
            return None;
        }
        self.sections[section_y].as_ref()
    }

    /// The section at `section_y`, allocated empty first if it is missing.
    pub fn section_mut(&mut self, section_y: usize) -> (r: &mut Chunk)
        requires
            old(self).wf(),
            section_y < SECTIONS_PER_COLUMN,
        ensures
            r.wf(),
            r.blocks() == old(self).section_blocks(section_y as int),
            r.block_lights() == old(self).section_block_lights(section_y as int),
            r.sky_lights() == old(self).section_sky_lights(section_y as int),
            final(self).sections() == old(self).sections().update(
                section_y as int,
                Some(*final(r)),
            ),
            final(self).column_x() == old(self).column_x(),
            final(self).column_z() == old(self).column_z(),
    {
        let slot = &mut self.sections[section_y];
        if slot.is_none() {
            let fresh = Chunk::empty();
            proof {
                assert(fresh.blocks() =~= empty_blocks());
                assert(fresh.block_lights() =~= zero_lights());
                assert(fresh.sky_lights() =~= zero_lights());
            }
            *slot = Some(fresh);
        }
        slot.as_mut().unwrap()
    }

    /// Replaces section `section_y` with `chunk`.
    pub fn set_section(&mut self, section_y: usize, chunk: Chunk)
        requires
            old(self).wf(),
            chunk.wf(),
            section_y < SECTIONS_PER_COLUMN,
        ensures
            final(self).wf(),
            final(self).sections() == old(self).sections().update(section_y as int, Some(chunk)),
            final(self).column_x() == old(self).column_x(),
            final(self).column_z() == old(self).column_z(),
    {
        self.sections[section_y] = Some(chunk);
    }
    /// `x`/`z` are local to the column (0..16), `y` is the world height.
    pub fn get_block(&self, x: usize, y: usize, z: usize) -> (b: BlockId)
        requires
            self.wf(),
        ensures
            b == self.block_at(x as int, y as int, z as int),
    {
        if y >= WORLD_HEIGHT {
            return BlockId(AIR);
        }
        let section_y = y / CHUNK_SIZE;
        match self.section(section_y) {
            Some(section) => section.get(x, y % CHUNK_SIZE, z),
            None => BlockId(AIR),
        }
    }

    /// Writes a block, allocating its section (all air, light 0) when it
    /// is missing; heights at or above `WORLD_HEIGHT` are ignored.
    pub fn set_block(&mut self, x: usize, y: usize, z: usize, block: BlockId)
        requires
            old(self).wf(),
            y < WORLD_HEIGHT ==> chunk_index(x as int, (y % 16) as int, z as int) < CHUNK_VOLUME,
        ensures
            final(self).wf(),
            final(self).column_x() == old(self).column_x(),
            final(self).column_z() == old(self).column_z(),
            set_block_post(*old(self), *final(self), x as int, y as int, z as int, block),
            // What a read gives back of this write, and that nothing else moved.
            y < WORLD_HEIGHT && x < 16 && z < 16 ==> final(self).block_at(x as int, y as int, z as int)
                == block,
            x < 16 && z < 16 ==> forall|a: int, b: int, c: int|
                0 <= a < 16 && 0 <= c < 16 && (a, b, c) != (x as int, y as int, z as int)
                    ==> #[trigger] final(self).block_at(a, b, c) == old(self).block_at(a, b, c),
    {
        if y >= WORLD_HEIGHT {
            return;
        }
        let section_y = y / CHUNK_SIZE;
        let ghost old_self = *self;
        let section = self.section_mut(section_y);
        section.set(x, y % CHUNK_SIZE, z, block);
        proof {
            let s = section_y as int;
            assert(self.sections()[s] is Some);
            assert forall|a: int, b: int, c: int|
                0 <= a < 16 && 0 <= c < 16 && (a, b, c) != (x as int, y as int, z as int)
                    && x < 16 && z < 16 implies #[trigger] self.block_at(a, b, c) == old_self.block_at(a, b, c) by {
                if 0 <= b < WORLD_HEIGHT && b / 16 == s {
                    assert(chunk_index(a, b % 16, c) != chunk_index(x as int, (y % 16) as int, z as int));
                }
            }
        }
    }

    /// Returns `(block_light, sky_light)` at this position. A missing
    /// section has no light data either and reads as open sky.
    pub fn get_light(&self, x: usize, y: usize, z: usize) -> (l: (u8, u8))
        requires
            self.wf(),
        ensures
            l == self.light_at(x as int, y as int, z as int),
    {
        if y >= WORLD_HEIGHT {
            return (0, MAX_LIGHT);
        }
        let section_y = y / CHUNK_SIZE;
        match self.section(section_y) {
            Some(section) => {
                let ly = y % CHUNK_SIZE;
                (section.block_light(x, ly, z), section.sky_light(x, ly, z))
            },
            None => (0, MAX_LIGHT),
        }
    }

    /// Stores a block light level (clamped to `MAX_LIGHT`), allocating
    /// the section when it is missing; heights at or above
    /// `WORLD_HEIGHT` are ignored.
    pub fn set_block_light(&mut self, x: usize, y: usize, z: usize, level: u8)
        requires
            old(self).wf(),
            y < WORLD_HEIGHT ==> chunk_index(x as int, (y % 16) as int, z as int) < CHUNK_VOLUME,
        ensures
            final(self).wf(),
            final(self).column_x() == old(self).column_x(),
            final(self).column_z() == old(self).column_z(),
            y >= WORLD_HEIGHT ==> final(self).sections() == old(self).sections(),
            y < WORLD_HEIGHT ==> {
                let s = y / 16;
                &&& final(self).sections()[s as int] is Some
                &&& final(self).section_blocks(s as int) == old(self).section_blocks(s as int)
                &&& final(self).section_block_lights(s as int) == old(
                    self,
                ).section_block_lights(s as int).update(
                    chunk_index(x as int, (y % 16) as int, z as int),
                    clamp_light(level),
                )
                &&& final(self).section_sky_lights(s as int) == old(self).section_sky_lights(
                    s as int,
                )
                &&& forall|t: int|
                    0 <= t < SECTIONS_PER_COLUMN && t != s ==> #[trigger] final(self).sections()[t]
                        == old(self).sections()[t]
            },
            y < WORLD_HEIGHT && x < 16 && z < 16 ==> final(self).light_at(
                x as int,
                y as int,
                z as int,
            ).0 == clamp_light(level),
    {
        if y >= WORLD_HEIGHT {
            return;
        }
        let section_y = y / CHUNK_SIZE;
        let section = self.section_mut(section_y);
        section.set_block_light(x, y % CHUNK_SIZE, z, level);
    }

    /// Stores a sky light level (clamped to `MAX_LIGHT`), allocating the
    /// section when it is missing; heights at or above `WORLD_HEIGHT`
    /// are ignored.
    pub fn set_sky_light(&mut self, x: usize, y: usize, z: usize, level: u8)
        requires
            old(self).wf(),
            y < WORLD_HEIGHT ==> chunk_index(x as int, (y % 16) as int, z as int) < CHUNK_VOLUME,
        ensures
            final(self).wf(),
            final(self).column_x() == old(self).column_x(),
            final(self).column_z() == old(self).column_z(),
            y >= WORLD_HEIGHT ==> final(self).sections() == old(self).sections(),
            y < WORLD_HEIGHT ==> {
                let s = y / 16;
                &&& final(self).sections()[s as int] is Some
                &&& final(self).section_blocks(s as int) == old(self).section_blocks(s as int)
                &&& final(self).section_block_lights(s as int) == old(
                    self,
                ).section_block_lights(s as int)
                &&& final(self).section_sky_lights(s as int) == old(self).section_sky_lights(
                    s as int,
                ).update(chunk_index(x as int, (y % 16) as int, z as int), clamp_light(level))
                &&& forall|t: int|
                    0 <= t < SECTIONS_PER_COLUMN && t != s ==> #[trigger] final(self).sections()[t]
                        == old(self).sections()[t]
            },
            y < WORLD_HEIGHT && x < 16 && z < 16 ==> final(self).light_at(
                x as int,
                y as int,
                z as int,
            ).1 == clamp_light(level),
    {
        if y >= WORLD_HEIGHT {
            return;
        }
        let section_y = y / CHUNK_SIZE;
        let section = self.section_mut(section_y);
        section.set_sky_light(x, y % CHUNK_SIZE, z, level);
    }
}

} // verus!
