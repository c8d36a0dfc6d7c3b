use std::collections::HashMap;

use vstd::prelude::*;
use vstd::std_specs::hash::spec_hash_map_iter;
use vstd::std_specs::iter::IteratorSpec;

use crate::block::{BlockId, AIR};
use crate::chunk::MAX_LIGHT;
use crate::chunk_column::{set_block_post, ChunkColumn};

verus! {

/// The key a column is stored under: its chunk coordinates.
pub open spec fn column_key(c: ChunkColumn) -> (i32, i32) {
    (c.column_x(), c.column_z())
}

/// Chunk coordinates (x, z) packed into one integer key: each coordinate
/// offset by 2^31 into 0..2^32, x in the high half and z in the low half.
pub open spec fn packed_key(x: i32, z: i32) -> u64 {
    ((x + 2147483648) * 4294967296 + (z + 2147483648)) as u64
}

/// Packing is one to one: no two coordinate pairs share a key.
proof fn lemma_packed_key(x: i32, z: i32, x2: i32, z2: i32)
    ensures
        packed_key(x, z) as int == (x + 2147483648) * 4294967296 + (z + 2147483648),
        packed_key(x, z) == packed_key(x2, z2) ==> x == x2 && z == z2,
{
    let a: int = x + 2147483648;
    let b: int = z + 2147483648;
    let a2: int = x2 + 2147483648;
    let b2: int = z2 + 2147483648;
    assert(0 <= a * 4294967296 + b <= 18446744073709551615);
    assert(0 <= a2 * 4294967296 + b2 <= 18446744073709551615);
    if packed_key(x, z) == packed_key(x2, z2) {
        assert(a * 4294967296 + b == a2 * 4294967296 + b2);
        if a < a2 {
            assert(a * 4294967296 + 4294967296 <= a2 * 4294967296);
        } else if a > a2 {
            assert(a2 * 4294967296 + 4294967296 <= a * 4294967296);
        }
    }
}

fn pack_key(x: i32, z: i32) -> (k: u64)
    ensures
        k == packed_key(x, z),
{
    proof {
        lemma_packed_key(x, z, x, z);
    }
    let hi: u64 = (x as i64 + 2147483648) as u64;
    let lo: u64 = (z as i64 + 2147483648) as u64;
    hi * 4294967296 + lo
}

/// Chunk coordinate holding world coordinate `w` (floor of `w / 16`).
pub open spec fn chunk_coord(w: int) -> int {
    w / 16
}

/// Position of world coordinate `w` inside its chunk (`w` mod 16, 0..16).
pub open spec fn local_coord(w: int) -> int {
    w % 16
}

fn split_coord(w: i32) -> (r: (i32, usize))
    ensures
        r.0 == chunk_coord(w as int),
        r.1 == local_coord(w as int),
        r.1 < 16,
{
    let shifted: i64 = (w as i64) + 2147483648;
    let q: i64 = shifted / 16;
    let m: i64 = shifted % 16;
    ((q - 134217728) as i32, m as usize)
}

/// `new` is `old` after writing `block` at world position (x, y, z):
/// nothing changes below y = 0 or where no column is loaded; otherwise
/// only the column holding the position changes, as
/// `ChunkColumn::set_block` changes it.
pub open spec fn block_written(
    old: Map<(i32, i32), ChunkColumn>,
    new: Map<(i32, i32), ChunkColumn>,
    x: i32,
    y: i32,
    z: i32,
    block: BlockId,
) -> bool {
    let k = (chunk_coord(x as int) as i32, chunk_coord(z as int) as i32);
    &&& new.dom() == old.dom()
    &&& if y < 0 || !old.contains_key(k) {
        new == old
    } else {
        &&& set_block_post(old[k], new[k], local_coord(x as int), y as int, local_coord(z as int), block)
        &&& new == old.insert(k, new[k])
    }
}

/// All loaded chunk columns, keyed by chunk coordinates (world position
/// divided by 16, floored).
pub struct World {
    columns: HashMap<u64, ChunkColumn>,
}

impl View for World {
    type V = Map<(i32, i32), ChunkColumn>;

    closed spec fn view(&self) -> Map<(i32, i32), ChunkColumn> {
        Map::new(
            |k: (i32, i32)| self.columns@.contains_key(packed_key(k.0, k.1)),
            |k: (i32, i32)| self.columns@[packed_key(k.0, k.1)],
        )
    }
}

impl World {
    /// `cols` lists the loaded columns, each exactly once, in some order:
    /// as many as there are loaded, each a loaded column under its own
    /// coordinates, and every loaded column among them.
    pub open spec fn enumerates(&self, cols: Seq<ChunkColumn>) -> bool {
        &&& cols.len() == self@.dom().len()
        &&& forall|i: int|
            0 <= i < cols.len() ==> self@.contains_key(column_key(#[trigger] cols[i]))
                && self@[column_key(cols[i])] == cols[i]
        &&& forall|k: (i32, i32)|
            #[trigger] self@.contains_key(k) ==> exists|i: int| 0 <= i < cols.len() && cols[i] == self@[k]
    }

    /// Every loaded column is well formed and stored under the key of its
    /// own coordinates.
    pub closed spec fn wf(&self) -> bool {
        forall|key: u64| #[trigger]
            self.columns@.contains_key(key) ==> self.columns@[key].wf() && packed_key(
                self.columns@[key].column_x(),
                self.columns@[key].column_z(),
            ) == key
    }

    /// The coordinates of the column stored under `key`.
    closed spec fn coords_of(&self, key: u64) -> (i32, i32) {
        column_key(self.columns@[key])
    }

    proof fn lemma_view_dom(&self)
        requires
            self.wf(),
        ensures
            self@.dom() == self.columns@.dom().map(|key: u64| self.coords_of(key)),
            self@.dom().finite(),
            self@.dom().len() == self.columns@.dom().len(),
    {
        let f = |key: u64| self.coords_of(key);
        let d = self.columns@.dom();
        assert(self@.dom() =~= d.map(f)) by {
            assert forall|k: (i32, i32)| self@.dom().contains(k) implies d.map(f).contains(k) by {
                let key = packed_key(k.0, k.1);
                let c = self.columns@[key];
                lemma_packed_key(c.column_x(), c.column_z(), k.0, k.1);
                assert(f(key) == k);
            }
            assert forall|k: (i32, i32)| d.map(f).contains(k) implies self@.dom().contains(k) by {
                let key = choose|key: u64| d.contains(key) && f(key) == k;
                assert(self.columns@.contains_key(key));
            }
        }
        assert(vstd::relations::injective_on(f, d)) by {
            assert forall|a: u64, b: u64| d.contains(a) && d.contains(b) && #[trigger] f(a) == #[trigger] f(b) implies a == b by {
                assert(self.columns@.contains_key(a));
                assert(self.columns@.contains_key(b));
            }
        }
        vstd::set_lib::lemma_map_size(d, self@.dom(), f);
    }

    /// Every loaded column is well formed and stored under its own
    /// coordinates.
    pub proof fn lemma_wf(&self)
        requires
            self.wf(),
        ensures
            self@.dom().finite(),
            forall|k: (i32, i32)| #[trigger]
                self@.contains_key(k) ==> self@[k].wf() && column_key(self@[k]) == k,
    {
        self.lemma_view_dom();
        assert forall|k: (i32, i32)| #[trigger]
            self@.contains_key(k) implies self@[k].wf() && column_key(self@[k]) == k by {
            let key = packed_key(k.0, k.1);
            assert(self.columns@.contains_key(key));
            let c = self.columns@[key];
            lemma_packed_key(c.column_x(), c.column_z(), k.0, k.1);
        }
    }

    /// The block at world position (x, y, z): air below y = 0 and in any
    /// column that is not loaded.
    pub open spec fn block_at(&self, x: int, y: int, z: int) -> BlockId {
        let k = (chunk_coord(x) as i32, chunk_coord(z) as i32);
        if y < 0 {
            BlockId(AIR)
        } else if self@.contains_key(k) {
            self@[k].block_at(local_coord(x), y, local_coord(z))
        } else {
            BlockId(AIR)
        }
    }

    /// `(block_light, sky_light)` at world position (x, y, z): open sky
    /// `(0, MAX_LIGHT)` below y = 0 and in any column that is not loaded.
    pub open spec fn light_at(&self, x: int, y: int, z: int) -> (u8, u8) {
        let k = (chunk_coord(x) as i32, chunk_coord(z) as i32);
        if y < 0 {
            (0, MAX_LIGHT)
        } else if self@.contains_key(k) {
            self@[k].light_at(local_coord(x), y, local_coord(z))
        } else {
            (0, MAX_LIGHT)
        }
    }

    pub fn new() -> (w: Self)
        ensures
            w.wf(),
            w@ == Map::<(i32, i32), ChunkColumn>::empty(),
    {
        let w = World { columns: HashMap::new() };
        assert(w@ =~= Map::<(i32, i32), ChunkColumn>::empty());
        w
    }

    /// Stores `column` under its own coordinates, replacing any column
    /// already loaded there.
    pub fn insert_column(&mut self, column: ChunkColumn)
        requires
            old(self).wf(),
            column.wf(),
        ensures
            final(self).wf(),
            final(self)@ == old(self)@.insert(column_key(column), column),
    {
        let (x, z) = column.key();
        let key = pack_key(x, z);
        let ghost c = column;
        self.columns.insert(key, column);
        proof {
            assert forall|k: (i32, i32)| #![auto] self@.contains_key(k) <==> old(self)@.insert((x, z), c).contains_key(k) by {
                lemma_packed_key(k.0, k.1, x, z);
            }
            assert forall|k: (i32, i32)| #[trigger] self@.contains_key(k) implies self@[k] == old(self)@.insert((x, z), c)[k] by {
                lemma_packed_key(k.0, k.1, x, z);
            }
            assert(self@ =~= old(self)@.insert((x, z), c));
        }
    }

    /// Unloads the column at (chunk_x, chunk_z), if one is loaded.
    pub fn remove_column(&mut self, chunk_x: i32, chunk_z: i32)
        requires
            old(self).wf(),
        ensures
            final(self).wf(),
            final(self)@ == old(self)@.remove((chunk_x, chunk_z)),
    {
        let key = pack_key(chunk_x, chunk_z);
        let _removed = self.columns.remove(&key);
        proof {
            assert forall|k: (i32, i32)| #![auto] self@.contains_key(k) <==> old(self)@.remove((chunk_x, chunk_z)).contains_key(k) by {
                lemma_packed_key(k.0, k.1, chunk_x, chunk_z);
            }
            assert(self@ =~= old(self)@.remove((chunk_x, chunk_z)));
        }
    }

    /// The column loaded at (chunk_x, chunk_z), if any.
    pub fn column(&self, chunk_x: i32, chunk_z: i32) -> (r: Option<&ChunkColumn>)
        requires
            self.wf(),
        ensures
            r == if self@.contains_key((chunk_x, chunk_z)) {
                Some(&self@[(chunk_x, chunk_z)])
            } else {
                None::<&ChunkColumn>
            },
    {
        let key = pack_key(chunk_x, chunk_z);
        self.columns.get(&key)
    }

    /// Every loaded column, each exactly once, in the order the map hands
    /// them out (which this library leaves open).
    pub fn columns(&self) -> (r: Vec<&ChunkColumn>)
        requires
            self.wf(),
        ensures
            self.enumerates(r@.map_values(|c: &ChunkColumn| *c)),
    {
        let ghost v = spec_hash_map_iter(&self.columns).remaining();
        let mut r: Vec<&ChunkColumn> = Vec::new();
        for e in it: self.columns.iter()
            invariant
                v == spec_hash_map_iter(&self.columns).remaining(),
                it.seq() == v,
                r@.len() == it.index(),
                forall|i: int| 0 <= i < r@.len() ==> *r@[i] == *v[i].1,
        {
            r.push(e.1);
        }
        proof {
            self.lemma_view_dom();
            let cols = r@.map_values(|c: &ChunkColumn| *c);
            assert forall|i: int| 0 <= i < cols.len() implies self@.contains_key(column_key(#[trigger] cols[i]))
                && self@[column_key(cols[i])] == cols[i] by {
                let key = *v[i].0;
                assert(self.columns@.contains_key(key));
                let c = self.columns@[key];
                lemma_packed_key(c.column_x(), c.column_z(), c.column_x(), c.column_z());
            }
            assert forall|k: (i32, i32)| #[trigger] self@.contains_key(k) implies exists|i: int|
                0 <= i < cols.len() && cols[i] == self@[k] by {
                let key = packed_key(k.0, k.1);
                assert(self.columns@.contains_key(key));
                assert(v.contains((&key, &self.columns@[key])));
                let i = choose|i: int| 0 <= i < v.len() && v[i] == (&key, &self.columns@[key]);
                assert(cols[i] == self@[k]);
            }
        }
        r
    }

    /// Number of loaded columns.
    pub fn len(&self) -> (n: usize)
        requires
            self.wf(),
        ensures
            n == self@.dom().len(),
    {
        proof {
            self.lemma_view_dom();
        }
        self.columns.len()
    }

    pub fn is_empty(&self) -> (b: bool)
        requires
            self.wf(),
        ensures
            b == (self@.dom().len() == 0),
    {
        proof {
            self.lemma_view_dom();
        }
        self.columns.len() == 0
    }
    /// Writes a block at world position (x, y, z); ignored below y = 0
    /// and where no column is loaded (see `ChunkColumn::set_block` for
    /// what happens inside a loaded column).
    pub fn set_block(&mut self, world_x: i32, world_y: i32, world_z: i32, block: BlockId)
        requires
            old(self).wf(),
        ensures
            final(self).wf(),
            block_written(old(self)@, final(self)@, world_x, world_y, world_z, block),
            // What a read gives back of this write, and that nothing else moved.
            0 <= world_y < 256 && old(self)@.contains_key(
                (chunk_coord(world_x as int) as i32, chunk_coord(world_z as int) as i32),
            ) ==> final(self).block_at(world_x as int, world_y as int, world_z as int) == block,
            forall|a: int, b: int, c: int|
                i32::MIN <= a <= i32::MAX && i32::MIN <= c <= i32::MAX && (a, b, c) != (
                    world_x as int,
                    world_y as int,
                    world_z as int,
                ) ==> #[trigger] final(self).block_at(a, b, c) == old(self).block_at(a, b, c),
    {
        if world_y < 0 {
            return;
        }
        let (chunk_x, local_x) = split_coord(world_x);
        let (chunk_z, local_z) = split_coord(world_z);
        let key = pack_key(chunk_x, chunk_z);
        let ghost k = (chunk_x, chunk_z);
        match self.columns.remove(&key) {
            Some(mut column) => {
                let ghost before = column;
                proof {
                    assert(old(self).columns@.contains_key(key));
                }
                column.set_block(local_x, world_y as usize, local_z, block);
                let ghost after = column;
                self.columns.insert(key, column);
                proof {
                    assert(self.columns@ == old(self).columns@.insert(key, after));
                    assert forall|k2: (i32, i32)| #![auto] self@.contains_key(k2) <==> old(self)@.contains_key(k2) by {
                        lemma_packed_key(k2.0, k2.1, chunk_x, chunk_z);
                    }
                    assert forall|k2: (i32, i32)| #[trigger] self@.contains_key(k2) implies self@[k2] == old(self)@.insert(k, after)[k2] by {
                        lemma_packed_key(k2.0, k2.1, chunk_x, chunk_z);
                    }
                    assert(self@ =~= old(self)@.insert(k, after));
                    assert(self@.dom() =~= old(self)@.dom());
                    assert(old(self)@[k] == before);
                    assert forall|a: int, b: int, c: int|
                        i32::MIN <= a <= i32::MAX && i32::MIN <= c <= i32::MAX && (a, b, c) != (
                            world_x as int,
                            world_y as int,
                            world_z as int,
                        ) implies #[trigger] self.block_at(a, b, c) == old(self).block_at(a, b, c) by {
                        let k2 = (chunk_coord(a) as i32, chunk_coord(c) as i32);
                        if b >= 0 && k2 == k {
                            assert(chunk_coord(a) == chunk_x && chunk_coord(c) == chunk_z);
                            assert(a == 16 * chunk_coord(a) + local_coord(a));
                            assert(world_x == 16 * chunk_coord(world_x as int) + local_coord(world_x as int));
                            assert(c == 16 * chunk_coord(c) + local_coord(c));
                            assert(world_z == 16 * chunk_coord(world_z as int) + local_coord(world_z as int));
                            assert(local_coord(a) != local_x || local_coord(c) != local_z || b != world_y);
                        }
                    }
                }
            },
            None => {
                proof {
                    assert(self.columns@ =~= old(self).columns@);
                    assert(self@ =~= old(self)@);
                }
            },
        }
    }

    /// The block at world position (x, y, z).
    pub fn get_block(&self, world_x: i32, world_y: i32, world_z: i32) -> (b: BlockId)
        requires
            self.wf(),
        ensures
            b == self.block_at(world_x as int, world_y as int, world_z as int),
    {
        if world_y < 0 {
            return BlockId(AIR);
        }
        let (chunk_x, local_x) = split_coord(world_x);
        let (chunk_z, local_z) = split_coord(world_z);
        match self.column(chunk_x, chunk_z) {
            Some(column) => {
                proof {
                    self.lemma_wf();
                }
                column.get_block(local_x, world_y as usize, local_z)
            },
            None => BlockId(AIR),
        }
    }

    /// `(block_light, sky_light)` at world position (x, y, z), open sky
    /// wherever no column is loaded.
    pub fn get_light(&self, world_x: i32, world_y: i32, world_z: i32) -> (l: (u8, u8))
        requires
            self.wf(),
        ensures
            l == self.light_at(world_x as int, world_y as int, world_z as int),
    {
        if world_y < 0 {
            return (0, MAX_LIGHT);
        }
        let (chunk_x, local_x) = split_coord(world_x);
        let (chunk_z, local_z) = split_coord(world_z);
        match self.column(chunk_x, chunk_z) {
            Some(column) => {
                proof {
                    self.lemma_wf();
                }
                column.get_light(local_x, world_y as usize, local_z)
            },
            None => (0, MAX_LIGHT),
        }
    }
}

} // verus!
