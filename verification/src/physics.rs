//! The voxel side of player collision: the three axes a move is
//! resolved along one at a time, and which blocks inside a box of block
//! cells are solid. The floating-point sweep that turns those blocks
//! into an allowed move is done by the caller.

use vstd::prelude::*;

use crate::world::World;

verus! {

/// An axis of the world.
#[derive(Debug, Clone, Copy, PartialEq, Eq, Structural)]
pub enum Axis {
    X,
    Y,
    Z,
}

impl Axis {
    /// The two other axes, in X, Y, Z order.
    pub fn others(self) -> (r: (Axis, Axis))
        ensures
            r == match self {
                Axis::X => (Axis::Y, Axis::Z),
                Axis::Y => (Axis::X, Axis::Z),
                Axis::Z => (Axis::X, Axis::Y),
            },
    {
        match self {
            Axis::X => (Axis::Y, Axis::Z),
            Axis::Y => (Axis::X, Axis::Z),
            Axis::Z => (Axis::X, Axis::Y),
        }
    }
}

/// The opaque cells (x, y, z0..z1), in order.
pub open spec fn solid_z(w: World, x: int, y: int, z0: int, z1: int) -> Seq<(i32, i32, i32)>
    decreases z1 - z0,
{
    if z1 <= z0 {
        Seq::empty()
    } else {
        solid_z(w, x, y, z0, z1 - 1) + if w.block_at(x, y, z1 - 1).0 != 0 {
            seq![(x as i32, y as i32, (z1 - 1) as i32)]
        } else {
            Seq::empty()
        }
    }
}

/// The opaque cells (x, y0..y1, z0..z1), y before z.
pub open spec fn solid_yz(w: World, x: int, y0: int, y1: int, z0: int, z1: int) -> Seq<(i32, i32, i32)>
    decreases y1 - y0,
{
    if y1 <= y0 {
        Seq::empty()
    } else {
        solid_yz(w, x, y0, y1 - 1, z0, z1) + solid_z(w, x, y1 - 1, z0, z1)
    }
}

/// The opaque cells of the box [x0, x1) x [y0, y1) x [z0, z1), x
/// outermost, then y, then z.
pub open spec fn solid_cells(w: World, x0: int, x1: int, y0: int, y1: int, z0: int, z1: int) -> Seq<
    (i32, i32, i32),
>
    decreases x1 - x0,
{
    if x1 <= x0 {
        Seq::empty()
    } else {
        solid_cells(w, x0, x1 - 1, y0, y1, z0, z1) + solid_yz(w, x1 - 1, y0, y1, z0, z1)
    }
}

/// Every opaque block of the box of cells [x0, x1) x [y0, y1) x
/// [z0, z1): the blocks a move through that box can collide with.
pub fn solid_blocks_in(world: &World, x0: i32, x1: i32, y0: i32, y1: i32, z0: i32, z1: i32) -> (r: Vec<
    (i32, i32, i32),
>)
    requires
        world.wf(),
    ensures
        r@ == solid_cells(*world, x0 as int, x1 as int, y0 as int, y1 as int, z0 as int, z1 as int),
{
    let mut out: Vec<(i32, i32, i32)> = Vec::new();
    if x1 <= x0 {
        return out;
    }
    let mut bx = x0;
    while bx < x1
        invariant
            world.wf(),
            x0 <= bx <= x1,
            out@ == solid_cells(*world, x0 as int, bx as int, y0 as int, y1 as int, z0 as int, z1 as int),
        decreases x1 - bx,
    {
        let ghost before_x = out@;
        if y0 < y1 {
            let mut by = y0;
            while by < y1
                invariant
                    world.wf(),
                    x0 <= bx < x1,
                    y0 <= by <= y1,
                    out@ == before_x + solid_yz(*world, bx as int, y0 as int, by as int, z0 as int, z1 as int),
                decreases y1 - by,
            {
                let ghost before_y = out@;
                if z0 < z1 {
                    let mut bz = z0;
                    while bz < z1
                        invariant
                            world.wf(),
                            y0 <= by < y1,
                            z0 <= bz <= z1,
                            out@ == before_y + solid_z(*world, bx as int, by as int, z0 as int, bz as int),
                        decreases z1 - bz,
                    {
                        if world.get_block(bx, by, bz).is_opaque() {
                            out.push((bx, by, bz));
                        }
                        assert(out@ =~= before_y + solid_z(*world, bx as int, by as int, z0 as int, bz + 1));
                        bz = bz + 1;
                    }
                }
                assert(out@ =~= before_x + solid_yz(*world, bx as int, y0 as int, by + 1, z0 as int, z1 as int));
                by = by + 1;
            }
        }
        assert(out@ =~= solid_cells(*world, x0 as int, bx + 1, y0 as int, y1 as int, z0 as int, z1 as int));
        bx = bx + 1;
    }
    out
}

} // verus!
