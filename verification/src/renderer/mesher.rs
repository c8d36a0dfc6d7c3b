//! Face culling for meshing: a block face is drawn only when the block
//! is not air and the block on the other side of the face is missing or
//! not opaque, so fully buried faces never reach the GPU. The face
//! geometry (unit-cube corners, normals, winding) lives here too; the
//! floating-point vertices are built from it by the caller.

use vstd::prelude::*;

use crate::block::BlockId;
use crate::chunk::{in_chunk, Chunk, CHUNK_SIZE, MAX_LIGHT};
use crate::chunk_column::{ChunkColumn, WORLD_HEIGHT};
use crate::world::{column_key, World};
use crate::renderer::block_textures::FaceKind;

verus! {

/// One of the six axis-aligned faces of a unit cube: its outward
/// normal (also the offset of the neighbor it faces), which texture it
/// samples, and its four corners in texture-corner order.
/// `reversed_winding` says that the corners run clockwise seen from
/// outside, so the two triangles are read in the opposite order to
/// face outward.
#[derive(Debug, Clone, Copy)]
pub struct Face {
    pub normal: (i8, i8, i8),
    pub kind: FaceKind,
    pub corners: ((u8, u8, u8), (u8, u8, u8), (u8, u8, u8), (u8, u8, u8)),
    pub reversed_winding: bool,
}

/// The six faces, in the order +X, -X, +Y, -Y, +Z, -Z.
pub open spec fn face_spec(i: int) -> Face {
    if i == 0 {
        Face {
            normal: (1, 0, 0),
            kind: FaceKind::Side,
            corners: ((1, 0, 0), (1, 0, 1), (1, 1, 1), (1, 1, 0)),
            reversed_winding: true,
        }
    } else if i == 1 {
        Face {
            normal: (-1i8, 0, 0),
            kind: FaceKind::Side,
            corners: ((0, 0, 1), (0, 0, 0), (0, 1, 0), (0, 1, 1)),
            reversed_winding: true,
        }
    } else if i == 2 {
        Face {
            normal: (0, 1, 0),
            kind: FaceKind::Top,
            corners: ((0, 1, 1), (1, 1, 1), (1, 1, 0), (0, 1, 0)),
            reversed_winding: false,
        }
    } else if i == 3 {
        Face {
            normal: (0, -1i8, 0),
            kind: FaceKind::Bottom,
            corners: ((0, 0, 0), (1, 0, 0), (1, 0, 1), (0, 0, 1)),
            reversed_winding: false,
        }
    } else if i == 4 {
        Face {
            normal: (0, 0, 1),
            kind: FaceKind::Side,
            corners: ((1, 0, 1), (0, 0, 1), (0, 1, 1), (1, 1, 1)),
            reversed_winding: true,
        }
    } else {
        Face {
            normal: (0, 0, -1i8),
            kind: FaceKind::Side,
            corners: ((0, 0, 0), (1, 0, 0), (1, 1, 0), (0, 1, 0)),
            reversed_winding: true,
        }
    }
}

/// Corner `c` of the unit cube lies on the side of the cube that normal
/// `n` points out of: coordinate 1 along a positive axis, 0 along a
/// negative one.
pub open spec fn on_face_plane(c: (u8, u8, u8), n: (i8, i8, i8)) -> bool {
    &&& (n.0 == 1 ==> c.0 == 1) && (n.0 == -1 ==> c.0 == 0)
    &&& (n.1 == 1 ==> c.1 == 1) && (n.1 == -1 ==> c.1 == 0)
    &&& (n.2 == 1 ==> c.2 == 1) && (n.2 == -1 ==> c.2 == 0)
}

/// The texture a face samples follows from the way it faces: the face
/// looking up (+Y) samples the block's top texture, the face looking down
/// (-Y) its bottom texture, and the four horizontal faces its side
/// texture. Each of the six faces looks along a different axis direction
/// (each of +X, -X, +Y, -Y, +Z, -Z exactly once, with one nonzero
/// component of size 1), and its four corners lie on the side of the cube
/// it looks out of.
pub proof fn lemma_face_kind_follows_normal()
    ensures
        forall|i: int|
            0 <= i < 6 ==> {
                let f = #[trigger] face_spec(i);
                &&& (f.kind == FaceKind::Top <==> f.normal == (0i8, 1i8, 0i8))
                &&& (f.kind == FaceKind::Bottom <==> f.normal == (0i8, -1i8, 0i8))
                &&& (f.kind == FaceKind::Side <==> f.normal.1 == 0)
                &&& (f.normal.0 == 0) as int + (f.normal.1 == 0) as int + (f.normal.2 == 0) as int == 2
                &&& -1 <= f.normal.0 <= 1 && -1 <= f.normal.1 <= 1 && -1 <= f.normal.2 <= 1
                &&& on_face_plane(f.corners.0, f.normal)
                &&& on_face_plane(f.corners.1, f.normal)
                &&& on_face_plane(f.corners.2, f.normal)
                &&& on_face_plane(f.corners.3, f.normal)
            },
        forall|i: int, j: int|
            0 <= i < j < 6 ==> #[trigger] face_spec(i).normal != #[trigger] face_spec(j).normal,
{
    assert forall|i: int, j: int| 0 <= i < j < 6 implies #[trigger] face_spec(i).normal
        != #[trigger] face_spec(j).normal by {
        assert(face_spec(i).normal != face_spec(j).normal);
    }
}

/// Face `i` (below 6) of the unit cube.
pub fn face(i: usize) -> (f: Face)
    requires
        i < 6,
    ensures
        f == face_spec(i as int),
{
    if i == 0 {
        Face {
            normal: (1, 0, 0),
            kind: FaceKind::Side,
            corners: ((1, 0, 0), (1, 0, 1), (1, 1, 1), (1, 1, 0)),
            reversed_winding: true,
        }
    } else if i == 1 {
        Face {
            normal: (-1i8, 0, 0),
            kind: FaceKind::Side,
            corners: ((0, 0, 1), (0, 0, 0), (0, 1, 0), (0, 1, 1)),
            reversed_winding: true,
        }
    } else if i == 2 {
        Face {
            normal: (0, 1, 0),
            kind: FaceKind::Top,
            corners: ((0, 1, 1), (1, 1, 1), (1, 1, 0), (0, 1, 0)),
            reversed_winding: false,
        }
    } else if i == 3 {
        Face {
            normal: (0, -1i8, 0),
            kind: FaceKind::Bottom,
            corners: ((0, 0, 0), (1, 0, 0), (1, 0, 1), (0, 0, 1)),
            reversed_winding: false,
        }
    } else if i == 4 {
        Face {
            normal: (0, 0, 1),
            kind: FaceKind::Side,
            corners: ((1, 0, 1), (0, 0, 1), (0, 1, 1), (1, 1, 1)),
            reversed_winding: true,
        }
    } else {
        Face {
            normal: (0, 0, -1i8),
            kind: FaceKind::Side,
            corners: ((0, 0, 0), (1, 0, 0), (1, 1, 0), (0, 1, 0)),
            reversed_winding: true,
        }
    }
}

/// `b - a` for two corners.
pub open spec fn edge(a: (u8, u8, u8), b: (u8, u8, u8)) -> (int, int, int) {
    (b.0 - a.0, b.1 - a.1, b.2 - a.2)
}

/// The cross product `u x v`.
pub open spec fn cross(u: (int, int, int), v: (int, int, int)) -> (int, int, int) {
    (u.1 * v.2 - u.2 * v.1, u.2 * v.0 - u.0 * v.2, u.0 * v.1 - u.1 * v.0)
}

/// The first triangle actually drawn for the face, (A, B, C) or, with
/// reversed winding, (A, C, B), has the face's outward normal by the
/// right-hand rule.
pub open spec fn winds_outward(f: Face) -> bool {
    let ab = edge(f.corners.0, f.corners.1);
    let ac = edge(f.corners.0, f.corners.2);
    let n = if f.reversed_winding {
        cross(ac, ab)
    } else {
        cross(ab, ac)
    };
    n == (f.normal.0 as int, f.normal.1 as int, f.normal.2 as int)
}

/// Every face's first drawn triangle faces outward, so back-face
/// culling with counter-clockwise front faces keeps the faces seen from
/// outside the block.
pub proof fn lemma_faces_wind_outward(i: int)
    requires
        0 <= i < 6,
    ensures
        winds_outward(face_spec(i)),
{
    if i == 0 {
        assert(winds_outward(face_spec(0))) by (nonlinear_arith);
    } else if i == 1 {
        assert(winds_outward(face_spec(1))) by (nonlinear_arith);
    } else if i == 2 {
        assert(winds_outward(face_spec(2))) by (nonlinear_arith);
    } else if i == 3 {
        assert(winds_outward(face_spec(3))) by (nonlinear_arith);
    } else if i == 4 {
        assert(winds_outward(face_spec(4))) by (nonlinear_arith);
    } else {
        assert(winds_outward(face_spec(5))) by (nonlinear_arith);
    }
}

/// The light level a face is lit with: the brighter of the block light
/// and sky light in front of it, at most `MAX_LIGHT`.
pub open spec fn light_level_spec(block_light: u8, sky_light: u8) -> u8 {
    let m = if block_light >= sky_light {
        block_light
    } else {
        sky_light
    };
    if m > MAX_LIGHT {
        MAX_LIGHT
    } else {
        m
    }
}

/// The light level a face is lit with.
pub fn light_level(block_light: u8, sky_light: u8) -> (l: u8)
    ensures
        l == light_level_spec(block_light, sky_light),
        l <= MAX_LIGHT,
{
    let m = if block_light >= sky_light {
        block_light
    } else {
        sky_light
    };
    if m > MAX_LIGHT {
        MAX_LIGHT
    } else {
        m
    }
}

/// One visible face of a section: the block at (x, y, z) shows face
/// `face`, lit by the light in front of it.
#[derive(Debug, Clone, Copy, PartialEq, Eq, Structural)]
pub struct FaceDraw {
    pub x: u8,
    pub y: u8,
    pub z: u8,
    pub face: u8,
    pub block: BlockId,
    pub block_light: u8,
    pub sky_light: u8,
}

/// Face `f` of the block at (x, y, z), if it is visible: the block is
/// not air and the neighbor it faces is outside the section or not
/// opaque. Outside the section the light in front is (0, `MAX_LIGHT`),
/// as at the edge of the loaded world.
pub open spec fn visible_face(c: Chunk, x: int, y: int, z: int, f: int) -> Seq<FaceDraw> {
    let b = c.block_at(x, y, z);
    let n = face_spec(f).normal;
    let (nx, ny, nz) = (x + n.0, y + n.1, z + n.2);
    if b.0 == 0 {
        Seq::empty()
    } else if in_chunk(nx, ny, nz) && c.block_at(nx, ny, nz).0 != 0 {
        Seq::empty()
    } else {
        seq![
            FaceDraw {
                x: x as u8,
                y: y as u8,
                z: z as u8,
                face: f as u8,
                block: b,
                block_light: c.block_light_at(nx, ny, nz),
                sky_light: c.sky_light_at(nx, ny, nz),
            },
        ]
    }
}

/// The visible faces among the first `n` faces of block (x, y, z).
pub open spec fn block_faces_upto(c: Chunk, x: int, y: int, z: int, n: int) -> Seq<FaceDraw>
    decreases n,
{
    if n <= 0 {
        Seq::empty()
    } else {
        block_faces_upto(c, x, y, z, n - 1) + visible_face(c, x, y, z, n - 1)
    }
}

/// The visible faces of blocks (x, y, 0..n).
pub open spec fn row_faces(c: Chunk, x: int, y: int, n: int) -> Seq<FaceDraw>
    decreases n,
{
    if n <= 0 {
        Seq::empty()
    } else {
        row_faces(c, x, y, n - 1) + block_faces_upto(c, x, y, n - 1, 6)
    }
}

/// The visible faces of blocks (x, 0..n, 0..16).
pub open spec fn slab_faces(c: Chunk, x: int, n: int) -> Seq<FaceDraw>
    decreases n,
{
    if n <= 0 {
        Seq::empty()
    } else {
        slab_faces(c, x, n - 1) + row_faces(c, x, n - 1, 16)
    }
}

/// The visible faces of blocks (0..n, 0..16, 0..16), x outermost, then
/// y, then z, then the faces in `face_spec` order.
pub open spec fn section_faces(c: Chunk, n: int) -> Seq<FaceDraw>
    decreases n,
{
    if n <= 0 {
        Seq::empty()
    } else {
        section_faces(c, n - 1) + slab_faces(c, n - 1, 16)
    }
}

/// Face `f` of block (x, y, z), if visible.
fn face_draw(chunk: &Chunk, x: usize, y: usize, z: usize, f: usize, block: BlockId) -> (r: Option<FaceDraw>)
    requires
        chunk.wf(),
        x < 16 && y < 16 && z < 16,
        f < 6,
        block == chunk.block_at(x as int, y as int, z as int),
        block.0 != 0,
    ensures
        match r {
            Some(d) => visible_face(*chunk, x as int, y as int, z as int, f as int) == seq![d],
            None => visible_face(*chunk, x as int, y as int, z as int, f as int) == Seq::<FaceDraw>::empty(),
        },
{
    let n = face(f).normal;
    let nx = x as i64 + n.0 as i64;
    let ny = y as i64 + n.1 as i64;
    let nz = z as i64 + n.2 as i64;
    let in_bounds = nx >= 0 && ny >= 0 && nz >= 0 && nx < CHUNK_SIZE as i64 && ny < CHUNK_SIZE as i64 && nz
        < CHUNK_SIZE as i64;
    if in_bounds {
        let (ux, uy, uz) = (nx as usize, ny as usize, nz as usize);
        if chunk.get(ux, uy, uz).is_opaque() {
            return None;
        }
        Some(
            FaceDraw {
                x: x as u8,
                y: y as u8,
                z: z as u8,
                face: f as u8,
                block,
                block_light: chunk.block_light(ux, uy, uz),
                sky_light: chunk.sky_light(ux, uy, uz),
            },
        )
    } else {
        Some(
            FaceDraw {
                x: x as u8,
                y: y as u8,
                z: z as u8,
                face: f as u8,
                block,
                block_light: 0,
                sky_light: MAX_LIGHT,
            },
        )
    }
}

/// Every visible face of the section, x outermost, then y, then z, then
/// the six faces in order: what the mesher turns into quads.
pub fn visible_faces(chunk: &Chunk) -> (r: Vec<FaceDraw>)
    requires
        chunk.wf(),
    ensures
        r@ == section_faces(*chunk, 16),
{
    let mut out: Vec<FaceDraw> = Vec::new();
    let mut x: usize = 0;
    while x < CHUNK_SIZE
        invariant
            chunk.wf(),
            x <= 16,
            out@ == section_faces(*chunk, x as int),
        decreases 16 - x,
    {
        let ghost before_x = out@;
        let mut y: usize = 0;
        while y < CHUNK_SIZE
            invariant
                chunk.wf(),
                x < 16,
                y <= 16,
                out@ == before_x + slab_faces(*chunk, x as int, y as int),
            decreases 16 - y,
        {
            let ghost before_y = out@;
            let mut z: usize = 0;
            while z < CHUNK_SIZE
                invariant
                    chunk.wf(),
                    x < 16,
                    y < 16,
                    z <= 16,
                    out@ == before_y + row_faces(*chunk, x as int, y as int, z as int),
                decreases 16 - z,
            {
                let ghost before_z = out@;
                let block = chunk.get(x, y, z);
                if !block.is_air() {
                    let mut f: usize = 0;
                    while f < 6
                        invariant
                            chunk.wf(),
                            x < 16,
                            y < 16,
                            z < 16,
                            f <= 6,
                            block == chunk.block_at(x as int, y as int, z as int),
                            block.0 != 0,
                            out@ == before_z + block_faces_upto(*chunk, x as int, y as int, z as int, f as int),
                        decreases 6 - f,
                    {
                        let ghost before_f = out@;
                        match face_draw(chunk, x, y, z, f, block) {
                            Some(d) => {
                                out.push(d);
                            },
                            None => {},
                        }
                        assert(out@ =~= before_z + block_faces_upto(
                            *chunk,
                            x as int,
                            y as int,
                            z as int,
                            f + 1,
                        ));
                        f = f + 1;
                    }
                } else {
                    assert forall|k: int| 0 <= k <= 6 implies #[trigger] block_faces_upto(
                        *chunk,
                        x as int,
                        y as int,
                        z as int,
                        k,
                    ) == Seq::<FaceDraw>::empty() by {
                        lemma_air_has_no_faces(*chunk, x as int, y as int, z as int, k);
                    }
                }
                assert(out@ =~= before_y + row_faces(*chunk, x as int, y as int, z + 1));
                z = z + 1;
            }
            assert(out@ =~= before_x + slab_faces(*chunk, x as int, y + 1));
            y = y + 1;
        }
        assert(out@ =~= section_faces(*chunk, x + 1));
        x = x + 1;
    }
    out
}

/// An air block shows no face.
pub proof fn lemma_air_has_no_faces(c: Chunk, x: int, y: int, z: int, n: int)
    requires
        c.block_at(x, y, z).0 == 0,
    ensures
        block_faces_upto(c, x, y, z, n) == Seq::<FaceDraw>::empty(),
    decreases n,
{
    if n > 0 {
        lemma_air_has_no_faces(c, x, y, z, n - 1);
        assert(block_faces_upto(c, x, y, z, n) =~= Seq::<FaceDraw>::empty());
    }
}

/// One visible face in the world: the block at world position (x, y, z)
/// shows face `face`, lit by the light in front of it.
#[derive(Debug, Clone, Copy, PartialEq, Eq, Structural)]
pub struct WorldFaceDraw {
    pub x: i32,
    pub y: i32,
    pub z: i32,
    pub face: u8,
    pub block: BlockId,
    pub block_light: u8,
    pub sky_light: u8,
}

/// Face `f` of block (x, y, z) of column `col` (x, z local to the
/// column), if visible: the block is not air and the world block it
/// faces, in whatever column, is not opaque (unloaded columns and
/// everything below the world are air).
pub open spec fn visible_world_face(w: World, col: ChunkColumn, x: int, y: int, z: int, f: int) -> Seq<
    WorldFaceDraw,
> {
    let b = col.block_at(x, y, z);
    let wx = col.column_x() * 16 + x;
    let wz = col.column_z() * 16 + z;
    let n = face_spec(f).normal;
    let (nx, ny, nz) = (wx + n.0, y + n.1, wz + n.2);
    if b.0 == 0 {
        Seq::empty()
    } else if w.block_at(nx, ny, nz).0 != 0 {
        Seq::empty()
    } else {
        seq![
            WorldFaceDraw {
                x: wx as i32,
                y: y as i32,
                z: wz as i32,
                face: f as u8,
                block: b,
                block_light: w.light_at(nx, ny, nz).0,
                sky_light: w.light_at(nx, ny, nz).1,
            },
        ]
    }
}

/// The visible faces among the first `n` faces of one block.
pub open spec fn world_block_faces(w: World, col: ChunkColumn, x: int, y: int, z: int, n: int) -> Seq<
    WorldFaceDraw,
>
    decreases n,
{
    if n <= 0 {
        Seq::empty()
    } else {
        world_block_faces(w, col, x, y, z, n - 1) + visible_world_face(w, col, x, y, z, n - 1)
    }
}

/// The visible faces of blocks (0..n, y, z) of a column.
pub open spec fn world_row_faces(w: World, col: ChunkColumn, y: int, z: int, n: int) -> Seq<WorldFaceDraw>
    decreases n,
{
    if n <= 0 {
        Seq::empty()
    } else {
        world_row_faces(w, col, y, z, n - 1) + world_block_faces(w, col, n - 1, y, z, 6)
    }
}

/// The visible faces of blocks (0..16, y, 0..n) of a column.
pub open spec fn world_layer_faces(w: World, col: ChunkColumn, y: int, n: int) -> Seq<WorldFaceDraw>
    decreases n,
{
    if n <= 0 {
        Seq::empty()
    } else {
        world_layer_faces(w, col, y, n - 1) + world_row_faces(w, col, y, n - 1, 16)
    }
}

/// The visible faces of heights 0..n of a column.
pub open spec fn column_faces(w: World, col: ChunkColumn, n: int) -> Seq<WorldFaceDraw>
    decreases n,
{
    if n <= 0 {
        Seq::empty()
    } else {
        column_faces(w, col, n - 1) + world_layer_faces(w, col, n - 1, 16)
    }
}

/// The visible faces of the first `n` columns of `cols`: column by
/// column, then by height, then z, then x, then the faces in `face_spec`
/// order.
pub open spec fn world_faces(w: World, cols: Seq<ChunkColumn>, n: int) -> Seq<WorldFaceDraw>
    decreases n,
{
    if n <= 0 {
        Seq::empty()
    } else {
        world_faces(w, cols, n - 1) + column_faces(w, cols[n - 1], 256)
    }
}

/// A column whose world coordinates, and those of the blocks next to
/// it, fit in an `i32`.
pub open spec fn column_in_range(col: ChunkColumn) -> bool {
    &&& -134217727 <= col.column_x() <= 134217726
    &&& -134217727 <= col.column_z() <= 134217726
}

/// Face `f` of block (x, y, z) of `col`, if visible.
fn world_face_draw(
    world: &World,
    col: &ChunkColumn,
    x: usize,
    y: usize,
    z: usize,
    f: usize,
    block: BlockId,
) -> (r: Option<WorldFaceDraw>)
    requires
        world.wf(),
        column_in_range(*col),
        x < 16 && y < 256 && z < 16,
        f < 6,
        block == col.block_at(x as int, y as int, z as int),
        block.0 != 0,
    ensures
        match r {
            Some(d) => visible_world_face(*world, *col, x as int, y as int, z as int, f as int) == seq![d],
            None => visible_world_face(*world, *col, x as int, y as int, z as int, f as int) == Seq::<
                WorldFaceDraw,
            >::empty(),
        },
{
    let (cx, cz) = col.key();
    let wx = cx * 16 + x as i32;
    let wz = cz * 16 + z as i32;
    let n = face(f).normal;
    let nx = wx + n.0 as i32;
    let ny = y as i32 + n.1 as i32;
    let nz = wz + n.2 as i32;
    if world.get_block(nx, ny, nz).is_opaque() {
        return None;
    }
    let (block_light, sky_light) = world.get_light(nx, ny, nz);
    Some(WorldFaceDraw { x: wx, y: y as i32, z: wz, face: f as u8, block, block_light, sky_light })
}

/// Every visible face of every loaded column, with culling across
/// column borders too (a face toward an unloaded column is drawn).
pub fn visible_world_faces(world: &World) -> (r: Vec<WorldFaceDraw>)
    requires
        world.wf(),
        forall|k: (i32, i32)| #[trigger] world@.contains_key(k) ==> column_in_range(world@[k]),
    ensures
        // Column by column, in the order the world hands them out (which
        // is left open), each loaded column exactly once.
        exists|cols: Seq<ChunkColumn>|
            world.enumerates(cols) && r@ == world_faces(*world, cols, cols.len() as int),
{
    let columns = world.columns();
    let ghost cols = columns@.map_values(|c: &ChunkColumn| *c);
    let mut out: Vec<WorldFaceDraw> = Vec::new();
    let mut c: usize = 0;
    while c < columns.len()
        invariant
            world.wf(),
            world.enumerates(cols),
            forall|k: (i32, i32)| #[trigger] world@.contains_key(k) ==> column_in_range(world@[k]),
            cols == columns@.map_values(|c: &ChunkColumn| *c),
            c <= columns@.len(),
            out@ == world_faces(*world, cols, c as int),
        decreases columns.len() - c,
    {
        let col: &ChunkColumn = columns[c];
        proof {
            world.lemma_wf();
            assert(*col == cols[c as int]);
            assert(world@.contains_key(column_key(cols[c as int])));
            assert(column_in_range(*col));
        }
        let ghost before_c = out@;
        let mut y: usize = 0;
        while y < WORLD_HEIGHT
            invariant
                world.wf(),
                col.wf(),
                column_in_range(*col),
                y <= 256,
                out@ == before_c + column_faces(*world, *col, y as int),
            decreases 256 - y,
        {
            let ghost before_y = out@;
            let mut z: usize = 0;
            while z < CHUNK_SIZE
                invariant
                    world.wf(),
                    col.wf(),
                    column_in_range(*col),
                    y < 256,
                    z <= 16,
                    out@ == before_y + world_layer_faces(*world, *col, y as int, z as int),
                decreases 16 - z,
            {
                let ghost before_z = out@;
                let mut x: usize = 0;
                while x < CHUNK_SIZE
                    invariant
                        world.wf(),
                        col.wf(),
                        column_in_range(*col),
                        y < 256,
                        z < 16,
                        x <= 16,
                        out@ == before_z + world_row_faces(*world, *col, y as int, z as int, x as int),
                    decreases 16 - x,
                {
                    let ghost before_x = out@;
                    let block = col.get_block(x, y, z);
                    if !block.is_air() {
                        let mut f: usize = 0;
                        while f < 6
                            invariant
                                world.wf(),
                                col.wf(),
                                column_in_range(*col),
                                y < 256,
                                z < 16,
                                x < 16,
                                f <= 6,
                                block == col.block_at(x as int, y as int, z as int),
                                block.0 != 0,
                                out@ == before_x + world_block_faces(
                                    *world,
                                    *col,
                                    x as int,
                                    y as int,
                                    z as int,
                                    f as int,
                                ),
                            decreases 6 - f,
                        {
                            match world_face_draw(world, col, x, y, z, f, block) {
                                Some(d) => {
                                    out.push(d);
                                },
                                None => {},
                            }
                            assert(out@ =~= before_x + world_block_faces(
                                *world,
                                *col,
                                x as int,
                                y as int,
                                z as int,
                                f + 1,
                            ));
                            f = f + 1;
                        }
                    } else {
                        assert forall|k: int| 0 <= k <= 6 implies #[trigger] world_block_faces(
                            *world,
                            *col,
                            x as int,
                            y as int,
                            z as int,
                            k,
                        ) == Seq::<WorldFaceDraw>::empty() by {
                            lemma_air_shows_no_world_faces(*world, *col, x as int, y as int, z as int, k);
                        }
                    }
                    assert(out@ =~= before_z + world_row_faces(*world, *col, y as int, z as int, x + 1));
                    x = x + 1;
                }
                assert(out@ =~= before_y + world_layer_faces(*world, *col, y as int, z + 1));
                z = z + 1;
            }
            assert(out@ =~= before_c + column_faces(*world, *col, y + 1));
            y = y + 1;
        }
        assert(out@ =~= world_faces(*world, cols, c + 1));
        c = c + 1;
    }
    assert(world.enumerates(cols) && out@ == world_faces(*world, cols, cols.len() as int));
    out
}

/// An air block of a column shows no face.
pub proof fn lemma_air_shows_no_world_faces(w: World, col: ChunkColumn, x: int, y: int, z: int, n: int)
    requires
        col.block_at(x, y, z).0 == 0,
    ensures
        world_block_faces(w, col, x, y, z, n) == Seq::<WorldFaceDraw>::empty(),
    decreases n,
{
    if n > 0 {
        lemma_air_shows_no_world_faces(w, col, x, y, z, n - 1);
        assert(world_block_faces(w, col, x, y, z, n) =~= Seq::<WorldFaceDraw>::empty());
    }
}

} // verus!
