//! Maps the block ids known so far to the block texture names packed
//! into the atlas. Any other id uses the atlas's reserved "missing"
//! tile.

use vstd::prelude::*;

use crate::block::{BlockId, BEDROCK, COBBLESTONE, DIRT, GRASS, LEAVES, LOG, SAND, STONE, WOOD_PLANKS};
use crate::texturepacks::atlas::{last_rect, AtlasRect, TextureAtlas};
use crate::texturepacks::load::{block_atlas_key, MISSING_TEXTURE_KEY};

verus! {

/// Which of a block's textures a face samples.
#[derive(Debug, Clone, Copy, PartialEq, Eq, Structural)]
pub enum FaceKind {
    Top,
    Bottom,
    Side,
}

/// Per-face texture names (without the "blocks/" atlas prefix) of one
/// block. Most blocks use one texture on every face.
pub struct BlockFaces {
    pub top: &'static str,
    pub bottom: &'static str,
    pub side: &'static str,
}

impl BlockFaces {
    fn uniform(name: &'static str) -> (f: Self)
        ensures
            f.top == name,
            f.bottom == name,
            f.side == name,
    {
        BlockFaces { top: name, bottom: name, side: name }
    }

    /// The texture name `face` samples.
    pub fn name_for(&self, face: FaceKind) -> (n: &'static str)
        ensures
            n == match face {
                FaceKind::Top => self.top,
                FaceKind::Bottom => self.bottom,
                FaceKind::Side => self.side,
            },
    {
        match face {
            FaceKind::Top => self.top,
            FaceKind::Bottom => self.bottom,
            FaceKind::Side => self.side,
        }
    }
}

/// The (top, bottom, side) texture names of block id `id`, for the ids
/// that have a mapping.
pub open spec fn face_names(id: u16) -> Option<(Seq<char>, Seq<char>, Seq<char>)> {
    if id == STONE {
        Some(("stone"@, "stone"@, "stone"@))
    } else if id == DIRT {
        Some(("dirt"@, "dirt"@, "dirt"@))
    } else if id == GRASS {
        Some(("grass_top"@, "dirt"@, "grass_side"@))
    } else if id == COBBLESTONE {
        Some(("cobblestone"@, "cobblestone"@, "cobblestone"@))
    } else if id == WOOD_PLANKS {
        Some(("planks_oak"@, "planks_oak"@, "planks_oak"@))
    } else if id == BEDROCK {
        Some(("bedrock"@, "bedrock"@, "bedrock"@))
    } else if id == SAND {
        Some(("sand"@, "sand"@, "sand"@))
    } else if id == LOG {
        Some(("log_oak_top"@, "log_oak_top"@, "log_oak"@))
    } else if id == LEAVES {
        Some(("leaves_oak"@, "leaves_oak"@, "leaves_oak"@))
    } else {
        None
    }
}

/// Every mapped block looks like itself: two different block ids never
/// share their (top, bottom, side) textures, nor even their side
/// texture. Exactly the nine known blocks are mapped (stone, grass, dirt,
/// cobblestone, planks, bedrock, sand, log, leaves), every other id has no
/// mapping, and the only blocks whose top differs from their side are
/// grass and the log, whose top (grass top, end grain) differs from every
/// texture that some other block shows.
pub proof fn lemma_block_textures_distinct(a: u16, b: u16)
    ensures
        face_names(a) is Some <==> (a == STONE || a == GRASS || a == DIRT || a == COBBLESTONE
            || a == WOOD_PLANKS || a == BEDROCK || a == SAND || a == LOG || a == LEAVES),
        a != b ==> match (face_names(a), face_names(b)) {
            (Some((top_a, bottom_a, side_a)), Some((top_b, bottom_b, side_b))) => {
                &&& side_a != side_b
                &&& (top_a, bottom_a, side_a) != (top_b, bottom_b, side_b)
                &&& (a == GRASS || a == LOG) ==> top_a != top_b && top_a != side_b
            },
            _ => true,
        },
        face_names(a) matches Some((top, _, side)) ==> (top != side <==> (a == GRASS || a == LOG)),
{
    reveal_strlit("stone");
    reveal_strlit("dirt");
    reveal_strlit("grass_top");
    reveal_strlit("grass_side");
    reveal_strlit("cobblestone");
    reveal_strlit("planks_oak");
    reveal_strlit("bedrock");
    reveal_strlit("sand");
    reveal_strlit("log_oak_top");
    reveal_strlit("log_oak");
    reveal_strlit("leaves_oak");
    let names = seq![
        "stone"@,
        "dirt"@,
        "grass_top"@,
        "grass_side"@,
        "cobblestone"@,
        "planks_oak"@,
        "bedrock"@,
        "sand"@,
        "log_oak_top"@,
        "log_oak"@,
        "leaves_oak"@,
    ];
    assert forall|i: int, j: int| 0 <= i < j < 11 implies #[trigger] names[i] != #[trigger] names[j] by {
        if names[i].len() == names[j].len() {
            assert(names[i][0] != names[j][0] || names[i][1] != names[j][1] || names[i][2]
                != names[j][2]);
        }
    }
    assert(names[0] == "stone"@);
    assert(names[1] == "dirt"@);
    assert(names[2] == "grass_top"@);
    assert(names[3] == "grass_side"@);
    assert(names[4] == "cobblestone"@);
    assert(names[5] == "planks_oak"@);
    assert(names[6] == "bedrock"@);
    assert(names[7] == "sand"@);
    assert(names[8] == "log_oak_top"@);
    assert(names[9] == "log_oak"@);
    assert(names[10] == "leaves_oak"@);
}

/// The texture mapping of `block`, if it has one.
pub fn block_faces(block: BlockId) -> (r: Option<BlockFaces>)
    ensures
        match r {
            Some(f) => face_names(block.0) == Some((f.top@, f.bottom@, f.side@)),
            None => face_names(block.0) is None,
        },
{
    let id = block.0;
    if id == STONE {
        Some(BlockFaces::uniform("stone"))
    } else if id == DIRT {
        Some(BlockFaces::uniform("dirt"))
    } else if id == GRASS {
        Some(BlockFaces { top: "grass_top", bottom: "dirt", side: "grass_side" })
    } else if id == COBBLESTONE {
        Some(BlockFaces::uniform("cobblestone"))
    } else if id == WOOD_PLANKS {
        Some(BlockFaces::uniform("planks_oak"))
    } else if id == BEDROCK {
        Some(BlockFaces::uniform("bedrock"))
    } else if id == SAND {
        Some(BlockFaces::uniform("sand"))
    } else if id == LOG {
        Some(BlockFaces { top: "log_oak_top", bottom: "log_oak_top", side: "log_oak" })
    } else if id == LEAVES {
        Some(BlockFaces::uniform("leaves_oak"))
    } else {
        None
    }
}

/// The atlas key a face of `block` samples, when the block has a
/// texture mapping.
pub open spec fn face_key(block: BlockId, face: FaceKind) -> Option<Seq<char>> {
    match face_names(block.0) {
        Some((top, bottom, side)) => Some(
            "blocks/"@ + match face {
                FaceKind::Top => top,
                FaceKind::Bottom => bottom,
                FaceKind::Side => side,
            },
        ),
        None => None,
    }
}

/// The atlas key a face of `block` samples.
pub fn face_texture_key(block: BlockId, face: FaceKind) -> (k: Option<String>)
    ensures
        match k {
            Some(s) => face_key(block, face) == Some(s@),
            None => face_key(block, face) is None,
        },
{
    match block_faces(block) {
        Some(faces) => Some(block_atlas_key(faces.name_for(face))),
        None => None,
    }
}

/// The atlas tile a face of `block` samples: its own texture's tile
/// when the block has a mapping and the atlas holds that texture, the
/// reserved "missing" tile otherwise (absent only from an atlas without
/// that tile).
pub fn face_rect(atlas: &TextureAtlas, block: BlockId, face: FaceKind) -> (r: Option<AtlasRect>)
    ensures
        r == match face_key(block, face) {
            Some(k) => match last_rect(atlas.entries(), k) {
                Some(rect) => Some(rect),
                None => last_rect(atlas.entries(), MISSING_TEXTURE_KEY@),
            },
            None => last_rect(atlas.entries(), MISSING_TEXTURE_KEY@),
        },
{
    match face_texture_key(block, face) {
        Some(key) => match atlas.rect(key.as_str()) {
            Some(rect) => Some(rect),
            None => atlas.rect(MISSING_TEXTURE_KEY),
        },
        None => atlas.rect(MISSING_TEXTURE_KEY),
    }
}

} // verus!
