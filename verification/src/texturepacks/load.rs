//! Atlas keys: every texture lives in the atlas under its folder
//! ("blocks/" or "items/") followed by its name, plus one reserved key
//! for the "missing texture" tile.

use vstd::prelude::*;
use vstd::string::StringExecFns;
use vstd::utf8::{decode_utf8, valid_utf8};

use crate::text::{ends_with, str_ends_with, str_eq};
use crate::texturepacks::archive::{
    zip_entry, zip_entry_contents, zip_entry_names, zip_entry_opens, zip_entry_reads, zip_entry_text,
    zip_names, zip_opens, EntryRead, EntryText,
};
use crate::texturepacks::atlas::{
    build_atlas, built_from, grid_entries, last_rect, lemma_known_name_has_rect, TextureAtlas,
};
use crate::texturepacks::coverage::{
    category_path, check_coverage, missing_names, provided_count, texture_path, views, CoverageReport,
};
use crate::texturepacks::error::TexturePackError;
use crate::texturepacks::fallback::{
    dark_gray, generate_fallback_texture, generate_missing_texture, is_checker, light_gray,
    missing_black, missing_magenta, Tile,
};
use crate::texturepacks::known_textures::{BLOCK_TEXTURES, ITEM_TEXTURES};
use crate::texturepacks::pack::PackMeta;

verus! {

/// Reserved atlas key of the magenta/black "missing texture" tile that
/// every atlas built here holds.
pub const MISSING_TEXTURE_KEY: &'static str = "missing";

/// Atlas key of the block texture `name`, e.g. "blocks/stone".
pub fn block_atlas_key(name: &str) -> (key: String)
    ensures
        key@ == "blocks/"@ + name@,
{
    let mut key = String::from_str("blocks/");
    key.append(name);
    key
}

/// Atlas key of the item texture `name`, e.g. "items/apple".
pub fn item_atlas_key(name: &str) -> (key: String)
    ensures
        key@ == "items/"@ + name@,
{
    let mut key = String::from_str("items/");
    key.append(name);
    key
}

/// The RGBA pixels (width, height, pixels) an encoded image decodes to,
/// if it decodes.
pub uninterp spec fn decoded_rgba(bytes: Seq<u8>) -> Option<(u32, u32, Seq<u8>)>;

/// `image::load_from_memory` followed by `to_rgba8`. The contract names
/// the decoded image and claims it is a well-formed RGBA buffer of
/// nonzero size: only the PNG decoder is built, and it refuses zero
/// dimensions.
#[verifier::external_body]
fn decode_rgba(bytes: &[u8]) -> (r: Option<Tile>)
    ensures
        match r {
            Some(t) => decoded_rgba(bytes@) == Some((t.width, t.height, t.pixels@)) && t.wf()
                && t.width > 0 && t.height > 0,
            None => decoded_rgba(bytes@) is None,
        },
{
    match image::load_from_memory(bytes) {
        Ok(decoded) => {
            let rgba = decoded.to_rgba8();
            Some(Tile { width: rgba.width(), height: rgba.height(), pixels: rgba.into_raw() })
        },
        Err(_) => None,
    }
}

/// `t` is the tile an entry's bytes give: the decoded image, or the
/// neutral fallback when they do not decode.
pub open spec fn tile_from_bytes(bytes: Seq<u8>, t: Tile) -> bool {
    match decoded_rgba(bytes) {
        Some((w, h, p)) => t.width == w && t.height == h && t.pixels@ == p,
        None => is_checker(t, light_gray(), dark_gray()),
    }
}

/// `names[i]` is the first name ending with `suffix`.
pub open spec fn first_ending(names: Seq<String>, i: int, suffix: Seq<char>) -> bool {
    &&& 0 <= i < names.len()
    &&& str_ends_with(names[i]@, suffix)
    &&& forall|j: int| 0 <= j < i ==> !str_ends_with(#[trigger] names[j]@, suffix)
}

/// What loading the texture at `path` gives when the archive entry
/// `full` is the one found for it.
pub open spec fn entry_tile(archive: Seq<u8>, full: Seq<char>, r: Result<Tile, TexturePackError>) -> bool {
    if !zip_opens(archive) || !zip_entry_opens(archive, full) {
        r matches Err(TexturePackError::Zip(_))
    } else if !zip_entry_reads(archive, full) {
        r matches Err(TexturePackError::Io(_))
    } else {
        r matches Ok(t) && tile_from_bytes(zip_entry_contents(archive, full), t)
    }
}

/// What loading the texture at `path` gives: the neutral fallback when
/// no entry ends with the path, else the first such entry's tile.
pub open spec fn texture_tile(
    archive: Seq<u8>,
    names: Seq<String>,
    path: Seq<char>,
    r: Result<Tile, TexturePackError>,
) -> bool {
    &&& (forall|j: int| 0 <= j < names.len() ==> !str_ends_with(#[trigger] names[j]@, path)) ==> (r matches Ok(
        t,
    ) && is_checker(t, light_gray(), dark_gray()))
    &&& forall|i: int| first_ending(names, i, path) ==> entry_tile(archive, names[i]@, r)
    &&& r matches Ok(t) ==> t.wf() && t.width > 0 && t.height > 0
}

/// The tile for the texture at `relative_path`: the first entry whose
/// name ends with it, decoded, or the neutral fallback when there is no
/// such entry or it does not decode as an image.
fn load_or_fallback(archive: &[u8], names: &[String], relative_path: &str) -> (r: Result<Tile, TexturePackError>)
    ensures
        texture_tile(archive@, names@, relative_path@, r),
{
    let mut i: usize = 0;
    while i < names.len() && !ends_with(names[i].as_str(), relative_path)
        invariant
            i <= names@.len(),
            forall|j: int| 0 <= j < i ==> !str_ends_with(#[trigger] names@[j]@, relative_path@),
        decreases names.len() - i,
    {
        i = i + 1;
    }
    if i == names.len() {
        let t = generate_fallback_texture();
        return Ok(t);
    }
    assert(first_ending(names@, i as int, relative_path@));
    assert forall|k: int| first_ending(names@, k, relative_path@) implies k == i by {
        if k < i {
        } else if k > i {
            assert(!str_ends_with(names@[i as int]@, relative_path@));
        }
    }
    let full = names[i].as_str();
    match zip_entry(archive, full) {
        EntryRead::Unopened(e) => Err(TexturePackError::Zip(e)),
        EntryRead::Missing(e) => Err(TexturePackError::Zip(e)),
        EntryRead::ReadFailed(e) => Err(TexturePackError::Io(e)),
        EntryRead::Contents(bytes) => match decode_rgba(bytes.as_slice()) {
            Some(t) => Ok(t),
            None => Ok(generate_fallback_texture()),
        },
    }
}

/// The text of the archive's `pack.mcmeta`, for the caller to parse:
/// an archive that does not open is a zip error, a missing (or
/// unopenable) `pack.mcmeta` is invalid metadata, and a read failure or
/// non-UTF-8 contents an I/O error.
pub fn pack_meta_text(archive: &[u8]) -> (r: Result<String, TexturePackError>)
    ensures
        !zip_opens(archive@) ==> r matches Err(TexturePackError::Zip(_)),
        zip_opens(archive@) && !zip_entry_opens(archive@, "pack.mcmeta"@) ==> (r matches Err(
            TexturePackError::InvalidPackMeta(m),
        ) && m@ == "no pack.mcmeta in archive"@),
        zip_opens(archive@) && zip_entry_opens(archive@, "pack.mcmeta"@) ==> if zip_entry_reads(
            archive@,
            "pack.mcmeta"@,
        ) && valid_utf8(zip_entry_contents(archive@, "pack.mcmeta"@)) {
            r matches Ok(text) && text@ == decode_utf8(zip_entry_contents(archive@, "pack.mcmeta"@))
        } else {
            r matches Err(TexturePackError::Io(_))
        },
{
    match zip_entry_text(archive, "pack.mcmeta") {
        EntryText::Unopened(e) => Err(TexturePackError::Zip(e)),
        EntryText::Missing(_) => Err(
            TexturePackError::InvalidPackMeta(String::from_str("no pack.mcmeta in archive")),
        ),
        EntryText::ReadFailed(e) => Err(TexturePackError::Io(e)),
        EntryText::Text(text) => Ok(text),
    }
}

/// A loaded pack: its metadata, how much of the known texture list it
/// covers, and the atlas of its textures (with fallbacks).
pub struct LoadedPack {
    pub meta: PackMeta,
    pub coverage: CoverageReport,
    pub atlas: TextureAtlas,
}

/// The tile of known texture `name` of `category` under its atlas key.
pub open spec fn known_tile(
    archive: Seq<u8>,
    names: Seq<String>,
    category: Seq<char>,
    name: Seq<char>,
    entry: (String, Tile),
) -> bool {
    &&& entry.0@ == category + "/"@ + name
    &&& texture_tile(archive, names, texture_path(category, name), Ok(entry.1))
}

/// The atlas tiles of a pack: the "missing" tile first, then every known
/// block texture and every known item texture, in list order.
pub open spec fn pack_tiles(archive: Seq<u8>, names: Seq<String>, tiles: Seq<(String, Tile)>) -> bool {
    &&& tiles.len() == 1 + BLOCK_TEXTURES@.len() + ITEM_TEXTURES@.len()
    &&& tiles[0].0@ == MISSING_TEXTURE_KEY@
    &&& is_checker(tiles[0].1, missing_magenta(), missing_black())
    &&& forall|k: int|
        0 <= k < BLOCK_TEXTURES@.len() ==> known_tile(
            archive,
            names,
            "blocks"@,
            BLOCK_TEXTURES@[k]@,
            #[trigger] tiles[1 + k],
        )
    &&& forall|k: int|
        0 <= k < ITEM_TEXTURES@.len() ==> known_tile(
            archive,
            names,
            "items"@,
            ITEM_TEXTURES@[k]@,
            #[trigger] tiles[1 + BLOCK_TEXTURES@.len() + k],
        )
}

/// `report` is the coverage of a pack listing `names`.
pub open spec fn coverage_of(names: Seq<String>, report: CoverageReport) -> bool {
    &&& report.found == provided_count(names, "blocks"@, BLOCK_TEXTURES@) + provided_count(
        names,
        "items"@,
        ITEM_TEXTURES@,
    )
    &&& report.total == BLOCK_TEXTURES@.len() + ITEM_TEXTURES@.len()
    &&& views(report.missing_blocks@) == missing_names(names, "blocks"@, BLOCK_TEXTURES@)
    &&& views(report.missing_items@) == missing_names(names, "items"@, ITEM_TEXTURES@)
}

/// Appends the tiles of `list` (of `category`) to `tiles`.
fn push_known_tiles(
    archive: &[u8],
    names: &[String],
    category: &str,
    list: &[&'static str],
    tiles: &mut Vec<(String, Tile)>,
) -> (r: Result<(), TexturePackError>)
    requires
        category@ == "blocks"@ || category@ == "items"@,
        old(tiles)@.len() + list@.len() <= 1048576,
    ensures
        r is Ok ==> final(tiles)@.len() == old(tiles)@.len() + list@.len(),
        r is Ok ==> final(tiles)@.take(old(tiles)@.len() as int) == old(tiles)@,
        r is Ok ==> forall|k: int|
            0 <= k < list@.len() ==> known_tile(
                archive@,
                names@,
                category@,
                list@[k]@,
                #[trigger] final(tiles)@[old(tiles)@.len() + k],
            ),
        r is Err ==> exists|k: int, i: int|
            0 <= k < list@.len() && first_ending(names@, i, texture_path(category@, list@[k]@))
                && !(zip_opens(archive@) && zip_entry_opens(archive@, names@[i]@) && zip_entry_reads(
                archive@,
                names@[i]@,
            )),
{
    let ghost start = tiles@;
    let mut k: usize = 0;
    while k < list.len()
        invariant
            category@ == "blocks"@ || category@ == "items"@,
            k <= list@.len(),
            tiles@.len() == start.len() + k,
            tiles@.take(start.len() as int) == start,
            forall|j: int|
                0 <= j < k ==> known_tile(
                    archive@,
                    names@,
                    category@,
                    list@[j]@,
                    #[trigger] tiles@[start.len() + j],
                ),
        decreases list.len() - k,
    {
        let name = list[k];
        let key = if str_eq(category, "blocks") {
            block_atlas_key(name)
        } else {
            item_atlas_key(name)
        };
        proof {
            reveal_strlit("blocks");
            reveal_strlit("blocks/");
            reveal_strlit("items");
            reveal_strlit("items/");
            reveal_strlit("/");
            assert(key@ == category@ + "/"@ + name@);
        }
        let relative = category_path(category, name);
        let loaded = load_or_fallback(archive, names, relative.as_str());
        let tile = match loaded {
            Ok(t) => t,
            Err(e) => {
                proof {
                    if forall|j: int| 0 <= j < names@.len() ==> !str_ends_with(#[trigger] names@[j]@, relative@) {
                    } else {
                        let i = choose|i: int| 0 <= i < names@.len() && str_ends_with(names@[i]@, relative@);
                        lemma_first_ending_exists(names@, i, relative@);
                    }
                }
                return Err(e);
            },
        };
        let ghost before = tiles@;
        tiles.push((key, tile));
        assert forall|j: int| 0 <= j < k + 1 implies known_tile(
            archive@,
            names@,
            category@,
            list@[j]@,
            #[trigger] tiles@[start.len() + j],
        ) by {
            if j < k {
                assert(tiles@[start.len() + j] == before[start.len() + j]);
            }
        }
        assert(tiles@.take(start.len() as int) =~= start);
        k = k + 1;
    }
    Ok(())
}

/// The atlas keys every pack atlas holds: the "missing" tile first,
/// then "blocks/<name>" for each known block texture and
/// "items/<name>" for each known item texture.
pub open spec fn has_known_keys(tiles: Seq<(String, Tile)>) -> bool {
    &&& tiles.len() == 1 + BLOCK_TEXTURES@.len() + ITEM_TEXTURES@.len()
    &&& tiles[0].0@ == MISSING_TEXTURE_KEY@
    &&& forall|k: int|
        0 <= k < BLOCK_TEXTURES@.len() ==> (#[trigger] tiles[1 + k]).0@ == "blocks"@ + "/"@
            + BLOCK_TEXTURES@[k]@
    &&& forall|k: int|
        0 <= k < ITEM_TEXTURES@.len() ==> (#[trigger] tiles[1 + BLOCK_TEXTURES@.len() + k]).0@
            == "items"@ + "/"@ + ITEM_TEXTURES@[k]@
}

/// Every key an atlas must serve: the "missing" tile and the tile of
/// every known block and item texture.
pub open spec fn serves_known_keys(atlas: TextureAtlas) -> bool {
    &&& last_rect(atlas.entries(), MISSING_TEXTURE_KEY@) is Some
    &&& forall|k: int|
        0 <= k < BLOCK_TEXTURES@.len() ==> (#[trigger] last_rect(
            atlas.entries(),
            "blocks"@ + "/"@ + BLOCK_TEXTURES@[k]@,
        )) is Some
    &&& forall|k: int|
        0 <= k < ITEM_TEXTURES@.len() ==> (#[trigger] last_rect(
            atlas.entries(),
            "items"@ + "/"@ + ITEM_TEXTURES@[k]@,
        )) is Some
}

/// An atlas built from tiles carrying every known key has a rectangle
/// for each of them, so the renderer never lacks the tile of a known
/// texture nor the "missing" tile.
pub proof fn lemma_known_keys_served(tiles: Seq<(String, Tile)>, atlas: TextureAtlas)
    requires
        has_known_keys(tiles),
        built_from(tiles, atlas),
    ensures
        serves_known_keys(atlas),
{
    let g = choose|g: int|
        {
            &&& crate::texturepacks::atlas::is_grid_side(tiles.len(), g)
            &&& atlas.img().width == g * 16
            &&& atlas.img().height == g * 16
            &&& atlas.img().pixels@ == crate::texturepacks::atlas::atlas_pixels(tiles, g, tiles.len())
            &&& atlas.entries() == grid_entries(tiles, g)
        };
    let e = atlas.entries();
    assert(e == grid_entries(tiles, g));
    lemma_known_name_has_rect(e, MISSING_TEXTURE_KEY@, 0);
    assert forall|k: int| 0 <= k < BLOCK_TEXTURES@.len() implies (#[trigger] last_rect(
        e,
        "blocks"@ + "/"@ + BLOCK_TEXTURES@[k]@,
    )) is Some by {
        assert(tiles[1 + k].0@ == "blocks"@ + "/"@ + BLOCK_TEXTURES@[k]@);
        lemma_known_name_has_rect(e, "blocks"@ + "/"@ + BLOCK_TEXTURES@[k]@, 1 + k);
    }
    assert forall|k: int| 0 <= k < ITEM_TEXTURES@.len() implies (#[trigger] last_rect(
        e,
        "items"@ + "/"@ + ITEM_TEXTURES@[k]@,
    )) is Some by {
        let idx = 1 + BLOCK_TEXTURES@.len() + k;
        assert(tiles[idx].0@ == "items"@ + "/"@ + ITEM_TEXTURES@[k]@);
        lemma_known_name_has_rect(e, "items"@ + "/"@ + ITEM_TEXTURES@[k]@, idx);
    }
}

/// Loads a pack from its zip archive (held in memory) and its already
/// parsed `pack.mcmeta`: checks coverage and builds the atlas from the
/// pack's textures where present (the first entry ending with a
/// texture's path; which one is first follows the archive's listing,
/// whose order is not stated) and the neutral fallback elsewhere, with
/// the "missing" tile first. It succeeds whenever the archive opens and
/// every entry reads; a texture entry that cannot be opened or read
/// fails it.
pub fn load_pack_from_archive(archive: &[u8], meta: PackMeta) -> (r: Result<LoadedPack, TexturePackError>)
    ensures
        !zip_opens(archive@) ==> r matches Err(TexturePackError::Zip(_)),
        zip_opens(archive@) && (forall|n: Seq<char>|
            #[trigger] zip_entry_names(archive@).contains(n) ==> zip_entry_opens(archive@, n)
                && zip_entry_reads(archive@, n)) ==> r is Ok,
        r matches Ok(pack) ==> {
            &&& pack.meta == meta
            &&& serves_known_keys(pack.atlas)
            &&& exists|names: Seq<String>, tiles: Seq<(String, Tile)>|
                {
                    &&& views(names).to_set() == zip_entry_names(archive@)
                    &&& coverage_of(names, pack.coverage)
                    &&& pack_tiles(archive@, names, tiles)
                    &&& built_from(tiles, pack.atlas)
                }
        },
{
    let names = match zip_names(archive) {
        Ok(names) => names,
        Err(e) => return Err(TexturePackError::Zip(e)),
    };
    let coverage = check_coverage(names.as_slice());
    let mut tiles: Vec<(String, Tile)> = Vec::new();
    tiles.push((String::from_str(MISSING_TEXTURE_KEY), generate_missing_texture()));
    let ghost first_only = tiles@;
    let blocks_pushed = push_known_tiles(archive, names.as_slice(), "blocks", BLOCK_TEXTURES.as_slice(), &mut tiles);
    if let Err(e) = blocks_pushed {
        proof {
            lemma_failed_read_is_a_listed_entry(archive@, names@, "blocks"@, BLOCK_TEXTURES@);
        }
        return Err(e);
    }
    let ghost after_blocks = tiles@;
    let items_pushed = push_known_tiles(archive, names.as_slice(), "items", ITEM_TEXTURES.as_slice(), &mut tiles);
    if let Err(e) = items_pushed {
        proof {
            lemma_failed_read_is_a_listed_entry(archive@, names@, "items"@, ITEM_TEXTURES@);
        }
        return Err(e);
    }
    proof {
        reveal_strlit("missing");
        assert forall|k: int| 0 <= k < BLOCK_TEXTURES@.len() implies known_tile(
            archive@,
            names@,
            "blocks"@,
            BLOCK_TEXTURES@[k]@,
            #[trigger] tiles@[1 + k],
        ) by {
            assert(tiles@.take(after_blocks.len() as int)[1 + k] == tiles@[1 + k]);
        }
        // The "missing" tile stays first through both appends.
        assert(after_blocks.take(1)[0] == first_only[0]);
        assert(tiles@.take(after_blocks.len() as int)[0] == after_blocks[0]);
        assert forall|k: int| 0 <= k < ITEM_TEXTURES@.len() implies known_tile(
            archive@,
            names@,
            "items"@,
            ITEM_TEXTURES@[k]@,
            #[trigger] tiles@[1 + BLOCK_TEXTURES@.len() + k],
        ) by {
            assert(tiles@[after_blocks.len() + k] == tiles@[1 + BLOCK_TEXTURES@.len() + k]);
        }
        assert(pack_tiles(archive@, names@, tiles@));
        assert forall|i: int|
            0 <= i < tiles@.len() implies (#[trigger] tiles@[i]).1.wf() && tiles@[i].1.width > 0
                && tiles@[i].1.height > 0 by {
            if i == 0 {
            } else if i < 1 + BLOCK_TEXTURES@.len() {
                assert(known_tile(archive@, names@, "blocks"@, BLOCK_TEXTURES@[i - 1]@, tiles@[1 + (i - 1)]));
            } else {
                let k = i - 1 - BLOCK_TEXTURES@.len();
                assert(known_tile(
                    archive@,
                    names@,
                    "items"@,
                    ITEM_TEXTURES@[k]@,
                    tiles@[1 + BLOCK_TEXTURES@.len() + k],
                ));
            }
        }
    }
    let ghost all_tiles = tiles@;
    let atlas = build_atlas(tiles);
    proof {
        lemma_known_keys_served(all_tiles, atlas);
    }
    Ok(LoadedPack { meta, coverage, atlas })
}

/// The tiles of the fallback atlas: the "missing" tile, then the
/// neutral fallback under every known key.
pub open spec fn fallback_tiles(tiles: Seq<(String, Tile)>) -> bool {
    &&& has_known_keys(tiles)
    &&& is_checker(tiles[0].1, missing_magenta(), missing_black())
    &&& forall|i: int| 1 <= i < tiles.len() ==> is_checker(#[trigger] tiles[i].1, light_gray(), dark_gray())
}

/// Appends the neutral fallback under the key of every name of `list`.
fn push_fallback_tiles(category: &str, list: &[&'static str], tiles: &mut Vec<(String, Tile)>)
    requires
        category@ == "blocks"@ || category@ == "items"@,
    ensures
        final(tiles)@.len() == old(tiles)@.len() + list@.len(),
        final(tiles)@.take(old(tiles)@.len() as int) == old(tiles)@,
        forall|k: int|
            0 <= k < list@.len() ==> (#[trigger] final(tiles)@[old(tiles)@.len() + k]).0@ == category@
                + "/"@ + list@[k]@ && is_checker(
                final(tiles)@[old(tiles)@.len() + k].1,
                light_gray(),
                dark_gray(),
            ),
{
    let ghost start = tiles@;
    let mut k: usize = 0;
    while k < list.len()
        invariant
            category@ == "blocks"@ || category@ == "items"@,
            k <= list@.len(),
            tiles@.len() == start.len() + k,
            tiles@.take(start.len() as int) == start,
            forall|j: int|
                0 <= j < k ==> (#[trigger] tiles@[start.len() + j]).0@ == category@ + "/"@ + list@[j]@
                    && is_checker(tiles@[start.len() + j].1, light_gray(), dark_gray()),
        decreases list.len() - k,
    {
        let name = list[k];
        let key = if str_eq(category, "blocks") {
            block_atlas_key(name)
        } else {
            item_atlas_key(name)
        };
        proof {
            reveal_strlit("blocks");
            reveal_strlit("blocks/");
            reveal_strlit("items");
            reveal_strlit("items/");
            reveal_strlit("/");
            assert(key@ == category@ + "/"@ + name@);
        }
        let ghost before = tiles@;
        tiles.push((key, generate_fallback_texture()));
        assert forall|j: int| 0 <= j < k + 1 implies (#[trigger] tiles@[start.len() + j]).0@ == category@
            + "/"@ + list@[j]@ && is_checker(tiles@[start.len() + j].1, light_gray(), dark_gray()) by {
            if j < k {
                assert(tiles@[start.len() + j] == before[start.len() + j]);
            }
        }
        assert(tiles@.take(start.len() as int) =~= start);
        k = k + 1;
    }
}

/// The atlas of the fallback tiles alone, with no pack: what the world
/// is textured with before (or without) a pack being picked.
pub fn build_fallback_atlas() -> (atlas: TextureAtlas)
    ensures
        serves_known_keys(atlas),
        exists|tiles: Seq<(String, Tile)>| fallback_tiles(tiles) && built_from(tiles, atlas),
{
    let mut tiles: Vec<(String, Tile)> = Vec::new();
    tiles.push((String::from_str(MISSING_TEXTURE_KEY), generate_missing_texture()));
    let ghost first_only = tiles@;
    push_fallback_tiles("blocks", BLOCK_TEXTURES.as_slice(), &mut tiles);
    let ghost after_blocks = tiles@;
    push_fallback_tiles("items", ITEM_TEXTURES.as_slice(), &mut tiles);
    proof {
        reveal_strlit("blocks");
        reveal_strlit("items");
        assert(after_blocks.take(1)[0] == after_blocks[0]);
        assert(tiles@.take(after_blocks.len() as int)[0] == tiles@[0]);
        assert forall|k: int| 0 <= k < BLOCK_TEXTURES@.len() implies (#[trigger] tiles@[1 + k]).0@
            == "blocks"@ + "/"@ + BLOCK_TEXTURES@[k]@ && is_checker(tiles@[1 + k].1, light_gray(), dark_gray()) by {
            assert(after_blocks[1 + k] == tiles@.take(after_blocks.len() as int)[1 + k]);
        }
        assert forall|k: int| 0 <= k < ITEM_TEXTURES@.len() implies (#[trigger] tiles@[1
            + BLOCK_TEXTURES@.len() + k]).0@ == "items"@ + "/"@ + ITEM_TEXTURES@[k]@ by {
            assert(tiles@[after_blocks.len() + k] == tiles@[1 + BLOCK_TEXTURES@.len() + k]);
        }
        assert forall|i: int| 1 <= i < tiles@.len() implies is_checker(
            #[trigger] tiles@[i].1,
            light_gray(),
            dark_gray(),
        ) by {
            if i < 1 + BLOCK_TEXTURES@.len() {
                assert(tiles@[1 + (i - 1)] == tiles@[i]);
            } else {
                assert(tiles@[after_blocks.len() + (i - after_blocks.len())] == tiles@[i]);
            }
        }
        assert(fallback_tiles(tiles@));
        assert forall|i: int|
            0 <= i < tiles@.len() implies (#[trigger] tiles@[i]).1.wf() && tiles@[i].1.width > 0
                && tiles@[i].1.height > 0 by {
            if i > 0 {
                assert(is_checker(tiles@[i].1, light_gray(), dark_gray()));
            } else {
                assert(is_checker(tiles@[0].1, missing_magenta(), missing_black()));
            }
        }
    }
    let ghost all_tiles = tiles@;
    let atlas = build_atlas(tiles);
    proof {
        lemma_known_keys_served(all_tiles, atlas);
    }
    atlas
}

/// The coverage report of a pack's zip archive (held in memory): a zip
/// error when the archive does not open, else the coverage of the
/// entries it lists.
pub fn check_archive_coverage(archive: &[u8]) -> (r: Result<CoverageReport, TexturePackError>)
    ensures
        r is Err == !zip_opens(archive@),
        match r {
            Ok(report) => exists|names: Seq<String>|
                views(names).to_set() == zip_entry_names(archive@) && coverage_of(names, report),
            Err(e) => e is Zip,
        },
{
    match zip_names(archive) {
        Ok(names) => {
            let report = check_coverage(names.as_slice());
            let r = Ok(report);
            proof {
                let w = names@;
                assert(views(w).to_set() == zip_entry_names(archive@));
                assert(coverage_of(w, r->Ok_0));
            }
            r
        },
        Err(e) => Err(TexturePackError::Zip(e)),
    }
}

/// A texture read that failed read an entry of the archive, so when
/// every entry reads, no texture read fails.
proof fn lemma_failed_read_is_a_listed_entry(
    archive: Seq<u8>,
    names: Seq<String>,
    category: Seq<char>,
    list: Seq<&str>,
)
    requires
        views(names).to_set() == zip_entry_names(archive),
        zip_opens(archive),
        exists|k: int, i: int|
            0 <= k < list.len() && first_ending(names, i, texture_path(category, list[k]@)) && !(zip_opens(
                archive,
            ) && zip_entry_opens(archive, names[i]@) && zip_entry_reads(archive, names[i]@)),
    ensures
        !(forall|n: Seq<char>|
            #[trigger] zip_entry_names(archive).contains(n) ==> zip_entry_opens(archive, n)
                && zip_entry_reads(archive, n)),
{
    let (k, i) = choose|k: int, i: int|
        0 <= k < list.len() && first_ending(names, i, texture_path(category, list[k]@)) && !(zip_opens(
            archive,
        ) && zip_entry_opens(archive, names[i]@) && zip_entry_reads(archive, names[i]@));
    assert(views(names)[i] == names[i]@);
    assert(views(names).contains(names[i]@));
    assert(zip_entry_names(archive).contains(names[i]@));
}

/// When some name ends with `suffix`, a first such name exists.
proof fn lemma_first_ending_exists(names: Seq<String>, i: int, suffix: Seq<char>)
    requires
        0 <= i < names.len(),
        str_ends_with(names[i]@, suffix),
    ensures
        exists|f: int| first_ending(names, f, suffix),
    decreases i,
{
    if forall|j: int| 0 <= j < i ==> !str_ends_with(#[trigger] names[j]@, suffix) {
        assert(first_ending(names, i, suffix));
    } else {
        let j = choose|j: int| 0 <= j < i && str_ends_with(names[j]@, suffix);
        lemma_first_ending_exists(names, j, suffix);
    }
}

} // verus!
