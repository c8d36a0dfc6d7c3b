//! Packs named tiles into one square atlas image, left to right and top
//! to bottom on the smallest square grid that holds them all, with the
//! tile rectangle of every name: the pixel data the renderer uploads as
//! one texture for both the world and the UI.

use image::{imageops, RgbaImage};
use vstd::prelude::*;
use vstd::arithmetic::div_mod::{lemma_fundamental_div_mod, lemma_multiply_divide_lt};

use crate::text::str_eq;
use crate::texturepacks::fallback::{Tile, TEXTURE_SIZE};

verus! {

/// The top-left pixel of a tile inside the atlas.
#[derive(Debug, Clone, Copy, PartialEq, Eq, Structural)]
pub struct AtlasRect {
    pub x: u32,
    pub y: u32,
}

/// Pixels of an image resized with nearest-neighbor sampling.
pub uninterp spec fn resized(width: u32, height: u32, pixels: Seq<u8>, new_width: u32, new_height: u32) -> Seq<u8>;

/// Pixels of a square image after a tile was blended onto it at (x, y).
pub uninterp spec fn overlaid(
    bottom: Seq<u8>,
    bottom_size: u32,
    top_width: u32,
    top_height: u32,
    top: Seq<u8>,
    x: u32,
    y: u32,
) -> Seq<u8>;

/// `image::imageops::resize` with `FilterType::Nearest`. The contract
/// claims the result has the requested size (as the function's return
/// type documents) and names its pixels `resized`; which pixels are
/// sampled is left unsaid. Zero-sized sources are left out.
#[verifier::external_body]
fn resize_nearest(tile: &Tile, width: u32, height: u32) -> (r: Tile)
    requires
        tile.wf(),
        tile.width > 0,
        tile.height > 0,
        width as int * height as int * 4 <= usize::MAX,
    ensures
        r.width == width,
        r.height == height,
        r.wf(),
        r.pixels@ == resized(tile.width, tile.height, tile.pixels@, width, height),
{
    let source = RgbaImage::from_raw(tile.width, tile.height, tile.pixels.clone()).unwrap();
    let out = imageops::resize(&source, width, height, imageops::FilterType::Nearest);
    Tile { width, height, pixels: out.into_raw() }
}

/// `image::imageops::overlay`: alpha-blends `tile` onto the square
/// image `atlas` of side `size` with its top-left corner at (x, y). The
/// contract claims the image keeps its size (overlay writes pixels in
/// place) and names the blended pixels `overlaid`.
#[verifier::external_body]
fn overlay_tile(atlas: Vec<u8>, size: u32, tile: &Tile, x: u32, y: u32) -> (r: Vec<u8>)
    requires
        atlas@.len() == size as int * size as int * 4,
        tile.wf(),
    ensures
        r@.len() == atlas@.len(),
        r@ == overlaid(atlas@, size, tile.width, tile.height, tile.pixels@, x, y),
{
    let mut bottom = RgbaImage::from_raw(size, size, atlas).unwrap();
    let top = RgbaImage::from_raw(tile.width, tile.height, tile.pixels.clone()).unwrap();
    imageops::overlay(&mut bottom, &top, x as i64, y as i64);
    bottom.into_raw()
}

/// `g` is the smallest grid side whose square holds `n` tiles (at least
/// one cell even for no tiles).
pub open spec fn is_grid_side(n: nat, g: int) -> bool {
    let m = if n == 0 {
        1
    } else {
        n as int
    };
    &&& g >= 1
    &&& g * g >= m
    &&& (g - 1) * (g - 1) < m
}

/// Where tile `i` goes on a grid of side `g`: column `i % g`, row
/// `i / g`, 16 pixels per cell.
pub open spec fn grid_rect(i: int, g: int) -> AtlasRect {
    AtlasRect { x: ((i % g) * 16) as u32, y: ((i / g) * 16) as u32 }
}

/// A tile's pixels as placed: 16x16 tiles as they are, others resized
/// to 16x16.
pub open spec fn placed_pixels(t: Tile) -> Seq<u8> {
    if t.width == 16 && t.height == 16 {
        t.pixels@
    } else {
        resized(t.width, t.height, t.pixels@, 16, 16)
    }
}

/// The atlas pixels after the first `k` tiles were placed on a fully
/// transparent image of side `g * 16`.
pub open spec fn atlas_pixels(tiles: Seq<(String, Tile)>, g: int, k: nat) -> Seq<u8>
    decreases k,
{
    if k == 0 {
        Seq::new((g * 16 * g * 16 * 4) as nat, |i: int| 0u8)
    } else {
        let r = grid_rect(k - 1, g);
        overlaid(
            atlas_pixels(tiles, g, (k - 1) as nat),
            (g * 16) as u32,
            16,
            16,
            placed_pixels(tiles[k - 1].1),
            r.x,
            r.y,
        )
    }
}

/// The rectangle recorded last under `name`.
pub open spec fn last_rect(entries: Seq<(Seq<char>, AtlasRect)>, name: Seq<char>) -> Option<AtlasRect>
    decreases entries.len(),
{
    if entries.len() == 0 {
        None
    } else if entries.last().0 == name {
        Some(entries.last().1)
    } else {
        last_rect(entries.drop_last(), name)
    }
}

/// The grid rectangle of every tile, under the tile's name, in order.
pub open spec fn grid_entries(tiles: Seq<(String, Tile)>, g: int) -> Seq<(Seq<char>, AtlasRect)> {
    Seq::new(tiles.len(), |i: int| (tiles[i].0@, grid_rect(i, g)))
}

/// On a grid that holds `n` tiles, every tile's rectangle lies inside
/// the atlas and no two tiles share a rectangle.
pub proof fn lemma_grid_rects_disjoint(n: nat, g: int, i: int, j: int)
    requires
        is_grid_side(n, g),
        g <= 1024,
        0 <= i < n,
        0 <= j < n,
        i != j,
    ensures
        grid_rect(i, g).x + 16 <= g * 16,
        grid_rect(i, g).y + 16 <= g * 16,
        grid_rect(i, g) != grid_rect(j, g),
{
    lemma_multiply_divide_lt(i, g, g);
    lemma_multiply_divide_lt(j, g, g);
    lemma_fundamental_div_mod(i, g);
    lemma_fundamental_div_mod(j, g);
    assert(0 <= i % g < g && 0 <= j % g < g);
    assert(0 <= i / g && 0 <= j / g);
    if grid_rect(i, g) == grid_rect(j, g) {
        assert(i % g == j % g);
        assert(i / g == j / g);
    }
}

/// A name that no tile carries has no rectangle.
pub proof fn lemma_unknown_name_has_no_rect(entries: Seq<(Seq<char>, AtlasRect)>, name: Seq<char>)
    requires
        forall|k: int| 0 <= k < entries.len() ==> (#[trigger] entries[k]).0 != name,
    ensures
        last_rect(entries, name) is None,
    decreases entries.len(),
{
    if entries.len() > 0 {
        let init = entries.drop_last();
        assert forall|k: int| 0 <= k < init.len() implies (#[trigger] init[k]).0 != name by {
            assert(init[k] == entries[k]);
        }
        lemma_unknown_name_has_no_rect(init, name);
    }
}

/// A name some tile carries has a rectangle.
pub proof fn lemma_known_name_has_rect(entries: Seq<(Seq<char>, AtlasRect)>, name: Seq<char>, k: int)
    requires
        0 <= k < entries.len(),
        entries[k].0 == name,
    ensures
        last_rect(entries, name) is Some,
    decreases entries.len(),
{
    if entries.last().0 != name {
        let init = entries.drop_last();
        assert(init[k] == entries[k]);
        lemma_known_name_has_rect(init, name, k);
    }
}

/// A square atlas image and the rectangle of each tile name in it.
pub struct TextureAtlas {
    pub image: Tile,
    pub tile_size: u32,
    rects: Vec<(String, AtlasRect)>,
}

impl TextureAtlas {
    /// The atlas image.
    pub closed spec fn img(&self) -> Tile {
        self.image
    }

    /// Side length of one tile.
    pub closed spec fn tile_side(&self) -> u32 {
        self.tile_size
    }

    /// Every name with its rectangle, in the order the tiles were placed.
    pub closed spec fn entries(&self) -> Seq<(Seq<char>, AtlasRect)> {
        self.rects@.map_values(|p: (String, AtlasRect)| (p.0@, p.1))
    }

    /// Side length of the atlas image in pixels.
    pub fn size(&self) -> (s: u32)
        ensures
            s == self.img().width,
    {
        self.image.width
    }

    /// The rectangle of `name`; where a name was placed twice, the later
    /// tile's.
    pub fn rect(&self, name: &str) -> (r: Option<AtlasRect>)
        ensures
            r == last_rect(self.entries(), name@),
    {
        let mut i = self.rects.len();
        assert(self.entries().take(i as int) =~= self.entries());
        while i > 0
            invariant
                i <= self.rects@.len(),
                self.entries().len() == self.rects@.len(),
                last_rect(self.entries(), name@) == last_rect(self.entries().take(i as int), name@),
            decreases i,
        {
            let ghost pre = self.entries().take(i as int);
            assert(pre.drop_last() =~= self.entries().take(i - 1));
            if str_eq(self.rects[i - 1].0.as_str(), name) {
                return Some(self.rects[i - 1].1);
            }
            i = i - 1;
        }
        None
    }
}

/// `atlas` is `tiles` placed on the smallest grid that holds them: an
/// image of side `g * 16` holding each tile at its grid rectangle, and
/// each tile's name recorded with that rectangle.
pub open spec fn built_from(tiles: Seq<(String, Tile)>, atlas: TextureAtlas) -> bool {
    &&& exists|g: int|
        {
            &&& is_grid_side(tiles.len(), g)
            &&& atlas.img().width == g * 16
            &&& atlas.img().height == g * 16
            &&& atlas.img().pixels@ == atlas_pixels(tiles, g, tiles.len())
            &&& atlas.entries() == grid_entries(tiles, g)
        }
    &&& atlas.tile_side() == TEXTURE_SIZE
}

/// The smallest grid side holding `n` tiles.
fn grid_side(n: usize) -> (g: u32)
    requires
        n <= 1048576,
    ensures
        is_grid_side(n as nat, g as int),
        g <= 1024,
{
    let m: u64 = if n == 0 {
        1
    } else {
        n as u64
    };
    let mut g: u64 = 1;
    while g * g < m
        invariant
            1 <= m <= 1048576,
            1 <= g <= 1024,
            g * g <= 1048576,
            (g - 1) * (g - 1) < m,
        decreases 1048576 - g,
    {
        assert(g < 1024 && (g + 1) * (g + 1) <= 1048576) by (nonlinear_arith)
            requires
                g * g < m,
                m <= 1048576,
                g >= 1,
        ;
        g = g + 1;
    }
    g as u32
}

/// Packs `tiles` (name and RGBA image; a tile that is not 16x16 is
/// resized to fit) into one square atlas, left to right, top to bottom.
/// Resizing a zero-sized image is left out. The tile count is bounded by
/// 1048576 (a 1024x1024 grid, a 16384x16384 atlas of 1 GiB): a bound of
/// this library's own, so that the atlas's byte count, 4 times its side
/// squared, fits in a 32-bit `usize`.
pub fn build_atlas(tiles: Vec<(String, Tile)>) -> (atlas: TextureAtlas)
    requires
        tiles@.len() <= 1048576,
        forall|i: int|
            0 <= i < tiles@.len() ==> (#[trigger] tiles@[i]).1.wf() && tiles@[i].1.width > 0
                && tiles@[i].1.height > 0,
    ensures
        built_from(tiles@, atlas),
{
    let g = grid_side(tiles.len());
    let size: u32 = g * TEXTURE_SIZE;
    assert(size as int * size as int * 4 <= 1073741824) by (nonlinear_arith)
        requires
            size <= 16384,
    ;
    let total: usize = (size as usize) * (size as usize) * 4;
    let mut pixels: Vec<u8> = Vec::new();
    while pixels.len() < total
        invariant
            total == size * size * 4,
            pixels@.len() <= total,
            forall|j: int| 0 <= j < pixels@.len() ==> pixels@[j] == 0u8,
        decreases total - pixels@.len(),
    {
        pixels.push(0);
    }
    assert(g as int * 16 * g as int * 16 * 4 == size as int * size as int * 4) by (nonlinear_arith)
        requires
            size == g * 16,
    ;
    assert(pixels@ =~= atlas_pixels(tiles@, g as int, 0));
    let mut rects: Vec<(String, AtlasRect)> = Vec::new();
    let mut i: usize = 0;
    while i < tiles.len()
        invariant
            i <= tiles@.len(),
            tiles@.len() <= 1048576,
            is_grid_side(tiles@.len(), g as int),
            g <= 1024,
            size == g * 16,
            pixels@.len() == size * size * 4,
            pixels@ == atlas_pixels(tiles@, g as int, i as nat),
            rects@.map_values(|p: (String, AtlasRect)| (p.0@, p.1)) == grid_entries(tiles@, g as int).take(i as int),
            forall|k: int|
                0 <= k < tiles@.len() ==> (#[trigger] tiles@[k]).1.wf() && tiles@[k].1.width > 0
                    && tiles@[k].1.height > 0,
        decreases tiles.len() - i,
    {
        let (name, tile) = (&tiles[i].0, &tiles[i].1);
        proof {
            assert(i < (g as int) * (g as int));
            lemma_multiply_divide_lt(i as int, g as int, g as int);
        }
        let iu: u32 = i as u32;
        let col = iu % g;
        let row = iu / g;
        assert(col == (i as int) % (g as int) && row == (i as int) / (g as int));
        assert(col < g && row < g);
        let x = col * TEXTURE_SIZE;
        let y = row * TEXTURE_SIZE;
        if tile.width != TEXTURE_SIZE || tile.height != TEXTURE_SIZE {
            let fitted = resize_nearest(tile, TEXTURE_SIZE, TEXTURE_SIZE);
            pixels = overlay_tile(pixels, size, &fitted, x, y);
        } else {
            pixels = overlay_tile(pixels, size, tile, x, y);
        }
        let ghost before = rects@;
        let entry_name = name.clone();
        assert(AtlasRect { x, y } == grid_rect(i as int, g as int));
        assert(entry_name@ == tiles@[i as int].0@);
        rects.push((entry_name, AtlasRect { x, y }));
        assert(rects@.map_values(|p: (String, AtlasRect)| (p.0@, p.1)) =~= before.map_values(
            |p: (String, AtlasRect)| (p.0@, p.1),
        ).push((tiles@[i as int].0@, grid_rect(i as int, g as int))));
        assert(rects@.map_values(|p: (String, AtlasRect)| (p.0@, p.1)) =~= grid_entries(
            tiles@,
            g as int,
        ).take(i + 1));
        i = i + 1;
    }
    let atlas = TextureAtlas { image: Tile { width: size, height: size, pixels }, tile_size: TEXTURE_SIZE, rects };
    assert(atlas.entries() =~= grid_entries(tiles@, g as int));
    atlas
}

} // verus!
