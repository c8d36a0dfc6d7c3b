//! The tiles used where a pack has no texture: a neutral gray
//! checkerboard for names a pack does not cover, and the classic
//! magenta/black checker for blocks with no texture mapping at all.
//! Both are generated here, nothing is bundled.

use vstd::prelude::*;

verus! {

/// Side length in pixels of every atlas tile.
pub const TEXTURE_SIZE: u32 = 16;

/// Side length in pixels of one checkerboard cell.
pub const CELL_SIZE: u32 = 4;

/// An RGBA8 image: `width * height` pixels, row by row, 4 bytes each.
pub struct Tile {
    pub width: u32,
    pub height: u32,
    pub pixels: Vec<u8>,
}

impl Tile {
    /// The pixel buffer holds exactly `width * height` RGBA pixels.
    pub open spec fn wf(&self) -> bool {
        self.pixels@.len() == self.width as int * self.height as int * 4
    }
}

/// Channel `c` of pixel (x, y) of a 16-pixel-wide RGBA buffer.
pub open spec fn tile_byte(pixels: Seq<u8>, x: int, y: int, c: int) -> u8 {
    pixels[(y * 16 + x) * 4 + c]
}

/// Whether (x, y) falls on a "first color" cell of the checkerboard.
pub open spec fn on_first_cell(x: int, y: int) -> bool {
    (x / 4 + y / 4) % 2 == 0
}

/// A 16x16 checkerboard of 4x4 cells: `first` where the cell
/// coordinates sum to an even number, `second` elsewhere.
pub open spec fn is_checker(t: Tile, first: Seq<u8>, second: Seq<u8>) -> bool {
    &&& t.width == 16
    &&& t.height == 16
    &&& t.pixels@.len() == 1024
    &&& forall|x: int, y: int, c: int|
        0 <= x < 16 && 0 <= y < 16 && 0 <= c < 4 ==> #[trigger] tile_byte(t.pixels@, x, y, c) == if on_first_cell(x, y) {
            first[c]
        } else {
            second[c]
        }
}

/// The light gray of the neutral fallback.
pub open spec fn light_gray() -> Seq<u8> {
    seq![138u8, 138u8, 138u8, 255u8]
}

/// The dark gray of the neutral fallback.
pub open spec fn dark_gray() -> Seq<u8> {
    seq![96u8, 96u8, 96u8, 255u8]
}

/// The magenta of the "missing texture" checker.
pub open spec fn missing_magenta() -> Seq<u8> {
    seq![230u8, 20u8, 230u8, 255u8]
}

/// The near-black of the "missing texture" checker.
pub open spec fn missing_black() -> Seq<u8> {
    seq![20u8, 20u8, 20u8, 255u8]
}

/// A 16x16 checkerboard of 4x4 cells in the two given colors.
fn checker(first: [u8; 4], second: [u8; 4]) -> (t: Tile)
    ensures
        is_checker(t, first@, second@),
{
    let mut pixels: Vec<u8> = Vec::new();
    let mut y: u32 = 0;
    while y < 16
        invariant
            y <= 16,
            pixels@.len() == y * 64,
            forall|px: int, py: int, c: int|
                0 <= px < 16 && 0 <= py < y && 0 <= c < 4 ==> #[trigger] tile_byte(pixels@, px, py, c)
                    == if on_first_cell(px, py) {
                    first@[c]
                } else {
                    second@[c]
                },
        decreases 16 - y,
    {
        let mut x: u32 = 0;
        while x < 16
            invariant
                y < 16,
                x <= 16,
                pixels@.len() == y * 64 + x * 4,
                forall|px: int, py: int, c: int|
                    0 <= px < 16 && 0 <= py < y && 0 <= c < 4 ==> #[trigger] tile_byte(pixels@, px, py, c)
                        == if on_first_cell(px, py) {
                        first@[c]
                    } else {
                        second@[c]
                    },
                forall|px: int, c: int|
                    0 <= px < x && 0 <= c < 4 ==> #[trigger] tile_byte(pixels@, px, y as int, c)
                        == if on_first_cell(px, y as int) {
                        first@[c]
                    } else {
                        second@[c]
                    },
            decreases 16 - x,
        {
            let color = if (x / 4 + y / 4) % 2 == 0 {
                first
            } else {
                second
            };
            let ghost before = pixels@;
            pixels.push(color[0]);
            pixels.push(color[1]);
            pixels.push(color[2]);
            pixels.push(color[3]);
            assert forall|px: int, py: int, c: int|
                0 <= px < 16 && 0 <= py < y && 0 <= c < 4 implies #[trigger] tile_byte(pixels@, px, py, c)
                    == tile_byte(before, px, py, c) by {}
            assert forall|px: int, c: int|
                0 <= px < x + 1 && 0 <= c < 4 implies #[trigger] tile_byte(pixels@, px, y as int, c)
                    == if on_first_cell(px, y as int) {
                    first@[c]
                } else {
                    second@[c]
                } by {
                if px < x {
                    assert(tile_byte(pixels@, px, y as int, c) == tile_byte(before, px, y as int, c));
                }
            }
            x = x + 1;
        }
        y = y + 1;
    }
    Tile { width: 16, height: 16, pixels }
}

/// The neutral gray checkerboard standing in for any texture a pack
/// does not provide.
pub fn generate_fallback_texture() -> (t: Tile)
    ensures
        is_checker(t, light_gray(), dark_gray()),
{
    let t = checker([138, 138, 138, 255], [96, 96, 96, 255]);
    assert(t.pixels@.len() == 1024);
    t
}

/// The magenta/black "missing texture" checker, for blocks with no
/// texture mapping at all.
pub fn generate_missing_texture() -> (t: Tile)
    ensures
        is_checker(t, missing_magenta(), missing_black()),
{
    checker([230, 20, 230, 255], [20, 20, 20, 255])
}

} // verus!
