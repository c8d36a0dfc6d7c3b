# Cobble

The verified core of a Minecraft 1.8.9 (protocol 47) client, written in
Verus. The functions in `src/` carry contracts that Verus proves; the
exceptions are the small wrappers marked `#[verifier::external_body]`
and the `assume_specification` items, which call zlib, zip, image, sha1
and a few std functions and whose contracts are trusted, not proved.

## Layout

- `src/` — the library (`cobble`):
  - `block`, `chunk`, `chunk_column`, `world` — game state: block ids,
    16x16x16 sections with block and sky light, 256-high columns, and
    the loaded world keyed by chunk coordinates;
  - `varint`, `io`, `frame`, `chunk_data`, `packets`, `connection` — the
    wire protocol: VarInt/VarLong, packet fields, framing with zlib
    compression, chunk section decoding, and the login/play decisions
    of a connection (what each packet means and what to answer);
  - `physics` — the voxel side of player collision;
  - `renderer` — block-to-texture mapping and face culling for meshing;
  - `texturepacks` — known texture names, coverage of a pack's zip,
    cache naming and hash checks, Modrinth records, fallback tiles and
    the texture atlas;
  - `address`, `ui`, `touch` — address parsing, menu decisions, text
    entry and touch routing;
  - `text` — small string helpers.
- `tests/` — tests of the library.
- `app/` — a headless client around the library: the socket loop, the
  floating-point physics and mesh vertices, Modrinth over HTTP, and the
  floating-point side of the menus and touch controls.
