//! Decodes the raw byte payload of Chunk Data / Chunk Data Bulk packets
//! (protocol 47 / 1.8.x chunk section format) into chunk columns. Per
//! present section: a little-endian u16 `(block_id << 4) | metadata` per
//! block, then a block light nibble array, then (when the dimension has
//! sky light) a sky light nibble array; block and nibble order is Y-Z-X.
//! Nibble arrays pack two levels per byte, the even index in the low
//! nibble.

use vstd::prelude::*;

use crate::block::BlockId;
use crate::chunk::{Chunk, CHUNK_VOLUME, MAX_LIGHT};
use crate::chunk_column::{ChunkColumn, SECTIONS_PER_COLUMN};
use crate::error::ProtocolError;

verus! {

pub const BLOCKS_BYTES: usize = 8192;

pub const LIGHT_BYTES: usize = 2048;

pub const BIOME_BYTES: usize = 256;

/// The raw `(block_id << 4) | metadata` state of block `i` of the
/// section whose block array starts at `base`.
pub open spec fn raw_state_at(data: Seq<u8>, base: int, i: int) -> u16 {
    (data[base + 2 * i] + 256 * data[base + 2 * i + 1]) as u16
}

/// Light level `i` of the nibble array starting at `base`.
pub open spec fn nibble_at(data: Seq<u8>, base: int, i: int) -> u8 {
    if i % 2 == 0 {
        data[base + i / 2] % 16
    } else {
        data[base + i / 2] / 16
    }
}

/// Bytes one present section occupies.
pub open spec fn section_bytes(has_sky_light: bool) -> nat {
    if has_sky_light {
        12288
    } else {
        10240
    }
}

/// Whether the bitmask marks section `s` as present.
pub open spec fn section_present(bitmask: u16, s: int) -> bool {
    bitmask & (1u16 << (s as u16)) != 0
}

/// How many sections below `s` the bitmask marks present.
pub open spec fn sections_before(bitmask: u16, s: nat) -> nat
    decreases s,
{
    if s == 0 {
        0
    } else {
        sections_before(bitmask, (s - 1) as nat) + if section_present(bitmask, s - 1) {
            1nat
        } else {
            0nat
        }
    }
}

/// Bytes one column's data occupies: its present sections, then the
/// 256-byte biome array when it is ground-up continuous.
pub open spec fn column_bytes(bitmask: u16, has_sky_light: bool, ground_up_continuous: bool) -> nat {
    sections_before(bitmask, 16) * section_bytes(has_sky_light) + if ground_up_continuous {
        256nat
    } else {
        0nat
    }
}

/// `c` is the section encoded at `data[base..]`.
pub open spec fn section_decoded(c: Chunk, data: Seq<u8>, base: int, has_sky_light: bool) -> bool {
    &&& c.wf()
    &&& forall|i: int|
        0 <= i < CHUNK_VOLUME ==> #[trigger] c.blocks()[i] == BlockId(
            (raw_state_at(data, base, i) / 16) as u16,
        )
    &&& forall|i: int|
        0 <= i < CHUNK_VOLUME ==> #[trigger] c.block_lights()[i] == nibble_at(
            data,
            base + BLOCKS_BYTES,
            i,
        )
    &&& forall|i: int|
        0 <= i < CHUNK_VOLUME ==> #[trigger] c.sky_lights()[i] == if has_sky_light {
            nibble_at(data, base + BLOCKS_BYTES + LIGHT_BYTES, i)
        } else {
            0u8
        }
}

/// `col` is the column (chunk_x, chunk_z) encoded at `data[base..]`:
/// exactly the sections the bitmask marks are present, each decoded from
/// its slot in order.
pub open spec fn column_decoded(
    col: ChunkColumn,
    chunk_x: i32,
    chunk_z: i32,
    bitmask: u16,
    has_sky_light: bool,
    data: Seq<u8>,
    base: int,
) -> bool {
    &&& col.wf()
    &&& col.column_x() == chunk_x
    &&& col.column_z() == chunk_z
    &&& forall|s: int|
        0 <= s < SECTIONS_PER_COLUMN ==> if section_present(bitmask, s) {
            #[trigger] col.sections()[s] matches Some(c) && section_decoded(
                c,
                data,
                base + sections_before(bitmask, s as nat) * section_bytes(has_sky_light),
                has_sky_light,
            )
        } else {
            col.sections()[s] is None
        }
}

/// Converts the wire's `(block_id << 4) | metadata` value into a
/// `BlockId` (the metadata is dropped).
pub fn block_id_from_raw_state(raw_state: u16) -> (b: BlockId)
    ensures
        b == BlockId(raw_state >> 4),
        b.0 == raw_state / 16,
{
    assert(raw_state >> 4 == raw_state / 16) by (bit_vector);
    BlockId(raw_state >> 4)
}

struct Cursor<'a> {
    data: &'a [u8],
    pos: usize,
}

impl<'a> Cursor<'a> {
    /// Claims the next `len` bytes, returning where they start.
    fn take(&mut self, len: usize) -> (r: Result<usize, ProtocolError>)
        requires
            old(self).pos <= old(self).data@.len(),
        ensures
            final(self).data == old(self).data,
            old(self).pos + len <= old(self).data@.len() ==> r == Ok::<usize, ProtocolError>(
                old(self).pos,
            ) && final(self).pos == old(self).pos + len,
            old(self).pos + len > old(self).data@.len() ==> r == Err::<usize, ProtocolError>(
                ProtocolError::UnexpectedEof,
            ),
    {
        if len > self.data.len() - self.pos {
            return Err(ProtocolError::UnexpectedEof);
        }
        let start = self.pos;
        self.pos = self.pos + len;
        Ok(start)
    }
}

/// Reads one section at the cursor.
fn read_section(cursor: &mut Cursor, has_sky_light: bool) -> (r: Result<Chunk, ProtocolError>)
    requires
        old(cursor).pos <= old(cursor).data@.len(),
    ensures
        final(cursor).data == old(cursor).data,
        old(cursor).pos + section_bytes(has_sky_light) <= old(cursor).data@.len() ==> {
            &&& r matches Ok(c) && section_decoded(c, old(cursor).data@, old(cursor).pos as int, has_sky_light)
            &&& final(cursor).pos == old(cursor).pos + section_bytes(has_sky_light)
        },
        old(cursor).pos + section_bytes(has_sky_light) > old(cursor).data@.len() ==> r
            == Err::<Chunk, ProtocolError>(ProtocolError::UnexpectedEof),
{
    let ghost data = cursor.data@;
    let ghost base = cursor.pos as int;
    let blocks_at = cursor.take(BLOCKS_BYTES)?;
    let mut blocks: Vec<BlockId> = Vec::new();
    let mut i: usize = 0;
    while i < CHUNK_VOLUME
        invariant
            cursor.data@ == data,
            blocks_at == base,
            base + BLOCKS_BYTES <= cursor.data.len(),
            i <= CHUNK_VOLUME,
            blocks@.len() == i,
            forall|j: int|
                0 <= j < i ==> #[trigger] blocks@[j] == BlockId((raw_state_at(data, base, j) / 16) as u16),
        decreases CHUNK_VOLUME - i,
    {
        let lo = cursor.data[blocks_at + 2 * i];
        let hi = cursor.data[blocks_at + 2 * i + 1];
        let raw: u16 = (lo as u16) + (hi as u16) * 256;
        blocks.push(block_id_from_raw_state(raw));
        i = i + 1;
    }
    let block_light_at = cursor.take(LIGHT_BYTES)?;
    let block_light = read_nibbles(cursor.data, block_light_at);
    let sky_light = if has_sky_light {
        let sky_at = cursor.take(LIGHT_BYTES)?;
        read_nibbles(cursor.data, sky_at)
    } else {
        let mut zeros: Vec<u8> = Vec::new();
        let mut k: usize = 0;
        while k < CHUNK_VOLUME
            invariant
                k <= CHUNK_VOLUME,
                zeros@.len() == k,
                forall|j: int| 0 <= j < k ==> #[trigger] zeros@[j] == 0,
            decreases CHUNK_VOLUME - k,
        {
            zeros.push(0);
            k = k + 1;
        }
        zeros
    };
    Ok(Chunk::from_parts(blocks, block_light, sky_light))
}

/// Unpacks a 2048-byte nibble array into one level per block.
fn read_nibbles(data: &[u8], at: usize) -> (v: Vec<u8>)
    requires
        at + LIGHT_BYTES <= data@.len(),
    ensures
        v@.len() == CHUNK_VOLUME,
        forall|i: int| 0 <= i < CHUNK_VOLUME ==> #[trigger] v@[i] == nibble_at(data@, at as int, i),
        forall|i: int| 0 <= i < CHUNK_VOLUME ==> #[trigger] v@[i] <= MAX_LIGHT,
{
    let mut v: Vec<u8> = Vec::new();
    let mut i: usize = 0;
    while i < CHUNK_VOLUME
        invariant
            at + LIGHT_BYTES <= data.len(),
            i <= CHUNK_VOLUME,
            v@.len() == i,
            forall|j: int| 0 <= j < i ==> #[trigger] v@[j] == nibble_at(data@, at as int, j),
            forall|j: int| 0 <= j < i ==> #[trigger] v@[j] <= MAX_LIGHT,
        decreases CHUNK_VOLUME - i,
    {
        let byte = data[at + i / 2];
        let level = if i % 2 == 0 {
            byte % 16
        } else {
            byte / 16
        };
        v.push(level);
        i = i + 1;
    }
    v
}

proof fn lemma_sections_before_mono(bitmask: u16, s: nat, t: nat)
    requires
        s <= t,
    ensures
        sections_before(bitmask, s) <= sections_before(bitmask, t),
        s < t && section_present(bitmask, s as int) ==> sections_before(bitmask, s) + 1
            <= sections_before(bitmask, t),
    decreases t - s,
{
    if s < t {
        lemma_sections_before_mono(bitmask, s, (t - 1) as nat);
    }
}

fn parse_column_at(
    chunk_x: i32,
    chunk_z: i32,
    bitmask: u16,
    has_sky_light: bool,
    ground_up_continuous: bool,
    data: &[u8],
    base: usize,
) -> (r: Result<(ChunkColumn, usize), ProtocolError>)
    requires
        base <= data@.len(),
    ensures
        base + column_bytes(bitmask, has_sky_light, ground_up_continuous) <= data@.len() ==> (
        r matches Ok((col, n)) && n == column_bytes(bitmask, has_sky_light, ground_up_continuous)
            && column_decoded(col, chunk_x, chunk_z, bitmask, has_sky_light, data@, base as int)),
        base + column_bytes(bitmask, has_sky_light, ground_up_continuous) > data@.len() ==> r
            == Err::<(ChunkColumn, usize), ProtocolError>(ProtocolError::UnexpectedEof),
{
    let ghost size = section_bytes(has_sky_light);
    let ghost total = column_bytes(bitmask, has_sky_light, ground_up_continuous);
    let mut cursor = Cursor { data, pos: base };
    let mut column = ChunkColumn::empty(chunk_x, chunk_z);
    let mut section_y: u16 = 0;
    while section_y < 16
        invariant
            cursor.data == data,
            base <= data@.len(),
            section_y <= 16,
            cursor.pos == base + sections_before(bitmask, section_y as nat) * size,
            cursor.pos <= data@.len(),
            size == section_bytes(has_sky_light),
            total == column_bytes(bitmask, has_sky_light, ground_up_continuous),
            column.wf(),
            column.column_x() == chunk_x,
            column.column_z() == chunk_z,
            forall|s: int|
                0 <= s < section_y ==> if section_present(bitmask, s) {
                    #[trigger] column.sections()[s] matches Some(c) && section_decoded(
                        c,
                        data@,
                        base + sections_before(bitmask, s as nat) * size,
                        has_sky_light,
                    )
                } else {
                    column.sections()[s] is None
                },
            forall|s: int| section_y <= s < 16 ==> #[trigger] column.sections()[s] is None,
        decreases 16 - section_y,
    {
        let ghost before = sections_before(bitmask, section_y as nat);
        if bitmask & (1u16 << section_y) != 0 {
            proof {
                if cursor.pos + size > data@.len() {
                    lemma_sections_before_mono(bitmask, section_y as nat, 16);
                    assert((before + 1) * size <= sections_before(bitmask, 16) * size)
                        by (nonlinear_arith)
                        requires
                            before + 1 <= sections_before(bitmask, 16),
                    ;
                }
            }
            let section = read_section(&mut cursor, has_sky_light)?;
            column.set_section(section_y as usize, section);
            proof {
                assert(sections_before(bitmask, (section_y + 1) as nat) == before + 1);
                assert((before + 1) * size == before * size + size) by (nonlinear_arith);
            }
        } else {
            proof {
                assert(sections_before(bitmask, (section_y + 1) as nat) == before);
            }
        }
        section_y = section_y + 1;
    }
    if ground_up_continuous {
        cursor.take(BIOME_BYTES)?;
    }
    Ok((column, cursor.pos - base))
}

/// Parses a single column's worth of section data (the data buffer of a
/// Chunk Data packet, or one column's part of a Chunk Data Bulk
/// packet's data buffer), returning the column and how many bytes it
/// took.
pub fn parse_column_sections(
    chunk_x: i32,
    chunk_z: i32,
    bitmask: u16,
    has_sky_light: bool,
    ground_up_continuous: bool,
    data: &[u8],
) -> (r: Result<(ChunkColumn, usize), ProtocolError>)
    ensures
        column_bytes(bitmask, has_sky_light, ground_up_continuous) <= data@.len() ==> (
        r matches Ok((col, n)) && n == column_bytes(bitmask, has_sky_light, ground_up_continuous)
            && column_decoded(col, chunk_x, chunk_z, bitmask, has_sky_light, data@, 0)),
        column_bytes(bitmask, has_sky_light, ground_up_continuous) > data@.len() ==> r == Err::<
            (ChunkColumn, usize),
            ProtocolError,
        >(ProtocolError::UnexpectedEof),
{
    parse_column_at(chunk_x, chunk_z, bitmask, has_sky_light, ground_up_continuous, data, 0)
}

/// Coordinates and section bitmask of one column of a Chunk Data Bulk
/// packet.
pub struct BulkColumnMeta {
    pub chunk_x: i32,
    pub chunk_z: i32,
    pub bitmask: u16,
}

/// Where column `i` of a bulk packet starts in its data buffer: after
/// every earlier column (all ground-up continuous).
pub open spec fn bulk_offset(metas: Seq<BulkColumnMeta>, sky_light_sent: bool, i: nat) -> nat
    decreases i,
{
    if i == 0 {
        0
    } else {
        bulk_offset(metas, sky_light_sent, (i - 1) as nat) + column_bytes(
            metas[i - 1].bitmask,
            sky_light_sent,
            true,
        )
    }
}

/// A section decoded at `base + k` of `data` is the one decoded at `k` of
/// `data[base..]`, when the section lies inside the data.
proof fn lemma_section_shift(c: Chunk, data: Seq<u8>, base: int, k: int, sky: bool)
    requires
        0 <= base,
        0 <= k,
        base + k + section_bytes(sky) <= data.len(),
    ensures
        section_decoded(c, data, base + k, sky) <==> section_decoded(c, data.skip(base), k, sky),
{
    let d = data.skip(base);
    assert forall|i: int| 0 <= i < CHUNK_VOLUME implies raw_state_at(data, base + k, i)
        == raw_state_at(d, k, i) && nibble_at(data, base + k + BLOCKS_BYTES, i) == nibble_at(
        d,
        k + BLOCKS_BYTES,
        i,
    ) && (sky ==> nibble_at(data, base + k + BLOCKS_BYTES + LIGHT_BYTES, i) == nibble_at(
        d,
        k + BLOCKS_BYTES + LIGHT_BYTES,
        i,
    )) by {
        assert(d[k + 2 * i] == data[base + k + 2 * i]);
        assert(d[k + 2 * i + 1] == data[base + k + 2 * i + 1]);
        assert(d[k + BLOCKS_BYTES + i / 2] == data[base + k + BLOCKS_BYTES + i / 2]);
        if sky {
            assert(d[k + BLOCKS_BYTES + LIGHT_BYTES + i / 2] == data[base + k + BLOCKS_BYTES
                + LIGHT_BYTES + i / 2]);
        }
    }
}

/// A column decoded at `base` of `data` is the one decoded at the front
/// of `data[base..]`, when the column lies inside the data.
proof fn lemma_column_shift(
    col: ChunkColumn,
    chunk_x: i32,
    chunk_z: i32,
    bitmask: u16,
    sky: bool,
    ground_up: bool,
    data: Seq<u8>,
    base: int,
)
    requires
        0 <= base,
        base + column_bytes(bitmask, sky, ground_up) <= data.len(),
    ensures
        column_decoded(col, chunk_x, chunk_z, bitmask, sky, data, base) <==> column_decoded(
            col,
            chunk_x,
            chunk_z,
            bitmask,
            sky,
            data.skip(base),
            0,
        ),
{
    let size = section_bytes(sky);
    assert forall|s: int| 0 <= s < SECTIONS_PER_COLUMN && section_present(bitmask, s) implies (
    #[trigger] col.sections()[s] matches Some(c) && section_decoded(
        c,
        data,
        base + sections_before(bitmask, s as nat) * size,
        sky,
    )) <==> (col.sections()[s] matches Some(c) && section_decoded(
        c,
        data.skip(base),
        (0 + sections_before(bitmask, s as nat) * size) as int,
        sky,
    )) by {
        lemma_sections_before_mono(bitmask, s as nat, 16);
        let k = sections_before(bitmask, s as nat) * size;
        assert(k + size <= sections_before(bitmask, 16) * size) by (nonlinear_arith)
            requires
                sections_before(bitmask, s as nat) + 1 <= sections_before(bitmask, 16),
                k == sections_before(bitmask, s as nat) * size,
                size > 0,
        ;
        if let Some(c) = col.sections()[s] {
            lemma_section_shift(c, data, base, k as int, sky);
        }
    }
}

/// Decoding a bulk packet is decoding each column on its own. Column `i`
/// starts at `bulk_offset(i)`, and the next one where the single-column
/// parse of the data from there stops (`column_bytes` of a ground-up
/// column); column `i` fits exactly when that single parse succeeds, and
/// then what `parse_bulk` decodes at `bulk_offset(i)` is what
/// `parse_column_sections` decodes at the front of `data[bulk_offset(i)..]`.
/// When the data runs short, some column fits no more while every column
/// before it does: its single parse is the first to fail, with the
/// `UnexpectedEof` that `parse_bulk` gives.
pub proof fn lemma_bulk_is_per_column(
    metas: Seq<BulkColumnMeta>,
    sky_light_sent: bool,
    data: Seq<u8>,
    i: int,
    col: ChunkColumn,
)
    requires
        0 <= i < metas.len(),
        bulk_offset(metas, sky_light_sent, i as nat) <= data.len(),
    ensures
        bulk_offset(metas, sky_light_sent, (i + 1) as nat) == bulk_offset(
            metas,
            sky_light_sent,
            i as nat,
        ) + column_bytes(metas[i].bitmask, sky_light_sent, true),
        column_bytes(metas[i].bitmask, sky_light_sent, true) <= data.skip(
            bulk_offset(metas, sky_light_sent, i as nat) as int,
        ).len() <==> bulk_offset(metas, sky_light_sent, (i + 1) as nat) <= data.len(),
        bulk_offset(metas, sky_light_sent, (i + 1) as nat) <= data.len() ==> (column_decoded(
            col,
            metas[i].chunk_x,
            metas[i].chunk_z,
            metas[i].bitmask,
            sky_light_sent,
            data,
            bulk_offset(metas, sky_light_sent, i as nat) as int,
        ) <==> column_decoded(
            col,
            metas[i].chunk_x,
            metas[i].chunk_z,
            metas[i].bitmask,
            sky_light_sent,
            data.skip(bulk_offset(metas, sky_light_sent, i as nat) as int),
            0,
        )),
{
    let off = bulk_offset(metas, sky_light_sent, i as nat);
    if bulk_offset(metas, sky_light_sent, (i + 1) as nat) <= data.len() {
        lemma_column_shift(
            col,
            metas[i].chunk_x,
            metas[i].chunk_z,
            metas[i].bitmask,
            sky_light_sent,
            true,
            data,
            off as int,
        );
    }
}

/// When a bulk packet's data is too short for all its columns, there is
/// a first column that does not fit: every column before it does.
pub proof fn lemma_bulk_first_short_column(
    metas: Seq<BulkColumnMeta>,
    sky_light_sent: bool,
    data: Seq<u8>,
)
    requires
        bulk_offset(metas, sky_light_sent, metas.len()) > data.len(),
    ensures
        exists|i: int|
            0 <= i < metas.len() && bulk_offset(metas, sky_light_sent, i as nat) <= data.len()
                && #[trigger] bulk_offset(metas, sky_light_sent, (i + 1) as nat) > data.len(),
{
    lemma_first_short_below(metas, sky_light_sent, data, metas.len());
}

proof fn lemma_first_short_below(metas: Seq<BulkColumnMeta>, sky: bool, data: Seq<u8>, j: nat)
    requires
        j <= metas.len(),
        bulk_offset(metas, sky, j) > data.len(),
    ensures
        exists|i: int|
            0 <= i < j && bulk_offset(metas, sky, i as nat) <= data.len()
                && #[trigger] bulk_offset(metas, sky, (i + 1) as nat) > data.len(),
    decreases j,
{
    let p = (j - 1) as nat;
    if bulk_offset(metas, sky, p) <= data.len() {
        assert(bulk_offset(metas, sky, (p + 1) as nat) > data.len());
    } else {
        lemma_first_short_below(metas, sky, data, p);
    }
}

proof fn lemma_bulk_offset_mono(metas: Seq<BulkColumnMeta>, sky: bool, i: nat, j: nat)
    requires
        i <= j,
    ensures
        bulk_offset(metas, sky, i) <= bulk_offset(metas, sky, j),
    decreases j - i,
{
    if i < j {
        lemma_bulk_offset_mono(metas, sky, i, (j - 1) as nat);
    }
}

/// Parses a Chunk Data Bulk packet's data buffer into one column per
/// entry of `metas`, in order. Bulk chunk data is always ground-up
/// continuous (full columns, biomes included).
pub fn parse_bulk(metas: &[BulkColumnMeta], sky_light_sent: bool, data: &[u8]) -> (r: Result<
    Vec<ChunkColumn>,
    ProtocolError,
>)
    ensures
        bulk_offset(metas@, sky_light_sent, metas@.len()) <= data@.len() ==> (r matches Ok(cols)
            && cols@.len() == metas@.len() && forall|i: int|
            0 <= i < metas@.len() ==> column_decoded(
                #[trigger] cols@[i],
                metas@[i].chunk_x,
                metas@[i].chunk_z,
                metas@[i].bitmask,
                sky_light_sent,
                data@,
                bulk_offset(metas@, sky_light_sent, i as nat) as int,
            )),
        bulk_offset(metas@, sky_light_sent, metas@.len()) > data@.len() ==> r == Err::<
            Vec<ChunkColumn>,
            ProtocolError,
        >(ProtocolError::UnexpectedEof),
{
    let mut offset: usize = 0;
    let mut columns: Vec<ChunkColumn> = Vec::new();
    let mut i: usize = 0;
    while i < metas.len()
        invariant
            i <= metas@.len(),
            offset == bulk_offset(metas@, sky_light_sent, i as nat),
            offset <= data.len(),
            columns@.len() == i,
            forall|j: int|
                0 <= j < i ==> column_decoded(
                    #[trigger] columns@[j],
                    metas@[j].chunk_x,
                    metas@[j].chunk_z,
                    metas@[j].bitmask,
                    sky_light_sent,
                    data@,
                    bulk_offset(metas@, sky_light_sent, j as nat) as int,
                ),
        decreases metas@.len() - i,
    {
        let meta = &metas[i];
        proof {
            lemma_bulk_offset_mono(metas@, sky_light_sent, (i + 1) as nat, metas@.len());
        }
        let (column, consumed) = parse_column_at(
            meta.chunk_x,
            meta.chunk_z,
            meta.bitmask,
            sky_light_sent,
            true,
            data,
            offset,
        )?;
        offset = offset + consumed;
        columns.push(column);
        i = i + 1;
    }
    Ok(columns)
}

} // verus!
