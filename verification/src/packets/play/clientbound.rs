//! Clientbound Play-state packet ids (protocol 47 / 1.8.x) and parsing
//! for the subset this client understands.

use vstd::prelude::*;

use crate::error::ProtocolError;
use crate::io::{
    be_value, bool_field, i32_field, i64_field, i8_field, position_field, string_field, u8_field,
    varint_field, PacketReader,
};

verus! {

pub const KEEP_ALIVE: i32 = 0x00;

pub const JOIN_GAME: i32 = 0x01;

pub const CHAT_MESSAGE: i32 = 0x02;

pub const SPAWN_POSITION: i32 = 0x05;

pub const PLAYER_POSITION_AND_LOOK: i32 = 0x08;

pub const MAP_CHUNK: i32 = 0x21;

pub const MULTI_BLOCK_CHANGE: i32 = 0x22;

pub const BLOCK_CHANGE: i32 = 0x23;

pub const MAP_CHUNK_BULK: i32 = 0x26;

pub const KICK_DISCONNECT: i32 = 0x40;

pub struct JoinGame {
    pub entity_id: i32,
    pub game_mode: u8,
    pub dimension: i8,
    pub difficulty: u8,
    pub max_players: u8,
    pub level_type: String,
    pub reduced_debug_info: bool,
}

/// Join Game's fields, in wire order: entity id (i32), game mode (u8),
/// dimension (i8), difficulty (u8), max players (u8), level type
/// (String), reduced debug info (bool).
pub open spec fn join_game_fields(u: Seq<u8>) -> Result<(i32, u8, i8, u8, u8, Seq<char>, bool), ProtocolError> {
    match i32_field(u) {
        (Err(e), _) => Err(e),
        (Ok(entity_id), u1) => match u8_field(u1) {
            (Err(e), _) => Err(e),
            (Ok(game_mode), u2) => match i8_field(u2) {
                (Err(e), _) => Err(e),
                (Ok(dimension), u3) => match u8_field(u3) {
                    (Err(e), _) => Err(e),
                    (Ok(difficulty), u4) => match u8_field(u4) {
                        (Err(e), _) => Err(e),
                        (Ok(max_players), u5) => match string_field(u5) {
                            (Err(e), _) => Err(e),
                            (Ok(level_type), u6) => match bool_field(u6) {
                                (Err(e), _) => Err(e),
                                (Ok(reduced), _) => Ok(
                                    (
                                        entity_id,
                                        game_mode,
                                        dimension,
                                        difficulty,
                                        max_players,
                                        level_type,
                                        reduced,
                                    ),
                                ),
                            },
                        },
                    },
                },
            },
        },
    }
}

/// Join Game's wire layout: bytes 0..4 are the entity id (big-endian
/// two's complement), byte 4 the game mode, byte 5 the dimension (two's
/// complement), byte 6 the difficulty, byte 7 the max player count, then
/// the level type String and the reduced-debug-info bool. A body shorter
/// than the eight fixed bytes is refused with `UnexpectedEof`.
pub proof fn lemma_join_game_wire_layout(u: Seq<u8>)
    ensures
        u.len() < 8 ==> join_game_fields(u) == Err::<
            (i32, u8, i8, u8, u8, Seq<char>, bool),
            ProtocolError,
        >(ProtocolError::UnexpectedEof),
        u.len() >= 8 ==> match join_game_fields(u) {
            Ok((entity_id, game_mode, dimension, difficulty, max_players, level_type, _)) => {
                &&& entity_id == ((u[0] * 16777216 + u[1] * 65536 + u[2] * 256 + u[3]) as u32) as i32
                &&& game_mode == u[4]
                &&& dimension == u[5] as i8
                &&& difficulty == u[6]
                &&& max_players == u[7]
                &&& string_field(u.skip(8)).0 == Ok::<Seq<char>, ProtocolError>(level_type)
            },
            Err(e) => string_field(u.skip(8)).0 == Err::<Seq<char>, ProtocolError>(e) || (
            string_field(u.skip(8)).0 is Ok && bool_field(string_field(u.skip(8)).1).0
                == Err::<bool, ProtocolError>(e)),
        },
{
    reveal_with_fuel(crate::io::be_value, 5);
    if u.len() >= 4 {
        let t = u.take(4);
        assert(t.drop_last().drop_last().drop_last().drop_last() =~= Seq::<u8>::empty());
        assert(t.drop_last().drop_last().drop_last() =~= seq![u[0]]);
        assert(t.drop_last().drop_last() =~= seq![u[0], u[1]]);
        assert(t.drop_last() =~= seq![u[0], u[1], u[2]]);
    }
    assert forall|j: int| 4 <= j < 8 && j < u.len() implies #[trigger] u.skip(j).take(1) == seq![
        u[j],
    ] by {
        assert(u.skip(j).take(1) =~= seq![u[j]]);
    }
    if u.len() >= 8 {
        assert(u.skip(4).skip(1) =~= u.skip(5));
        assert(u.skip(5).skip(1) =~= u.skip(6));
        assert(u.skip(6).skip(1) =~= u.skip(7));
        assert(u.skip(7).skip(1) =~= u.skip(8));
        assert(be_value(seq![u[4]]) == u[4]);
        assert(be_value(seq![u[5]]) == u[5]);
        assert(be_value(seq![u[6]]) == u[6]);
        assert(be_value(seq![u[7]]) == u[7]);
    } else {
        if u.len() >= 5 {
            assert(u.skip(4).skip(1) =~= u.skip(5));
        }
        if u.len() >= 6 {
            assert(u.skip(5).skip(1) =~= u.skip(6));
        }
        if u.len() >= 7 {
            assert(u.skip(6).skip(1) =~= u.skip(7));
        }
    }
}

pub fn parse_join_game(r: PacketReader) -> (res: Result<JoinGame, ProtocolError>)
    ensures
        match join_game_fields(r.unread()) {
            Ok((entity_id, game_mode, dimension, difficulty, max_players, level_type, reduced)) => res matches Ok(j) && j.entity_id == entity_id && j.game_mode == game_mode
                && j.dimension == dimension && j.difficulty == difficulty && j.max_players
                == max_players && j.level_type@ == level_type && j.reduced_debug_info == reduced,
            Err(e) => res == Err::<JoinGame, ProtocolError>(e),
        },
{
    let mut r = r;
    let entity_id = r.read_i32()?;
    let game_mode = r.read_u8()?;
    let dimension = r.read_i8()?;
    let difficulty = r.read_u8()?;
    let max_players = r.read_u8()?;
    let level_type = r.read_string()?;
    let reduced_debug_info = r.read_bool()?;
    Ok(JoinGame {
        entity_id,
        game_mode,
        dimension,
        difficulty,
        max_players,
        level_type,
        reduced_debug_info,
    })
}

/// Player Position And Look with its floating-point fields kept as their
/// IEEE-754 bit patterns (x, y, z are f64; yaw, pitch are f32).
pub struct PlayerPositionAndLook {
    pub x_bits: u64,
    pub y_bits: u64,
    pub z_bits: u64,
    pub yaw_bits: u32,
    pub pitch_bits: u32,
    pub flags: i8,
}

/// Player Position And Look's fields in wire order: x, y, z (8 bytes
/// each), yaw, pitch (4 bytes each), flags (i8).
pub open spec fn position_and_look_fields(u: Seq<u8>) -> Result<(u64, u64, u64, u32, u32, i8), ProtocolError> {
    match i64_field(u) {
        (Err(e), _) => Err(e),
        (Ok(x), u1) => match i64_field(u1) {
            (Err(e), _) => Err(e),
            (Ok(y), u2) => match i64_field(u2) {
                (Err(e), _) => Err(e),
                (Ok(z), u3) => match i32_field(u3) {
                    (Err(e), _) => Err(e),
                    (Ok(yaw), u4) => match i32_field(u4) {
                        (Err(e), _) => Err(e),
                        (Ok(pitch), u5) => match i8_field(u5) {
                            (Err(e), _) => Err(e),
                            (Ok(flags), _) => Ok(
                                (x as u64, y as u64, z as u64, yaw as u32, pitch as u32, flags),
                            ),
                        },
                    },
                },
            },
        },
    }
}

pub fn parse_player_position_and_look(r: PacketReader) -> (res: Result<
    PlayerPositionAndLook,
    ProtocolError,
>)
    ensures
        match position_and_look_fields(r.unread()) {
            Ok((x, y, z, yaw, pitch, flags)) => res matches Ok(p) && p.x_bits == x && p.y_bits == y
                && p.z_bits == z && p.yaw_bits == yaw && p.pitch_bits == pitch && p.flags == flags,
            Err(e) => res == Err::<PlayerPositionAndLook, ProtocolError>(e),
        },
{
    let mut r = r;
    let x = r.read_i64()?;
    let y = r.read_i64()?;
    let z = r.read_i64()?;
    let yaw = r.read_i32()?;
    let pitch = r.read_i32()?;
    let flags = r.read_i8()?;
    Ok(PlayerPositionAndLook {
        x_bits: x as u64,
        y_bits: y as u64,
        z_bits: z as u64,
        yaw_bits: yaw as u32,
        pitch_bits: pitch as u32,
        flags,
    })
}

/// The keep-alive id (a VarInt).
pub fn parse_keep_alive(r: PacketReader) -> (res: Result<i32, ProtocolError>)
    ensures
        res == varint_field(r.unread()).0,
{
    let mut r = r;
    r.read_varint()
}

/// The chat JSON String, then its position byte.
pub fn parse_chat_message(r: PacketReader) -> (res: Result<(String, i8), ProtocolError>)
    ensures
        match string_field(r.unread()) {
            (Err(e), _) => res == Err::<(String, i8), ProtocolError>(e),
            (Ok(chars), rest) => match i8_field(rest) {
                (Err(e), _) => res == Err::<(String, i8), ProtocolError>(e),
                (Ok(position), _) => res matches Ok((s, p)) && s@ == chars && p == position,
            },
        },
{
    let mut r = r;
    let message = r.read_string()?;
    let position = r.read_i8()?;
    Ok((message, position))
}

/// The spawn point, a block Position.
pub fn parse_spawn_position(r: PacketReader) -> (res: Result<(i32, i32, i32), ProtocolError>)
    ensures
        res == position_field(r.unread()).0,
{
    let mut r = r;
    r.read_position()
}

/// The kick reason (a JSON chat String).
pub fn parse_kick_disconnect(r: PacketReader) -> (res: Result<String, ProtocolError>)
    ensures
        match string_field(r.unread()).0 {
            Ok(chars) => res matches Ok(s) && s@ == chars,
            Err(e) => res == Err::<String, ProtocolError>(e),
        },
{
    let mut r = r;
    r.read_string()
}

/// A single block change: absolute position plus the packed
/// `(block_id << 4) | metadata` state, the encoding Chunk Data uses too.
pub struct BlockChange {
    pub x: i32,
    pub y: i32,
    pub z: i32,
    pub raw_state: i32,
}

pub fn parse_block_change(r: PacketReader) -> (res: Result<BlockChange, ProtocolError>)
    ensures
        match position_field(r.unread()) {
            (Err(e), _) => res == Err::<BlockChange, ProtocolError>(e),
            (Ok((x, y, z)), rest) => match varint_field(rest).0 {
                Err(e) => res == Err::<BlockChange, ProtocolError>(e),
                Ok(raw) => res matches Ok(c) && c.x == x && c.y == y && c.z == z && c.raw_state
                    == raw,
            },
        },
{
    let mut r = r;
    let (x, y, z) = r.read_position()?;
    let raw_state = r.read_varint()?;
    Ok(BlockChange { x, y, z, raw_state })
}

pub struct MultiBlockChangeRecord {
    pub local_x: u8,
    pub y: u8,
    pub local_z: u8,
    pub raw_state: i32,
}

pub struct MultiBlockChange {
    pub chunk_x: i32,
    pub chunk_z: i32,
    pub records: Vec<MultiBlockChangeRecord>,
}

/// The first `count` records of a Multi Block Change body `u`, each a
/// horizontal byte (x in the high nibble, z in the low one), a y byte
/// and a VarInt state, plus the bytes after them.
pub open spec fn block_records(u: Seq<u8>, count: nat) -> (Result<Seq<(u8, u8, u8, i32)>, ProtocolError>, Seq<u8>)
    decreases count,
{
    if count == 0 {
        (Ok(Seq::empty()), u)
    } else {
        match block_records(u, (count - 1) as nat) {
            (Err(e), rest) => (Err(e), rest),
            (Ok(recs), rest) => match u8_field(rest) {
                (Err(e), r1) => (Err(e), r1),
                (Ok(h), r1) => match u8_field(r1) {
                    (Err(e), r2) => (Err(e), r2),
                    (Ok(y), r2) => match varint_field(r2) {
                        (Err(e), r3) => (Err(e), r3),
                        (Ok(raw), r3) => (Ok(recs.push((h / 16, y, h % 16, raw))), r3),
                    },
                },
            },
        }
    }
}

/// Multi Block Change's fields: chunk x, chunk z (i32 each), a VarInt
/// record count, then the records.
pub open spec fn multi_block_change_fields(u: Seq<u8>) -> Result<(i32, i32, Seq<(u8, u8, u8, i32)>), ProtocolError> {
    match i32_field(u) {
        (Err(e), _) => Err(e),
        (Ok(cx), u1) => match i32_field(u1) {
            (Err(e), _) => Err(e),
            (Ok(cz), u2) => match varint_field(u2) {
                (Err(e), _) => Err(e),
                (Ok(count), u3) => match block_records(u3, (count as usize) as nat).0 {
                    Err(e) => Err(e),
                    Ok(recs) => Ok((cx, cz, recs)),
                },
            },
        },
    }
}

/// Reads `count` Multi Block Change records.
fn read_records(r: &mut PacketReader, count: usize) -> (res: Result<
    Vec<MultiBlockChangeRecord>,
    ProtocolError,
>)
    ensures
        match block_records(old(r).unread(), count as nat).0 {
            Ok(recs) => res matches Ok(v) && v@.len() == recs.len() && forall|i: int|
                0 <= i < recs.len() ==> {
                    let rec = #[trigger] v@[i];
                    (rec.local_x, rec.y, rec.local_z, rec.raw_state) == recs[i]
                },
            Err(e) => res == Err::<Vec<MultiBlockChangeRecord>, ProtocolError>(e),
        },
{
    let ghost u0 = r.unread();
    let ghost mut recs: Seq<(u8, u8, u8, i32)> = Seq::empty();
    let mut records: Vec<MultiBlockChangeRecord> = Vec::new();
    let mut i: usize = 0;
    while i < count
        invariant
            u0 == old(r).unread(),
            i <= count,
            block_records(u0, i as nat) == (Ok::<Seq<(u8, u8, u8, i32)>, ProtocolError>(recs), r.unread()),
            records@.len() == i,
            recs.len() == i,
            forall|j: int|
                0 <= j < i ==> {
                    let rec = #[trigger] records@[j];
                    (rec.local_x, rec.y, rec.local_z, rec.raw_state) == recs[j]
                },
        decreases count - i,
    {
        proof {
            lemma_records_err_stays(u0, (i + 1) as nat, count as nat);
        }
        let horizontal_pos = r.read_u8()?;
        let y = r.read_u8()?;
        let raw_state = r.read_varint()?;
        let local_x = horizontal_pos >> 4;
        let local_z = horizontal_pos & 0x0F;
        proof {
            assert(local_x == horizontal_pos / 16 && local_z == horizontal_pos % 16) by (bit_vector)
                requires
                    local_x == horizontal_pos >> 4,
                    local_z == horizontal_pos & 0x0F,
            ;
            recs = recs.push((local_x, y, local_z, raw_state));
        }
        records.push(MultiBlockChangeRecord { local_x, y, local_z, raw_state });
        i = i + 1;
    }
    Ok(records)
}

pub fn parse_multi_block_change(r: PacketReader) -> (res: Result<MultiBlockChange, ProtocolError>)
    ensures
        match multi_block_change_fields(r.unread()) {
            Ok((cx, cz, recs)) => res matches Ok(m) && m.chunk_x == cx && m.chunk_z == cz
                && m.records@.len() == recs.len() && forall|i: int|
                0 <= i < recs.len() ==> {
                    let rec = #[trigger] m.records@[i];
                    (rec.local_x, rec.y, rec.local_z, rec.raw_state) == recs[i]
                },
            Err(e) => res == Err::<MultiBlockChange, ProtocolError>(e),
        },
{
    let mut r = r;
    let chunk_x = r.read_i32()?;
    let chunk_z = r.read_i32()?;
    let count = r.read_varint()? as usize;
    let records = read_records(&mut r, count)?;
    Ok(MultiBlockChange { chunk_x, chunk_z, records })
}

/// Once reading the records fails, reading more of them fails the same way.
proof fn lemma_records_err_stays(u: Seq<u8>, a: nat, b: nat)
    requires
        a <= b,
    ensures
        block_records(u, a).0 is Err ==> block_records(u, b).0 == block_records(u, a).0,
    decreases b - a,
{
    if a < b {
        lemma_records_err_stays(u, a, (b - 1) as nat);
    }
}

} // verus!
