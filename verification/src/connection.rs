//! The decisions of a 1.8.9 client connection: what to send to open it
//! (handshake, then offline-mode Login Start), how each Login-state packet
//! moves the login along, and how each Play-state packet becomes game
//! events and replies (Keep Alive answered, teleports confirmed). The
//! caller owns the socket: it reads frames, hands their packets here and
//! sends the replies this returns.

use std::collections::VecDeque;

use vstd::prelude::*;
use vstd::string::StringSliceAdditionalSpecFns;

use crate::block::BlockId;
use crate::chunk_column::ChunkColumn;
use crate::chunk_data::{
    bulk_offset, column_bytes, column_decoded, parse_bulk, parse_column_sections, BulkColumnMeta,
};
use crate::error::ProtocolError;
use crate::io::{bool_field, i32_field, string_field, u16_field, varint_field, PacketReader};
use crate::io::i16_bytes;
use crate::packets::handshake::{write_handshake, NEXT_STATE_LOGIN};
use crate::packets::login::{
    login_success_fields, parse_login_disconnect, parse_login_success, parse_set_compression,
    write_login_start, LoginSuccess, LOGIN_DISCONNECT, LOGIN_SET_COMPRESSION, LOGIN_SUCCESS,
};
use crate::packets::play::clientbound::{
    join_game_fields, parse_block_change, parse_chat_message, parse_join_game,
    parse_keep_alive, parse_kick_disconnect, parse_player_position_and_look,
    position_and_look_fields, BLOCK_CHANGE, CHAT_MESSAGE, JOIN_GAME, KEEP_ALIVE,
    KICK_DISCONNECT, MAP_CHUNK, MAP_CHUNK_BULK, PLAYER_POSITION_AND_LOOK,
};
use crate::packets::play::serverbound;
use crate::packets::play::serverbound::{write_keep_alive, write_player_position_and_look};
use crate::io::{be_bytes, i64_bytes, i8_field, position_field};
use crate::varint::varint_bytes;
use crate::world::{block_written, column_key, World};

verus! {

/// Protocol version 47: Minecraft 1.8 through 1.8.9.
pub const PROTOCOL_VERSION: i32 = 47;

/// What a Play-state packet tells the game. Floating-point values travel
/// as their IEEE-754 bit patterns.
pub enum GameEvent {
    JoinGame { entity_id: i32, dimension: i32 },
    ChunkColumnLoaded(ChunkColumn),
    ChunkColumnUnloaded { chunk_x: i32, chunk_z: i32 },
    PlayerPositionAndLook { x_bits: u64, y_bits: u64, z_bits: u64, yaw_bits: u32, pitch_bits: u32 },
    ChatMessage(String),
    BlockChange { x: i32, y: i32, z: i32, block: BlockId },
    Disconnected(String),
}

/// What applying one game event to the world leaves for the caller.
pub enum EventOutcome {
    /// The event changed the loaded world (a column loaded or unloaded, a
    /// block written), which is to be meshed again.
    WorldChanged,
    /// The event does not touch the world; it is handed back.
    Other(GameEvent),
}

/// Applies a game event to the loaded world: a loaded column is stored
/// under its coordinates (replacing one already there), an unloaded
/// column is dropped and a block change is written; every other event
/// leaves the world alone and is handed back.
pub fn apply_event(world: &mut World, event: GameEvent) -> (r: EventOutcome)
    requires
        old(world).wf(),
        event matches GameEvent::ChunkColumnLoaded(c) ==> c.wf(),
    ensures
        final(world).wf(),
        match event {
            GameEvent::ChunkColumnLoaded(c) => r is WorldChanged && final(world)@ == old(world)@.insert(
                column_key(c),
                c,
            ),
            GameEvent::ChunkColumnUnloaded { chunk_x, chunk_z } => r is WorldChanged && final(world)@
                == old(world)@.remove((chunk_x, chunk_z)),
            GameEvent::BlockChange { x, y, z, block } => r is WorldChanged && block_written(
                old(world)@,
                final(world)@,
                x,
                y,
                z,
                block,
            ),
            _ => r == EventOutcome::Other(event) && final(world)@ == old(world)@,
        },
{
    match event {
        GameEvent::ChunkColumnLoaded(column) => {
            world.insert_column(column);
            EventOutcome::WorldChanged
        },
        GameEvent::ChunkColumnUnloaded { chunk_x, chunk_z } => {
            world.remove_column(chunk_x, chunk_z);
            EventOutcome::WorldChanged
        },
        GameEvent::BlockChange { x, y, z, block } => {
            world.set_block(x, y, z, block);
            EventOutcome::WorldChanged
        },
        other => EventOutcome::Other(other),
    }
}

/// The packets that open a connection, in order, all uncompressed: the
/// Handshake asking for the Login state, then Login Start.
pub fn opening_packets(host: &str, port: u16, username: &str) -> (r: Vec<(i32, Vec<u8>)>)
    ensures
        r@.len() == 2,
        r@[0].0 == 0 && r@[0].1@ == varint_bytes(PROTOCOL_VERSION) + varint_bytes(host.len() as i32)
            + host.spec_bytes() + i16_bytes(port as i16) + varint_bytes(NEXT_STATE_LOGIN),
        r@[1].0 == 0 && r@[1].1@ == varint_bytes(username.len() as i32) + username.spec_bytes(),
{
    let mut r: Vec<(i32, Vec<u8>)> = Vec::new();
    r.push((0, write_handshake(PROTOCOL_VERSION, host, port, NEXT_STATE_LOGIN)));
    r.push((0, write_login_start(username)));
    r
}

/// How a Login-state packet moves the login along.
pub enum LoginStep {
    /// Keep reading Login-state packets.
    Continue,
    /// Logged in; the connection is in the Play state now.
    Success(LoginSuccess),
}

/// The connection's protocol state: whether packets are compressed (and
/// from what size on), whether the current dimension sends sky light,
/// and events already decoded but not handed out yet.
pub struct Connection {
    compression_threshold: Option<i32>,
    has_sky_light: bool,
    pending: VecDeque<GameEvent>,
}

/// A raw byte-string field of `len` bytes.
pub open spec fn bytes_field(u: Seq<u8>, len: nat) -> (Result<Seq<u8>, ProtocolError>, Seq<u8>) {
    if len <= u.len() {
        (Ok(u.take(len as int)), u.skip(len as int))
    } else {
        (Err(ProtocolError::UnexpectedEof), u)
    }
}

/// Chunk Data's fields: chunk x, chunk z (i32), ground-up continuous
/// (bool), section bitmask (u16), then a VarInt length and that many
/// bytes of section data.
pub open spec fn map_chunk_fields(u: Seq<u8>) -> Result<(i32, i32, bool, u16, Seq<u8>), ProtocolError> {
    match i32_field(u) {
        (Err(e), _) => Err(e),
        (Ok(cx), u1) => match i32_field(u1) {
            (Err(e), _) => Err(e),
            (Ok(cz), u2) => match bool_field(u2) {
                (Err(e), _) => Err(e),
                (Ok(ground_up), u3) => match u16_field(u3) {
                    (Err(e), _) => Err(e),
                    (Ok(bitmask), u4) => match varint_field(u4) {
                        (Err(e), _) => Err(e),
                        (Ok(len), u5) => match bytes_field(u5, (len as usize) as nat).0 {
                            Err(e) => Err(e),
                            Ok(data) => Ok((cx, cz, ground_up, bitmask, data)),
                        },
                    },
                },
            },
        },
    }
}

/// The first `count` column headers of a Chunk Data Bulk body (chunk x,
/// chunk z, bitmask each), and the bytes after them.
pub open spec fn bulk_metas(u: Seq<u8>, count: nat) -> (Result<Seq<BulkColumnMeta>, ProtocolError>, Seq<u8>)
    decreases count,
{
    if count == 0 {
        (Ok(Seq::empty()), u)
    } else {
        match bulk_metas(u, (count - 1) as nat) {
            (Err(e), rest) => (Err(e), rest),
            (Ok(metas), rest) => match i32_field(rest) {
                (Err(e), r1) => (Err(e), r1),
                (Ok(cx), r1) => match i32_field(r1) {
                    (Err(e), r2) => (Err(e), r2),
                    (Ok(cz), r2) => match u16_field(r2) {
                        (Err(e), r3) => (Err(e), r3),
                        (Ok(bitmask), r3) => (
                            Ok(metas.push(BulkColumnMeta { chunk_x: cx, chunk_z: cz, bitmask })),
                            r3,
                        ),
                    },
                },
            },
        }
    }
}

/// Chunk Data Bulk's fields: sky light sent (bool), a VarInt column
/// count, the column headers, and every remaining byte as the data.
pub open spec fn bulk_fields(u: Seq<u8>) -> Result<(bool, Seq<BulkColumnMeta>, Seq<u8>), ProtocolError> {
    match bool_field(u) {
        (Err(e), _) => Err(e),
        (Ok(sky), u1) => match varint_field(u1) {
            (Err(e), _) => Err(e),
            (Ok(count), u2) => match bulk_metas(u2, (count as usize) as nat) {
                (Err(e), _) => Err(e),
                (Ok(metas), rest) => Ok((sky, metas, rest)),
            },
        },
    }
}

proof fn lemma_metas_err_stays(u: Seq<u8>, a: nat, b: nat)
    requires
        a <= b,
    ensures
        bulk_metas(u, a).0 is Err ==> bulk_metas(u, b) == bulk_metas(u, a),
    decreases b - a,
{
    if a < b {
        lemma_metas_err_stays(u, a, (b - 1) as nat);
    }
}

/// Reads `count` Chunk Data Bulk column headers.
fn read_metas(r: &mut PacketReader, count: usize) -> (res: Result<Vec<BulkColumnMeta>, ProtocolError>)
    ensures
        match bulk_metas(old(r).unread(), count as nat) {
            (Ok(metas), rest) => res matches Ok(v) && v@ == metas && final(r).unread() == rest,
            (Err(e), _) => res == Err::<Vec<BulkColumnMeta>, ProtocolError>(e),
        },
{
    let ghost u0 = r.unread();
    let mut metas: Vec<BulkColumnMeta> = Vec::new();
    let mut i: usize = 0;
    while i < count
        invariant
            u0 == old(r).unread(),
            i <= count,
            bulk_metas(u0, i as nat) == (Ok::<Seq<BulkColumnMeta>, ProtocolError>(metas@), r.unread()),
        decreases count - i,
    {
        proof {
            lemma_metas_err_stays(u0, (i + 1) as nat, count as nat);
        }
        let chunk_x = r.read_i32()?;
        let chunk_z = r.read_i32()?;
        let bitmask = r.read_u16()?;
        metas.push(BulkColumnMeta { chunk_x, chunk_z, bitmask });
        i = i + 1;
    }
    Ok(metas)
}

/// The events queued behind the first of a bulk packet's columns: one
/// loaded-column event for each further column, in order.
pub open spec fn queued_after_first(cols: Seq<ChunkColumn>) -> Seq<GameEvent> {
    if cols.len() == 0 {
        Seq::empty()
    } else {
        cols.drop_first().map_values(|c: ChunkColumn| GameEvent::ChunkColumnLoaded(c))
    }
}

/// What the connection does with one Play-state packet.
pub struct PlayStep {
    /// A packet (id, body) to send back right away.
    pub reply: Option<(i32, Vec<u8>)>,
    /// The event this packet produced, if any (further events it produced
    /// wait in the connection's queue).
    pub event: Option<GameEvent>,
}

impl Connection {
    pub closed spec fn threshold(&self) -> Option<i32> {
        self.compression_threshold
    }

    pub closed spec fn sky_light(&self) -> bool {
        self.has_sky_light
    }

    /// Events decoded but not handed out yet, oldest first.
    pub closed spec fn queued(&self) -> Seq<GameEvent> {
        self.pending@
    }

    /// A fresh connection: uncompressed, overworld (sky light), nothing
    /// queued.
    pub fn new() -> (c: Self)
        ensures
            c.threshold() is None,
            c.sky_light(),
            c.queued() == Seq::<GameEvent>::empty(),
    {
        Connection { compression_threshold: None, has_sky_light: true, pending: VecDeque::new() }
    }

    /// The compression threshold frames are read and written with.
    pub fn compression_threshold(&self) -> (t: Option<i32>)
        ensures
            t == self.threshold(),
    {
        self.compression_threshold
    }

    /// Handles one Login-state packet: Set Compression turns compression
    /// on (a negative threshold turns it off), Login Success ends the
    /// login, Login Disconnect fails it with the server's reason, and
    /// anything else is ignored.
    pub fn handle_login_packet(&mut self, packet_id: i32, body: Vec<u8>) -> (r: Result<
        LoginStep,
        ProtocolError,
    >)
        ensures
            final(self).sky_light() == old(self).sky_light(),
            final(self).queued() == old(self).queued(),
            packet_id == LOGIN_SET_COMPRESSION ==> match varint_field(body@).0 {
                Ok(t) => r matches Ok(LoginStep::Continue) && final(self).threshold() == if t >= 0 {
                    Some(t)
                } else {
                    None
                },
                Err(e) => r == Err::<LoginStep, ProtocolError>(e) && final(self).threshold() == old(self).threshold(),
            },
            packet_id == LOGIN_SUCCESS ==> final(self).threshold() == old(self).threshold(),
            packet_id == LOGIN_SUCCESS ==> match login_success_fields(body@) {
                Ok((uuid, name)) => r matches Ok(LoginStep::Success(s)) && s.uuid@ == uuid
                    && s.username@ == name,
                Err(e) => r == Err::<LoginStep, ProtocolError>(e),
            },
            packet_id == LOGIN_DISCONNECT ==> final(self).threshold() == old(self).threshold(),
            packet_id == LOGIN_DISCONNECT ==> match string_field(body@).0 {
                Ok(reason) => r matches Err(ProtocolError::Disconnected(s)) && s@ == reason,
                Err(e) => r == Err::<LoginStep, ProtocolError>(e),
            },
            packet_id != LOGIN_SET_COMPRESSION && packet_id != LOGIN_SUCCESS && packet_id
                != LOGIN_DISCONNECT ==> (r matches Ok(LoginStep::Continue) && final(self).threshold()
                == old(self).threshold()),
    {
        let r = PacketReader::new(body);
        if packet_id == LOGIN_SET_COMPRESSION {
            let threshold = parse_set_compression(r)?;
            self.compression_threshold = if threshold >= 0 {
                Some(threshold)
            } else {
                None
            };
            Ok(LoginStep::Continue)
        } else if packet_id == LOGIN_SUCCESS {
            let success = parse_login_success(r)?;
            Ok(LoginStep::Success(success))
        } else if packet_id == LOGIN_DISCONNECT {
            let reason = parse_login_disconnect(r)?;
            Err(ProtocolError::Disconnected(reason))
        } else {
            Ok(LoginStep::Continue)
        }
    }

    /// The oldest queued event, if any.
    pub fn next_pending(&mut self) -> (e: Option<GameEvent>)
        ensures
            final(self).threshold() == old(self).threshold(),
            final(self).sky_light() == old(self).sky_light(),
            old(self).queued().len() == 0 ==> e is None && final(self).queued() == old(self).queued(),
            old(self).queued().len() > 0 ==> e == Some(old(self).queued()[0]) && final(self).queued()
                == old(self).queued().drop_first(),
    {
        self.pending.pop_front()
    }
    /// Handles one Play-state packet: Keep Alive is answered with the
    /// same id, a teleport (Player Position And Look) is confirmed by
    /// echoing it back on the ground, Join Game records whether the
    /// dimension has sky light (only the overworld, dimension 0, does),
    /// chunk data becomes loaded or unloaded columns (a bulk packet's
    /// first column is returned and the rest queued), and packets not
    /// modeled here produce nothing.
    pub fn handle_play_packet(&mut self, packet_id: i32, body: Vec<u8>) -> (r: Result<
        PlayStep,
        ProtocolError,
    >)
        ensures
            final(self).threshold() == old(self).threshold(),
            packet_id != JOIN_GAME ==> final(self).sky_light() == old(self).sky_light(),
            packet_id != MAP_CHUNK_BULK ==> final(self).queued() == old(self).queued(),
            packet_id == KEEP_ALIVE ==> match varint_field(body@).0 {
                Ok(id) => (r matches Ok(step) && step.event is None && (step.reply matches Some(
                    (rid, rb),
                ) && rid == serverbound::KEEP_ALIVE && rb@ == varint_bytes(id))),
                Err(e) => r == Err::<PlayStep, ProtocolError>(e),
            },
            packet_id == JOIN_GAME ==> match join_game_fields(body@) {
                Ok((entity_id, _, dimension, _, _, _, _)) => r matches Ok(step) && step.reply is None
                    && step.event == Some(
                    GameEvent::JoinGame { entity_id, dimension: dimension as i32 },
                ) && final(self).sky_light() == (dimension == 0),
                Err(e) => r == Err::<PlayStep, ProtocolError>(e) && final(self).sky_light() == old(self).sky_light(),
            },
            packet_id == CHAT_MESSAGE ==> match string_field(body@) {
                (Err(e), _) => r == Err::<PlayStep, ProtocolError>(e),
                (Ok(chars), rest) => match i8_field(rest).0 {
                    Err(e) => r == Err::<PlayStep, ProtocolError>(e),
                    Ok(_) => (r matches Ok(step) && step.reply is None && (step.event matches Some(
                        GameEvent::ChatMessage(s),
                    ) && s@ == chars)),
                },
            },
            packet_id == PLAYER_POSITION_AND_LOOK ==> match position_and_look_fields(body@) {
                Ok((x, y, z, yaw, pitch, _)) => (r matches Ok(step) && step.event == Some(
                    GameEvent::PlayerPositionAndLook {
                        x_bits: x,
                        y_bits: y,
                        z_bits: z,
                        yaw_bits: yaw,
                        pitch_bits: pitch,
                    },
                ) && (step.reply matches Some((rid, rb)) && rid
                    == serverbound::PLAYER_POSITION_AND_LOOK && rb@ == i64_bytes(x as i64)
                    + i64_bytes(y as i64) + i64_bytes(z as i64) + be_bytes(yaw as nat, 4)
                    + be_bytes(pitch as nat, 4) + seq![1u8])),
                Err(e) => r == Err::<PlayStep, ProtocolError>(e),
            },
            packet_id == MAP_CHUNK ==> match map_chunk_fields(body@) {
                Err(e) => r == Err::<PlayStep, ProtocolError>(e),
                Ok((chunk_x, chunk_z, ground_up, bitmask, data)) => if ground_up && bitmask == 0 {
                    r matches Ok(step) && step.reply is None && step.event == Some(
                        GameEvent::ChunkColumnUnloaded { chunk_x, chunk_z },
                    )
                } else if column_bytes(bitmask, old(self).sky_light(), ground_up) <= data.len() {
                    (r matches Ok(step) && step.reply is None && (step.event matches Some(
                        GameEvent::ChunkColumnLoaded(col),
                    ) && column_decoded(
                        col,
                        chunk_x,
                        chunk_z,
                        bitmask,
                        old(self).sky_light(),
                        data,
                        0,
                    )))
                } else {
                    r == Err::<PlayStep, ProtocolError>(ProtocolError::UnexpectedEof)
                },
            },
            packet_id == MAP_CHUNK_BULK ==> match bulk_fields(body@) {
                Err(e) => r == Err::<PlayStep, ProtocolError>(e) && final(self).queued() == old(self).queued(),
                Ok((sky, metas, data)) => if bulk_offset(metas, sky, metas.len()) <= data.len() {
                    r matches Ok(step) && step.reply is None && exists|cols: Seq<ChunkColumn>|
                        {
                            &&& cols.len() == metas.len()
                            &&& forall|i: int|
                                0 <= i < metas.len() ==> column_decoded(
                                    #[trigger] cols[i],
                                    metas[i].chunk_x,
                                    metas[i].chunk_z,
                                    metas[i].bitmask,
                                    sky,
                                    data,
                                    bulk_offset(metas, sky, i as nat) as int,
                                )
                            &&& step.event == if cols.len() > 0 {
                                Some(GameEvent::ChunkColumnLoaded(cols[0]))
                            } else {
                                None
                            }
                            &&& final(self).queued() == old(self).queued() + queued_after_first(cols)
                        }
                } else {
                    r == Err::<PlayStep, ProtocolError>(ProtocolError::UnexpectedEof) && final(self).queued() == old(self).queued()
                },
            },
            packet_id == BLOCK_CHANGE ==> match position_field(body@) {
                (Err(e), _) => r == Err::<PlayStep, ProtocolError>(e),
                (Ok((x, y, z)), rest) => match varint_field(rest).0 {
                    Err(e) => r == Err::<PlayStep, ProtocolError>(e),
                    Ok(raw) => r matches Ok(step) && step.reply is None && step.event == Some(
                        GameEvent::BlockChange { x, y, z, block: BlockId(((raw as u32) >> 4) as u16) },
                    ),
                },
            },
            packet_id == KICK_DISCONNECT ==> match string_field(body@).0 {
                Ok(reason) => (r matches Ok(step) && step.reply is None && (step.event matches Some(
                    GameEvent::Disconnected(s),
                ) && s@ == reason)),
                Err(e) => r == Err::<PlayStep, ProtocolError>(e),
            },
            packet_id != KEEP_ALIVE && packet_id != JOIN_GAME && packet_id != CHAT_MESSAGE
                && packet_id != PLAYER_POSITION_AND_LOOK && packet_id != MAP_CHUNK && packet_id
                != MAP_CHUNK_BULK && packet_id != BLOCK_CHANGE && packet_id != KICK_DISCONNECT ==> (
            r matches Ok(step) && step.reply is None && step.event is None),
    {
        let r = PacketReader::new(body);
        if packet_id == KEEP_ALIVE {
            let id = parse_keep_alive(r)?;
            Ok(PlayStep { reply: Some((serverbound::KEEP_ALIVE, write_keep_alive(id))), event: None })
        } else if packet_id == JOIN_GAME {
            let join = parse_join_game(r)?;
            self.has_sky_light = join.dimension == 0;
            Ok(PlayStep {
                reply: None,
                event: Some(
                    GameEvent::JoinGame { entity_id: join.entity_id, dimension: join.dimension as i32 },
                ),
            })
        } else if packet_id == CHAT_MESSAGE {
            let (json, _position) = parse_chat_message(r)?;
            Ok(PlayStep { reply: None, event: Some(GameEvent::ChatMessage(json)) })
        } else if packet_id == PLAYER_POSITION_AND_LOOK {
            let pos = parse_player_position_and_look(r)?;
            let reply = write_player_position_and_look(
                pos.x_bits,
                pos.y_bits,
                pos.z_bits,
                pos.yaw_bits,
                pos.pitch_bits,
                true,
            );
            Ok(PlayStep {
                reply: Some((serverbound::PLAYER_POSITION_AND_LOOK, reply)),
                event: Some(
                    GameEvent::PlayerPositionAndLook {
                        x_bits: pos.x_bits,
                        y_bits: pos.y_bits,
                        z_bits: pos.z_bits,
                        yaw_bits: pos.yaw_bits,
                        pitch_bits: pos.pitch_bits,
                    },
                ),
            })
        } else if packet_id == MAP_CHUNK {
            let event = self.parse_map_chunk(r)?;
            Ok(PlayStep { reply: None, event: Some(event) })
        } else if packet_id == MAP_CHUNK_BULK {
            let event = self.parse_map_chunk_bulk(r)?;
            Ok(PlayStep { reply: None, event })
        } else if packet_id == BLOCK_CHANGE {
            let change = parse_block_change(r)?;
            Ok(PlayStep {
                reply: None,
                event: Some(
                    GameEvent::BlockChange {
                        x: change.x,
                        y: change.y,
                        z: change.z,
                        block: BlockId(((change.raw_state as u32) >> 4) as u16),
                    },
                ),
            })
        } else if packet_id == KICK_DISCONNECT {
            let reason = parse_kick_disconnect(r)?;
            Ok(PlayStep { reply: None, event: Some(GameEvent::Disconnected(reason)) })
        } else {
            Ok(PlayStep { reply: None, event: None })
        }
    }

    fn parse_map_chunk(&self, r: PacketReader) -> (res: Result<GameEvent, ProtocolError>)
        ensures
            match map_chunk_fields(r.unread()) {
                Err(e) => res == Err::<GameEvent, ProtocolError>(e),
                Ok((chunk_x, chunk_z, ground_up, bitmask, data)) => if ground_up && bitmask == 0 {
                    res == Ok::<GameEvent, ProtocolError>(
                        GameEvent::ChunkColumnUnloaded { chunk_x, chunk_z },
                    )
                } else if column_bytes(bitmask, self.sky_light(), ground_up) <= data.len() {
                    res matches Ok(GameEvent::ChunkColumnLoaded(col)) && column_decoded(
                        col,
                        chunk_x,
                        chunk_z,
                        bitmask,
                        self.sky_light(),
                        data,
                        0,
                    )
                } else {
                    res == Err::<GameEvent, ProtocolError>(ProtocolError::UnexpectedEof)
                },
            },
    {
        let mut r = r;
        let chunk_x = r.read_i32()?;
        let chunk_z = r.read_i32()?;
        let ground_up_continuous = r.read_bool()?;
        let bitmask = r.read_u16()?;
        let data_len = r.read_varint()? as usize;
        let data = r.read_bytes(data_len)?;
        if ground_up_continuous && bitmask == 0 {
            return Ok(GameEvent::ChunkColumnUnloaded { chunk_x, chunk_z });
        }
        let (column, _) = parse_column_sections(
            chunk_x,
            chunk_z,
            bitmask,
            self.has_sky_light,
            ground_up_continuous,
            data.as_slice(),
        )?;
        Ok(GameEvent::ChunkColumnLoaded(column))
    }

    /// Parses every column of a Chunk Data Bulk packet, returns the first
    /// and queues the rest, so none is lost.
    fn parse_map_chunk_bulk(&mut self, r: PacketReader) -> (res: Result<Option<GameEvent>, ProtocolError>)
        ensures
            final(self).threshold() == old(self).threshold(),
            final(self).sky_light() == old(self).sky_light(),
            match bulk_fields(r.unread()) {
                Err(e) => res == Err::<Option<GameEvent>, ProtocolError>(e) && final(self).queued()
                    == old(self).queued(),
                Ok((sky, metas, data)) => if bulk_offset(metas, sky, metas.len()) <= data.len() {
                    res matches Ok(event) && exists|cols: Seq<ChunkColumn>|
                        {
                            &&& cols.len() == metas.len()
                            &&& forall|i: int|
                                0 <= i < metas.len() ==> column_decoded(
                                    #[trigger] cols[i],
                                    metas[i].chunk_x,
                                    metas[i].chunk_z,
                                    metas[i].bitmask,
                                    sky,
                                    data,
                                    bulk_offset(metas, sky, i as nat) as int,
                                )
                            &&& event == if cols.len() > 0 {
                                Some(GameEvent::ChunkColumnLoaded(cols[0]))
                            } else {
                                None
                            }
                            &&& final(self).queued() == old(self).queued() + queued_after_first(cols)
                        }
                } else {
                    res == Err::<Option<GameEvent>, ProtocolError>(ProtocolError::UnexpectedEof)
                        && final(self).queued() == old(self).queued()
                },
            },
    {
        let mut r = r;
        let sky_light_sent = r.read_bool()?;
        let count = r.read_varint()? as usize;
        let metas = read_metas(&mut r, count)?;
        let data = r.read_remaining();
        let mut columns = parse_bulk(metas.as_slice(), sky_light_sent, data.as_slice())?;
        let ghost cols = columns@;
        if columns.len() == 0 {
            assert(self.pending@ =~= old(self).queued() + queued_after_first(cols));
            return Ok(None);
        }
        let first = columns.remove(0);
        let ghost rest = columns@;
        assert(rest =~= cols.drop_first());
        let ghost mut k: int = 0;
        while columns.len() > 0
            invariant
                0 <= k <= rest.len(),
                columns@ == rest.skip(k),
                self.compression_threshold == old(self).compression_threshold,
                self.has_sky_light == old(self).has_sky_light,
                self.pending@ == old(self).pending@ + rest.take(k).map_values(
                    |c: ChunkColumn| GameEvent::ChunkColumnLoaded(c),
                ),
            decreases columns@.len(),
        {
            let c = columns.remove(0);
            assert(c == rest[k]);
            self.pending.push_back(GameEvent::ChunkColumnLoaded(c));
            proof {
                k = k + 1;
            }
            assert(columns@ =~= rest.skip(k));
            assert(rest.take(k).map_values(|c: ChunkColumn| GameEvent::ChunkColumnLoaded(c))
                =~= rest.take(k - 1).map_values(
                |c: ChunkColumn| GameEvent::ChunkColumnLoaded(c),
            ).push(GameEvent::ChunkColumnLoaded(rest[k - 1])));
        }
        assert(k == rest.len());
        assert(rest.take(rest.len() as int) =~= rest);
        Ok(Some(GameEvent::ChunkColumnLoaded(first)))
    }
}

} // verus!
