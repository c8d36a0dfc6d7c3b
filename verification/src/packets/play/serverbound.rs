use vstd::prelude::*;
use vstd::string::StringSliceAdditionalSpecFns;

use crate::io::{i64_bytes, be_bytes, PacketWriter};
use crate::varint::varint_bytes;

verus! {

pub const KEEP_ALIVE: i32 = 0x00;

pub const CHAT: i32 = 0x01;

pub const PLAYER: i32 = 0x03;

pub const PLAYER_POSITION: i32 = 0x04;

pub const PLAYER_LOOK: i32 = 0x05;

pub const PLAYER_POSITION_AND_LOOK: i32 = 0x06;

/// Body of Keep Alive: the id the server sent, echoed as a VarInt.
pub fn write_keep_alive(id: i32) -> (v: Vec<u8>)
    ensures
        v@ == varint_bytes(id),
{
    let mut w = PacketWriter::new();
    w.write_varint(id);
    w.into_bytes()
}

/// Body of Chat Message: one String field.
pub fn write_chat(message: &str) -> (v: Vec<u8>)
    ensures
        v@ == varint_bytes(message.len() as i32) + message.spec_bytes(),
{
    let mut w = PacketWriter::new();
    w.write_string(message);
    w.into_bytes()
}

/// Body of Player: just the on-ground flag.
pub fn write_player(on_ground: bool) -> (v: Vec<u8>)
    ensures
        v@ == seq![if on_ground { 1u8 } else { 0u8 }],
{
    let mut w = PacketWriter::new();
    w.write_bool(on_ground);
    w.into_bytes()
}

/// Body of Player Position And Look, from the IEEE-754 bit patterns of
/// x, y, z (f64) and yaw, pitch (f32): each written big-endian, then the
/// on-ground flag.
pub fn write_player_position_and_look(
    x_bits: u64,
    y_bits: u64,
    z_bits: u64,
    yaw_bits: u32,
    pitch_bits: u32,
    on_ground: bool,
) -> (v: Vec<u8>)
    ensures
        v@ == i64_bytes(x_bits as i64) + i64_bytes(y_bits as i64) + i64_bytes(z_bits as i64)
            + be_bytes(yaw_bits as nat, 4) + be_bytes(pitch_bits as nat, 4) + seq![
            if on_ground { 1u8 } else { 0u8 },
        ],
{
    let mut w = PacketWriter::new();
    w.write_i64(x_bits as i64).write_i64(y_bits as i64).write_i64(z_bits as i64).write_i32(
        yaw_bits as i32,
    ).write_i32(pitch_bits as i32).write_bool(on_ground);
    proof {
        let a: u32 = yaw_bits;
        let b: u32 = pitch_bits;
        assert((a as i32) as u32 == a) by (bit_vector);
        assert((b as i32) as u32 == b) by (bit_vector);
    }
    w.into_bytes()
}

} // verus!
