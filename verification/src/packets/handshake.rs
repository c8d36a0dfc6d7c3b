use vstd::prelude::*;
use vstd::string::StringSliceAdditionalSpecFns;

use crate::io::{i16_bytes, PacketWriter};
use crate::varint::varint_bytes;

verus! {

pub const NEXT_STATE_STATUS: i32 = 1;

pub const NEXT_STATE_LOGIN: i32 = 2;

/// Body of the serverbound Handshake (id 0x00, the only packet of the
/// Handshaking state), which selects whether the connection continues
/// into Status or Login.
pub fn write_handshake(protocol_version: i32, server_address: &str, server_port: u16, next_state: i32) -> (v: Vec<u8>)
    ensures
        v@ == varint_bytes(protocol_version) + varint_bytes(server_address.len() as i32)
            + server_address.spec_bytes() + i16_bytes(server_port as i16) + varint_bytes(
            next_state,
        ),
{
    let mut w = PacketWriter::new();
    w.write_varint(protocol_version).write_string(server_address).write_i16(
        server_port as i16,
    ).write_varint(next_state);
    w.into_bytes()
}

} // verus!
