use vstd::prelude::*;
use vstd::string::StringSliceAdditionalSpecFns;

use crate::error::ProtocolError;
use crate::io::{string_field, varint_field, PacketReader, PacketWriter};
use crate::varint::varint_bytes;

verus! {

pub const LOGIN_DISCONNECT: i32 = 0x00;

/// Sent by online-mode servers to start Mojang authentication, which this
/// client does not implement; only used to recognize that case.
pub const LOGIN_ENCRYPTION_REQUEST: i32 = 0x01;

pub const LOGIN_SUCCESS: i32 = 0x02;

pub const LOGIN_SET_COMPRESSION: i32 = 0x03;

/// Body of the serverbound Login Start (id 0x00): offline-mode login,
/// no authentication and no encryption.
pub fn write_login_start(username: &str) -> (v: Vec<u8>)
    ensures
        v@ == varint_bytes(username.len() as i32) + username.spec_bytes(),
{
    let mut w = PacketWriter::new();
    w.write_string(username);
    w.into_bytes()
}

pub struct LoginSuccess {
    pub uuid: String,
    pub username: String,
}

/// What parsing a Login Success body `u` gives: the dashed UUID string,
/// then the username.
pub open spec fn login_success_fields(u: Seq<u8>) -> Result<(Seq<char>, Seq<char>), ProtocolError> {
    match string_field(u) {
        (Err(e), _) => Err(e),
        (Ok(uuid), rest) => match string_field(rest) {
            (Err(e), _) => Err(e),
            (Ok(name), _) => Ok((uuid, name)),
        },
    }
}

pub fn parse_login_success(r: PacketReader) -> (res: Result<LoginSuccess, ProtocolError>)
    ensures
        match login_success_fields(r.unread()) {
            Ok((uuid, name)) => res matches Ok(s) && s.uuid@ == uuid && s.username@ == name,
            Err(e) => res == Err::<LoginSuccess, ProtocolError>(e),
        },
{
    let mut r = r;
    let uuid = r.read_uuid_string()?;
    let username = r.read_string()?;
    Ok(LoginSuccess { uuid, username })
}

/// The compression threshold (a VarInt); negative turns compression off.
pub fn parse_set_compression(r: PacketReader) -> (res: Result<i32, ProtocolError>)
    ensures
        res == varint_field(r.unread()).0,
{
    let mut r = r;
    r.read_varint()
}

/// The reason (a JSON chat String) the server refused the login.
pub fn parse_login_disconnect(r: PacketReader) -> (res: Result<String, ProtocolError>)
    ensures
        match string_field(r.unread()).0 {
            Ok(chars) => res matches Ok(s) && s@ == chars,
            Err(e) => res == Err::<String, ProtocolError>(e),
        },
{
    let mut r = r;
    r.read_string()
}

} // verus!
