//! Cobble: the verified core of a Minecraft 1.8.9 (protocol 47) client.
//!
//! Game state (blocks, chunk sections, chunk columns, the loaded world),
//! the wire protocol (VarInt/VarLong, packet field encodings, framing
//! with optional zlib compression, chunk section decoding, the
//! login/play packet handling state machine), texture pack bookkeeping
//! (atlas layout, coverage, cache naming, fallback tiles) and the
//! integer side of meshing and the UI's input handling.

pub mod block;
pub mod chunk;
pub mod chunk_column;
pub mod world;
pub mod physics;
pub mod error;
pub mod text;
pub mod varint;
pub mod io;
pub mod chunk_data;
pub mod packets;
pub mod frame;
pub mod connection;
pub mod texturepacks;
pub mod renderer;
pub mod address;
pub mod ui;
pub mod touch;
