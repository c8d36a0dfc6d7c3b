//! Packet framing: the outer `[Length][PacketID][Data]` envelope, and the
//! zlib packet compression that applies once a Set Compression packet
//! turns it on. Building and taking apart frames happens here; moving
//! their bytes over a socket is the caller's part.

use std::io::Read;

use vstd::prelude::*;

use crate::error::ProtocolError;
use crate::varint::{
    lemma_decode_shift, lemma_varint_round_trip, read_varint, varint_bytes, varint_decode,
    write_varint, var_scan, VarScan,
};

verus! {

/// Largest accepted frame (after the length prefix), and largest accepted
/// decompressed body: a sanity bound against corrupt streams.
pub const MAX_FRAME_LEN: usize = 8388608;

/// What zlib-compressing `data` at flate2's default level yields.
pub uninterp spec fn zlib_compressed(data: Seq<u8>) -> Seq<u8>;

/// The first `len` bytes that zlib-decompressing `data` yields, or `None`
/// when `data` is not a zlib stream that long.
pub uninterp spec fn zlib_inflated_prefix(data: Seq<u8>, len: nat) -> Option<Seq<u8>>;

/// `flate2::read::ZlibEncoder` at `Compression::default()`, read to the
/// end: the compressed stream, which decompresses back to `data`. Reading
/// from an in-memory slice cannot fail, and the miniz_oxide compressor
/// reports no error for a stream it started itself, so the call succeeds.
#[verifier::external_body]
fn zlib_compress(data: &[u8]) -> (r: Result<Vec<u8>, std::io::Error>)
    ensures
        r is Ok,
        r matches Ok(v) ==> v@ == zlib_compressed(data@) && zlib_inflated_prefix(
            v@,
            data@.len(),
        ) == Some(data@),
{
    let mut out = Vec::new();
    flate2::read::ZlibEncoder::new(data, flate2::Compression::default()).read_to_end(&mut out)?;
    Ok(out)
}

/// `flate2::read::ZlibDecoder` over `data`, `read_exact` into a buffer of
/// `len` bytes: fails exactly when the stream does not decompress to at
/// least `len` bytes.
#[verifier::external_body]
fn zlib_decompress(data: &[u8], len: usize) -> (r: Result<Vec<u8>, std::io::Error>)
    ensures
        r is Ok <==> zlib_inflated_prefix(data@, len as nat) is Some,
        r matches Ok(v) ==> Some(v@) == zlib_inflated_prefix(data@, len as nat) && v@.len()
            == len,
{
    let mut out = vec![0u8; len];
    flate2::read::ZlibDecoder::new(data).read_exact(&mut out)?;
    Ok(out)
}

/// `[PacketID][Data]`, uncompressed.
pub open spec fn uncompressed_body(packet_id: i32, body: Seq<u8>) -> Seq<u8> {
    varint_bytes(packet_id) + body
}

/// Whether a body of `len` bytes is compressed under `threshold`: once
/// it reaches the threshold (a negative threshold counting as 0).
pub open spec fn reaches_threshold(len: nat, threshold: i32) -> bool {
    len >= if threshold > 0 {
        threshold as nat
    } else {
        0nat
    }
}

/// The frame body `encode_packet` builds (everything after the length
/// prefix): without compression `[PacketID][Data]`; with it
/// `[DataLength][...]`, where DataLength is the uncompressed size followed
/// by the zlib stream when the body reaches the threshold, and 0 followed
/// by the plain body otherwise.
pub open spec fn frame_body(packet_id: i32, body: Seq<u8>, compression_threshold: Option<i32>) -> Seq<u8> {
    let u = uncompressed_body(packet_id, body);
    match compression_threshold {
        None => u,
        Some(t) => if reaches_threshold(u.len(), t) {
            varint_bytes(u.len() as i32) + zlib_compressed(u)
        } else {
            varint_bytes(0) + u
        },
    }
}

/// The whole frame `encode_packet` builds: the frame body behind its
/// length prefix.
pub open spec fn frame_bytes(packet_id: i32, body: Seq<u8>, compression_threshold: Option<i32>) -> Seq<u8> {
    let data = frame_body(packet_id, body, compression_threshold);
    varint_bytes(data.len() as i32) + data
}

/// The frame length check `read_packet` makes on the length prefix.
pub open spec fn frame_len_check(packet_len: i32) -> Result<usize, ProtocolError> {
    let n = packet_len as usize;
    if n == 0 || n > MAX_FRAME_LEN {
        Err(ProtocolError::PacketTooLarge(n))
    } else {
        Ok(n)
    }
}

/// Outcome of taking apart a frame body (the bytes after the length
/// prefix).
pub enum Unframed {
    /// The packet id and its data.
    Packet(i32, Seq<u8>),
    /// A protocol error.
    Failed(ProtocolError),
    /// The zlib stream did not decompress to its declared size (an I/O
    /// error from the decompressor).
    InflateFailed,
}

/// What `decode_packet` makes of the frame body `raw`.
pub open spec fn unframe(raw: Seq<u8>, compression_threshold: Option<i32>) -> Unframed {
    let payload: Option<Result<Seq<u8>, ProtocolError>> = match compression_threshold {
        None => Some(Ok(raw)),
        Some(_) => {
            let (data_len, n) = varint_decode(raw, 0);
            match data_len {
                Err(e) => Some(Err(e)),
                Ok(v) => {
                    let d = v as usize;
                    let rest = raw.skip(n as int);
                    if d == 0 {
                        Some(Ok(rest))
                    } else if d > MAX_FRAME_LEN {
                        Some(Err(ProtocolError::PacketTooLarge(d)))
                    } else {
                        match zlib_inflated_prefix(rest, d as nat) {
                            Some(p) => Some(Ok(p)),
                            None => None,
                        }
                    }
                },
            }
        },
    };
    match payload {
        None => Unframed::InflateFailed,
        Some(Err(e)) => Unframed::Failed(e),
        Some(Ok(p)) => {
            let (id, m) = varint_decode(p, 0);
            match id {
                Err(e) => Unframed::Failed(e),
                Ok(pid) => Unframed::Packet(pid, p.skip(m as int)),
            }
        },
    }
}

/// What reading one frame off the front of `stream` gives, when the
/// stream holds the whole frame: the length prefix, its check, then the
/// body taken apart.
pub open spec fn read_frame(stream: Seq<u8>, compression_threshold: Option<i32>) -> Option<Unframed> {
    let (len_field, n) = varint_decode(stream, 0);
    match len_field {
        Err(e) => Some(Unframed::Failed(e)),
        Ok(l) => match frame_len_check(l) {
            Err(e) => Some(Unframed::Failed(e)),
            Ok(len) => if n + len <= stream.len() {
                Some(unframe(stream.subrange(n as int, n + len), compression_threshold))
            } else {
                None
            },
        },
    }
}

/// The length check `read_packet` makes on a frame's length prefix:
/// 0 and anything above `MAX_FRAME_LEN` (a negative prefix included)
/// is refused.
pub fn check_frame_len(packet_len: i32) -> (r: Result<usize, ProtocolError>)
    ensures
        r == frame_len_check(packet_len),
{
    let n = packet_len as usize;
    if n == 0 || n > MAX_FRAME_LEN {
        return Err(ProtocolError::PacketTooLarge(n));
    }
    Ok(n)
}

/// Takes apart a frame body (everything after the length prefix):
/// decompresses it when compression is on and the declared size is not
/// 0, then splits off the packet id.
pub fn decode_packet(raw: Vec<u8>, compression_threshold: Option<i32>) -> (r: Result<
    (i32, Vec<u8>),
    ProtocolError,
>)
    ensures
        match unframe(raw@, compression_threshold) {
            Unframed::Packet(id, data) => r matches Ok((i, d)) && i == id && d@ == data,
            Unframed::Failed(e) => r == Err::<(i32, Vec<u8>), ProtocolError>(e),
            Unframed::InflateFailed => r matches Err(ProtocolError::Io(_)),
        },
{
    let payload: Vec<u8> = match compression_threshold {
        None => raw,
        Some(_) => {
            let mut pos: usize = 0;
            proof {
                lemma_decode_shift(raw@, 0);
                assert(raw@.subrange(0, raw@.len() as int) =~= raw@);
            }
            let data_len = read_varint(raw.as_slice(), &mut pos)? as usize;
            let rest = copy_from(&raw, pos);
            if data_len == 0 {
                rest
            } else {
                if data_len > MAX_FRAME_LEN {
                    return Err(ProtocolError::PacketTooLarge(data_len));
                }
                match zlib_decompress(rest.as_slice(), data_len) {
                    Ok(out) => out,
                    Err(e) => return Err(ProtocolError::Io(e)),
                }
            }
        },
    };
    let mut pos: usize = 0;
    proof {
        lemma_decode_shift(payload@, 0);
    }
    let packet_id = read_varint(payload.as_slice(), &mut pos)?;
    let data = copy_from(&payload, pos);
    Ok((packet_id, data))
}

/// `v[start..]` as a new vector.
fn copy_from(v: &Vec<u8>, start: usize) -> (r: Vec<u8>)
    requires
        start <= v@.len(),
    ensures
        r@ == v@.skip(start as int),
{
    let mut r: Vec<u8> = Vec::new();
    let mut i: usize = start;
    while i < v.len()
        invariant
            start <= i <= v@.len(),
            r@ == v@.subrange(start as int, i as int),
        decreases v@.len() - i,
    {
        r.push(v[i]);
        i = i + 1;
        assert(r@ =~= v@.subrange(start as int, i as int));
    }
    assert(r@ =~= v@.skip(start as int));
    r
}

/// Builds the whole frame for one packet (see `frame_bytes`). It always
/// succeeds: compressing a buffer in memory does not fail.
pub fn encode_packet(packet_id: i32, body: &[u8], compression_threshold: Option<i32>) -> (r: Result<
    Vec<u8>,
    ProtocolError,
>)
    ensures
        r is Ok,
        r matches Ok(f) ==> f@ == frame_bytes(packet_id, body@, compression_threshold),
        // What reading the frame back gives: the same packet, whenever
        // the frame body (after its length prefix) and the uncompressed
        // body are within the size limit.
        r matches Ok(f) ==> (uncompressed_body(packet_id, body@).len() <= MAX_FRAME_LEN
            && frame_body(packet_id, body@, compression_threshold).len() <= MAX_FRAME_LEN
            ==> read_frame(f@, compression_threshold) == Some(
            Unframed::Packet(packet_id, body@),
        )),
{
    let mut uncompressed: Vec<u8> = Vec::new();
    write_varint(&mut uncompressed, packet_id);
    uncompressed.extend_from_slice(body);
    let ghost u = uncompressed@;
    assert(u =~= uncompressed_body(packet_id, body@));
    proof {
        lemma_id_prefix(packet_id, body@);
    }
    let frame = match compression_threshold {
        None => {
            let mut frame: Vec<u8> = Vec::new();
            write_varint(&mut frame, uncompressed.len() as i32);
            frame.extend_from_slice(uncompressed.as_slice());
            assert(frame@ =~= varint_bytes(u.len() as i32) + u);
            proof {
                lemma_frame_prefix(u.len() as i32, u, frame@);
            }
            frame
        },
        Some(threshold) => {
            let mut data: Vec<u8> = Vec::new();
            let min: usize = if threshold > 0 {
                threshold as usize
            } else {
                0
            };
            if uncompressed.len() >= min {
                write_varint(&mut data, uncompressed.len() as i32);
                let compressed = match zlib_compress(uncompressed.as_slice()) {
                    Ok(c) => c,
                    Err(e) => return Err(ProtocolError::Io(e)),
                };
                data.extend_from_slice(compressed.as_slice());
                assert(data@ =~= varint_bytes(u.len() as i32) + zlib_compressed(u));
                proof {
                    if u.len() <= MAX_FRAME_LEN {
                        let c = zlib_compressed(u);
                        assert(data@.subrange(0, varint_bytes(u.len() as i32).len() as int)
                            =~= varint_bytes(u.len() as i32));
                        lemma_varint_round_trip(u.len() as i32, data@, 0);
                        assert(data@.skip(varint_bytes(u.len() as i32).len() as int) =~= c);
                    }
                }
            } else {
                write_varint(&mut data, 0);
                data.extend_from_slice(uncompressed.as_slice());
                assert(data@ =~= varint_bytes(0) + u);
                proof {
                    assert(data@.subrange(0, varint_bytes(0).len() as int) =~= varint_bytes(0));
                    lemma_varint_round_trip(0, data@, 0);
                    assert(data@.skip(varint_bytes(0).len() as int) =~= u);
                }
            }
            let mut frame: Vec<u8> = Vec::new();
            write_varint(&mut frame, data.len() as i32);
            frame.extend_from_slice(data.as_slice());
            assert(frame@ =~= varint_bytes(data@.len() as i32) + data@);
            proof {
                lemma_frame_prefix(data@.len() as i32, data@, frame@);
            }
            frame
        },
    };
    Ok(frame)
}

/// The packet id at the front of `[PacketID][Data]` reads back, leaving
/// the data.
proof fn lemma_id_prefix(packet_id: i32, body: Seq<u8>)
    ensures
        varint_decode(uncompressed_body(packet_id, body), 0) == (Ok::<i32, ProtocolError>(packet_id), varint_bytes(packet_id).len()),
        uncompressed_body(packet_id, body).skip(varint_bytes(packet_id).len() as int) == body,
        uncompressed_body(packet_id, body).len() >= 1,
{
    let u = uncompressed_body(packet_id, body);
    let p = varint_bytes(packet_id);
    assert(u.subrange(0, p.len() as int) =~= p);
    lemma_varint_round_trip(packet_id, u, 0);
    assert(u.skip(p.len() as int) =~= body);
}

/// A length prefix in front of `data` reads back, and when it is within
/// the frame limit the frame body it delimits is exactly `data`.
proof fn lemma_frame_prefix(len: i32, data: Seq<u8>, frame: Seq<u8>)
    requires
        len == data.len() as i32,
        frame == varint_bytes(len) + data,
    ensures
        data.len() <= MAX_FRAME_LEN && data.len() > 0 ==> ({
            let n = varint_bytes(len).len();
            &&& varint_decode(frame, 0) == (Ok::<i32, ProtocolError>(len), n)
            &&& frame_len_check(len) == Ok::<usize, ProtocolError>(data.len() as usize)
            &&& frame.subrange(n as int, (n + data.len()) as int) == data
        }),
{
    if data.len() <= MAX_FRAME_LEN && data.len() > 0 {
        let p = varint_bytes(len);
        assert(frame.subrange(0, p.len() as int) =~= p);
        lemma_varint_round_trip(len, frame, 0);
        assert(frame.subrange(p.len() as int, (p.len() + data.len()) as int) =~= data);
    }
}

} // verus!
