use cobble::block::BlockId;
use cobble::chunk_data::{parse_bulk, parse_column_sections, BulkColumnMeta, BIOME_BYTES, BLOCKS_BYTES, LIGHT_BYTES};
use cobble::connection::{opening_packets, Connection, GameEvent, LoginStep, PROTOCOL_VERSION};
use cobble::error::ProtocolError;
use cobble::frame::{check_frame_len, decode_packet, encode_packet, MAX_FRAME_LEN};
use cobble::io::{PacketReader, PacketWriter};
use cobble::packets::handshake::write_handshake;
use cobble::packets::login::{parse_login_success, write_login_start, LOGIN_SET_COMPRESSION, LOGIN_SUCCESS};
use cobble::packets::play::clientbound::{parse_multi_block_change, KEEP_ALIVE, MAP_CHUNK_BULK, PLAYER_POSITION_AND_LOOK};
use cobble::packets::play::serverbound;
use cobble::varint::{read_varint, read_varlong, varint_size, write_varint, write_varlong, VarIntStep, VarIntStream};

fn encode_section(block_at: impl Fn(usize, usize, usize) -> (u16, u8), has_sky_light: bool) -> Vec<u8> {
    let mut out = Vec::with_capacity(BLOCKS_BYTES + LIGHT_BYTES * 2);
    for y in 0..16usize {
        for z in 0..16usize {
            for x in 0..16usize {
                let (id, meta) = block_at(x, y, z);
                let raw = (id << 4) | (meta as u16 & 0xF);
                out.extend_from_slice(&raw.to_le_bytes());
            }
        }
    }
    out.extend(std::iter::repeat_n(0u8, LIGHT_BYTES));
    if has_sky_light {
        out.extend(std::iter::repeat_n(0u8, LIGHT_BYTES));
    }
    out
}

#[test]
fn parses_single_section_with_known_blocks() {
    let section_bytes = encode_section(
        |x, y, z| {
            if y == 0 {
                (1, 0)
            } else if x == 5 && y == 5 && z == 5 {
                (2, 3)
            } else {
                (0, 0)
            }
        },
        true,
    );

    let (column, consumed) = parse_column_sections(3, -2, 0b1, true, false, &section_bytes).unwrap();

    assert_eq!(consumed, section_bytes.len());
    assert_eq!(column.chunk_x, 3);
    assert_eq!(column.chunk_z, -2);

    for x in 0..16 {
        for z in 0..16 {
            assert_eq!(column.get_block(x, 0, z), BlockId(1));
        }
    }
    assert_eq!(column.get_block(5, 5, 5), BlockId(2));
    assert_eq!(column.get_block(5, 6, 5), BlockId(0));
    assert_eq!(column.get_block(0, 20, 0), BlockId(0));
}

#[test]
fn skips_absent_sections_via_bitmask() {
    let section_bytes = encode_section(|_, _, _| (7, 0), false);
    let (column, consumed) = parse_column_sections(0, 0, 0b100, false, false, &section_bytes).unwrap();

    assert_eq!(consumed, section_bytes.len());
    assert_eq!(column.get_block(0, 0, 0), BlockId(0));
    assert_eq!(column.get_block(0, 32, 0), BlockId(7));
}

#[test]
fn ground_up_continuous_consumes_biome_array() {
    let mut data = encode_section(|_, _, _| (1, 0), true);
    data.extend(std::iter::repeat_n(0u8, BIOME_BYTES));

    let (_column, consumed) = parse_column_sections(0, 0, 0b1, true, true, &data).unwrap();
    assert_eq!(consumed, data.len());
}

#[test]
fn truncated_buffer_is_an_error() {
    let mut section_bytes = encode_section(|_, _, _| (1, 0), true);
    section_bytes.truncate(section_bytes.len() - 1);
    assert!(parse_column_sections(0, 0, 0b1, true, false, &section_bytes).is_err());
}

#[test]
fn section_light_nibbles_are_decoded_low_nibble_first() {
    let mut data = encode_section(|_, _, _| (1, 0), true);
    // Block light of blocks 0 and 1 share the first light byte.
    data[BLOCKS_BYTES] = 0xA3;
    // Sky light of block 0.
    data[BLOCKS_BYTES + LIGHT_BYTES] = 0x0F;
    let (column, _) = parse_column_sections(0, 0, 0b1, true, false, &data).unwrap();
    assert_eq!(column.get_light(0, 0, 0), (3, 15));
    assert_eq!(column.get_light(1, 0, 0), (10, 0));
}

#[test]
fn bulk_columns_are_read_back_to_back() {
    let mut data = encode_section(|_, _, _| (1, 0), true);
    data.extend(std::iter::repeat_n(0u8, BIOME_BYTES));
    data.extend(encode_section(|_, _, _| (3, 0), true));
    data.extend(std::iter::repeat_n(0u8, BIOME_BYTES));
    let metas = [
        BulkColumnMeta { chunk_x: 0, chunk_z: 0, bitmask: 1 },
        BulkColumnMeta { chunk_x: 1, chunk_z: 0, bitmask: 1 },
    ];
    let columns = parse_bulk(&metas, true, &data).unwrap();
    assert_eq!(columns.len(), 2);
    assert_eq!(columns[0].get_block(0, 0, 0), BlockId(1));
    assert_eq!(columns[1].get_block(0, 0, 0), BlockId(3));
    assert_eq!(columns[1].chunk_x, 1);
    assert!(parse_bulk(&metas, true, &data[..data.len() - 1]).is_err());
}

#[test]
fn varint_round_trips_known_values() {
    let cases: &[(i32, &[u8])] = &[
        (0, &[0x00]),
        (1, &[0x01]),
        (2, &[0x02]),
        (127, &[0x7f]),
        (128, &[0x80, 0x01]),
        (255, &[0xff, 0x01]),
        (25565, &[0xdd, 0xc7, 0x01]),
        (2147483647, &[0xff, 0xff, 0xff, 0xff, 0x07]),
        (-1, &[0xff, 0xff, 0xff, 0xff, 0x0f]),
        (-2147483648, &[0x80, 0x80, 0x80, 0x80, 0x08]),
    ];

    for (value, encoded) in cases {
        let mut buf = Vec::new();
        write_varint(&mut buf, *value);
        assert_eq!(&buf[..], *encoded, "encoding {value}");

        let mut pos = 0usize;
        assert_eq!(read_varint(&buf, &mut pos).unwrap(), *value, "decoding {value}");
        assert_eq!(pos, buf.len());
        assert_eq!(varint_size(*value), buf.len());
    }
}

#[test]
fn varint_roundtrip_fuzz() {
    for value in [i32::MIN, i32::MAX, 0, -1, 1, 42, -42, 300_000, -300_000] {
        let mut buf = Vec::new();
        write_varint(&mut buf, value);
        let mut pos = 0usize;
        assert_eq!(read_varint(&buf, &mut pos).unwrap(), value);
    }
}

#[test]
fn varlong_round_trips_extremes() {
    for value in [i64::MIN, i64::MAX, 0, -1, 1, 1 << 40] {
        let mut buf = Vec::new();
        write_varlong(&mut buf, value);
        let mut pos = 0usize;
        assert_eq!(read_varlong(&buf, &mut pos).unwrap(), value);
        assert_eq!(pos, buf.len());
    }
    let mut minus_one = Vec::new();
    write_varlong(&mut minus_one, -1);
    assert_eq!(minus_one.len(), 10);
}

#[test]
fn varint_longer_than_five_bytes_is_refused() {
    let buf = [0x80u8, 0x80, 0x80, 0x80, 0x80, 0x01];
    let mut pos = 0usize;
    assert!(matches!(read_varint(&buf, &mut pos), Err(ProtocolError::VarIntTooLarge)));
    let truncated = [0x80u8, 0x80];
    let mut pos = 0usize;
    assert!(matches!(read_varint(&truncated, &mut pos), Err(ProtocolError::UnexpectedEof)));
}

#[test]
fn varint_stream_completes_on_the_last_byte() {
    let mut stream = VarIntStream::new();
    assert!(matches!(stream.push(0xdd), VarIntStep::More));
    assert!(matches!(stream.push(0xc7), VarIntStep::More));
    assert!(matches!(stream.push(0x01), VarIntStep::Done(25565)));
    let mut long = VarIntStream::new();
    for _ in 0..4 {
        assert!(matches!(long.push(0xff), VarIntStep::More));
    }
    assert!(matches!(long.push(0xff), VarIntStep::TooLarge));
}

#[test]
fn position_round_trips_including_negatives_and_extremes() {
    let cases = [
        (0, 0, 0),
        (1, 2, 3),
        (-1, -1, -1),
        (18999, 255, -19000),
        (33554431, 2047, -33554432),
        (-33554432, -2048, 33554431),
    ];
    for (x, y, z) in cases {
        let mut w = PacketWriter::new();
        w.write_position(x, y, z);
        let mut r = PacketReader::new(w.into_bytes());
        assert_eq!(r.read_position().unwrap(), (x, y, z), "position ({x},{y},{z})");
    }
}

#[test]
fn string_round_trips() {
    let mut w = PacketWriter::new();
    w.write_string("Cobble łąka 😀");
    let mut r = PacketReader::new(w.into_bytes());
    assert_eq!(r.read_string().unwrap(), "Cobble łąka 😀");
}

#[test]
fn fixed_width_fields_are_big_endian() {
    let mut w = PacketWriter::new();
    w.write_i16(-2).write_i32(0x01020304).write_i64(-1).write_bool(true).write_u8(9);
    let bytes = w.into_bytes();
    assert_eq!(&bytes[..6], &[0xff, 0xfe, 0x01, 0x02, 0x03, 0x04]);
    let mut r = PacketReader::new(bytes);
    assert_eq!(r.read_i16().unwrap(), -2);
    assert_eq!(r.read_i32().unwrap(), 0x01020304);
    assert_eq!(r.read_i64().unwrap(), -1);
    assert!(r.read_bool().unwrap());
    assert_eq!(r.read_u8().unwrap(), 9);
    assert_eq!(r.remaining(), 0);
    assert!(matches!(r.read_u8(), Err(ProtocolError::UnexpectedEof)));
}

#[test]
fn invalid_utf8_string_is_refused() {
    let mut r = PacketReader::new(vec![2, 0xff, 0xfe]);
    assert!(matches!(r.read_string(), Err(ProtocolError::InvalidString)));
}

fn round_trip(packet_id: i32, body: &[u8], threshold: Option<i32>) -> (i32, Vec<u8>) {
    let frame = encode_packet(packet_id, body, threshold).unwrap();
    let mut pos = 0usize;
    let len = check_frame_len(read_varint(&frame, &mut pos).unwrap()).unwrap();
    assert_eq!(pos + len, frame.len());
    decode_packet(frame[pos..pos + len].to_vec(), threshold).unwrap()
}

#[test]
fn uncompressed_round_trip() {
    let (id, body) = round_trip(0x21, b"hello chunk", None);
    assert_eq!(id, 0x21);
    assert_eq!(&body[..], b"hello chunk");
}

#[test]
fn compressed_round_trip_above_threshold() {
    let payload = vec![0x42u8; 500];
    let (id, body) = round_trip(0x21, &payload, Some(64));
    assert_eq!(id, 0x21);
    assert_eq!(&body[..], &payload[..]);
    let frame = encode_packet(0x21, &payload, Some(64)).unwrap();
    assert!(frame.len() < payload.len());
}

#[test]
fn compressed_round_trip_below_threshold_stays_uncompressed_on_wire() {
    let payload = b"tiny";
    let (id, body) = round_trip(0x00, payload, Some(256));
    assert_eq!(id, 0x00);
    assert_eq!(&body[..], payload);
    let frame = encode_packet(0x00, payload, Some(256)).unwrap();
    assert_eq!(frame, vec![6, 0, 0x00, b't', b'i', b'n', b'y']);
}

#[test]
fn frame_lengths_out_of_range_are_refused() {
    assert!(matches!(check_frame_len(0), Err(ProtocolError::PacketTooLarge(0))));
    assert!(check_frame_len(MAX_FRAME_LEN as i32 + 1).is_err());
    assert_eq!(check_frame_len(5).unwrap(), 5);
}

#[test]
fn handshake_and_login_start_bytes() {
    let handshake = write_handshake(47, "localhost", 25565, 2);
    assert_eq!(handshake[0], 47);
    assert_eq!(handshake[1], 9);
    assert_eq!(&handshake[2..11], b"localhost");
    assert_eq!(&handshake[11..], &[0x63, 0xdd, 2]);
    assert_eq!(write_login_start("Steve"), vec![5, b'S', b't', b'e', b'v', b'e']);
    let packets = opening_packets("localhost", 25565, "Steve");
    assert_eq!(packets.len(), 2);
    assert_eq!(packets[0].1, handshake);
    assert_eq!(PROTOCOL_VERSION, 47);
}

#[test]
fn login_success_fields_are_read() {
    let mut w = PacketWriter::new();
    w.write_string("0000-1111").write_string("Steve");
    let success = parse_login_success(PacketReader::new(w.into_bytes())).unwrap();
    assert_eq!(success.uuid, "0000-1111");
    assert_eq!(success.username, "Steve");
}

#[test]
fn set_compression_then_login_success() {
    let mut conn = Connection::new();
    assert_eq!(conn.compression_threshold(), None);
    let mut w = PacketWriter::new();
    w.write_varint(256);
    assert!(matches!(conn.handle_login_packet(LOGIN_SET_COMPRESSION, w.into_bytes()), Ok(LoginStep::Continue)));
    assert_eq!(conn.compression_threshold(), Some(256));
    let mut w = PacketWriter::new();
    w.write_varint(-1);
    conn.handle_login_packet(LOGIN_SET_COMPRESSION, w.into_bytes()).unwrap();
    assert_eq!(conn.compression_threshold(), None);
    let mut w = PacketWriter::new();
    w.write_string("id").write_string("Alex");
    match conn.handle_login_packet(LOGIN_SUCCESS, w.into_bytes()) {
        Ok(LoginStep::Success(s)) => assert_eq!(s.username, "Alex"),
        _ => panic!("expected login success"),
    }
}

#[test]
fn login_disconnect_carries_the_reason() {
    let mut conn = Connection::new();
    let mut w = PacketWriter::new();
    w.write_string("banned");
    match conn.handle_login_packet(0x00, w.into_bytes()) {
        Err(ProtocolError::Disconnected(reason)) => assert_eq!(reason, "banned"),
        _ => panic!("expected a disconnect"),
    }
}

#[test]
fn keep_alive_is_answered_with_the_same_id() {
    let mut conn = Connection::new();
    let mut w = PacketWriter::new();
    w.write_varint(12345);
    let step = conn.handle_play_packet(KEEP_ALIVE, w.into_bytes()).unwrap();
    assert!(step.event.is_none());
    let (id, body) = step.reply.unwrap();
    assert_eq!(id, serverbound::KEEP_ALIVE);
    let mut expected = Vec::new();
    write_varint(&mut expected, 12345);
    assert_eq!(body, expected);
}

#[test]
fn teleport_is_confirmed_on_the_ground() {
    let mut conn = Connection::new();
    let mut w = PacketWriter::new();
    w.write_i64(1).write_i64(2).write_i64(3).write_i32(4).write_i32(5);
    w.write_u8(0);
    let step = conn.handle_play_packet(PLAYER_POSITION_AND_LOOK, w.into_bytes()).unwrap();
    let (id, body) = step.reply.unwrap();
    assert_eq!(id, serverbound::PLAYER_POSITION_AND_LOOK);
    assert_eq!(body.len(), 33);
    assert_eq!(body[32], 1);
    assert!(matches!(step.event, Some(GameEvent::PlayerPositionAndLook { x_bits: 1, y_bits: 2, z_bits: 3, yaw_bits: 4, pitch_bits: 5 })));
}

#[test]
fn bulk_chunk_data_queues_the_columns_after_the_first() {
    let mut body = PacketWriter::new();
    body.write_bool(true).write_varint(2);
    body.write_i32(4).write_i32(5).write_bytes(&1u16.to_be_bytes());
    body.write_i32(6).write_i32(7).write_bytes(&1u16.to_be_bytes());
    let mut data = encode_section(|_, _, _| (1, 0), true);
    data.extend(std::iter::repeat_n(0u8, BIOME_BYTES));
    data.extend(encode_section(|_, _, _| (2, 0), true));
    data.extend(std::iter::repeat_n(0u8, BIOME_BYTES));
    body.write_bytes(&data);
    let mut conn = Connection::new();
    let step = conn.handle_play_packet(MAP_CHUNK_BULK, body.into_bytes()).unwrap();
    match step.event {
        Some(GameEvent::ChunkColumnLoaded(c)) => assert_eq!((c.chunk_x, c.chunk_z), (4, 5)),
        _ => panic!("expected the first column"),
    }
    match conn.next_pending() {
        Some(GameEvent::ChunkColumnLoaded(c)) => {
            assert_eq!((c.chunk_x, c.chunk_z), (6, 7));
            assert_eq!(c.get_block(0, 0, 0), BlockId(2));
        },
        _ => panic!("expected the second column queued"),
    }
    assert!(conn.next_pending().is_none());
}

#[test]
fn unmodeled_play_packets_produce_nothing() {
    let mut conn = Connection::new();
    let step = conn.handle_play_packet(0x7f, vec![1, 2, 3]).unwrap();
    assert!(step.reply.is_none() && step.event.is_none());
}

#[test]
fn multi_block_change_records_unpack_nibbles() {
    let mut w = PacketWriter::new();
    w.write_i32(2).write_i32(-3).write_varint(1).write_u8(0x5a).write_u8(64).write_varint(16);
    let change = parse_multi_block_change(PacketReader::new(w.into_bytes())).unwrap();
    assert_eq!((change.chunk_x, change.chunk_z), (2, -3));
    assert_eq!(change.records.len(), 1);
    assert_eq!((change.records[0].local_x, change.records[0].y, change.records[0].local_z), (5, 64, 10));
    assert_eq!(change.records[0].raw_state, 16);
}

#[test]
fn bulk_columns_match_single_column_parses() {
    let mut data = encode_section(|x, y, z| ((x + y + z) as u16 % 5, 7), true);
    data.extend(std::iter::repeat_n(1u8, BIOME_BYTES));
    data.extend(encode_section(|x, _, z| ((x * z) as u16 % 9, 2), true));
    data.extend(encode_section(|_, y, _| (y as u16, 4), true));
    data.extend(std::iter::repeat_n(2u8, BIOME_BYTES));
    let metas = [
        BulkColumnMeta { chunk_x: -3, chunk_z: 4, bitmask: 0b1 },
        BulkColumnMeta { chunk_x: 5, chunk_z: -6, bitmask: 0b1010 },
    ];
    let bulk = parse_bulk(&metas, true, &data).unwrap();
    let (first, used) = parse_column_sections(-3, 4, 0b1, true, true, &data).unwrap();
    let (second, used2) = parse_column_sections(5, -6, 0b1010, true, true, &data[used..]).unwrap();
    assert_eq!(used + used2, data.len());
    for (a, b) in [(&bulk[0], &first), (&bulk[1], &second)] {
        assert_eq!((a.chunk_x, a.chunk_z), (b.chunk_x, b.chunk_z));
        for y in 0..64 {
            for z in 0..16 {
                for x in 0..16 {
                    assert_eq!(a.get_block(x, y, z), b.get_block(x, y, z));
                    assert_eq!(a.get_light(x, y, z), b.get_light(x, y, z));
                }
            }
        }
    }
    // Short by one byte: the second column's own parse is the one that fails.
    let short = &data[..data.len() - 1];
    assert!(matches!(parse_bulk(&metas, true, short), Err(ProtocolError::UnexpectedEof)));
    assert!(matches!(
        parse_column_sections(5, -6, 0b1010, true, true, &short[used..]),
        Err(ProtocolError::UnexpectedEof)
    ));
}

#[test]
fn writer_bytes_are_the_calls_encodings_in_order() {
    assert!(PacketWriter::new().into_bytes().is_empty());
    let mut w = PacketWriter::new();
    w.write_varint(300).write_string("ab").write_bool(false).write_bytes(&[7, 8]).write_i16(1);
    let mut expected = Vec::new();
    write_varint(&mut expected, 300);
    write_varint(&mut expected, 2);
    expected.extend_from_slice(b"ab");
    expected.push(0);
    expected.extend_from_slice(&[7, 8]);
    expected.extend_from_slice(&[0, 1]);
    assert_eq!(w.into_bytes(), expected);
}

#[test]
fn a_compressed_frame_is_always_built() {
    let body = vec![0x11u8; 2048];
    let frame = encode_packet(0x26, &body, Some(0)).unwrap();
    assert!(frame.len() < body.len());
    assert_eq!(round_trip(0x26, &body, Some(0)), (0x26, body));
}
