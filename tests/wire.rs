use meexprox::protocol::{
    build_encryption_response, build_handshake, build_login_start, parse_encryption_response,
    parse_handshake, parse_login_start, parse_set_compression, ClientAddr,
};
use meexprox::wire::{
    decode_threshold, read_string, read_u16_varint, read_unsigned_short, read_usize_varint,
    read_uuid, read_varint, write_prefixed_bytes, write_string, write_unsigned_short, write_uuid,
    write_varint, Packet, ProtocolError,
};
use meexprox::error::ProxyError;

#[test]
fn varint_encoding_matches_protocol() {
    let mut out = Vec::new();
    write_varint(&mut out, 300);
    assert_eq!(out, vec![0xAC, 0x02]);
    let mut out = Vec::new();
    write_varint(&mut out, 0);
    assert_eq!(out, vec![0x00]);
    let mut out = Vec::new();
    write_varint(&mut out, 0xFFFF_FFFF);
    assert_eq!(out, vec![0xFF, 0xFF, 0xFF, 0xFF, 0x0F]);
}

#[test]
fn varint_reads_back() {
    for v in [0u32, 1, 127, 128, 255, 25565, 2_097_151, 0x7FFF_FFFF, 0xFFFF_FFFF] {
        let mut out = vec![9u8];
        write_varint(&mut out, v);
        out.push(42);
        let (r, p) = read_varint(&out, 1).unwrap();
        assert_eq!(r, v);
        assert_eq!(out[p], 42);
    }
}

#[test]
fn varint_errors() {
    assert_eq!(read_varint(&vec![], 0), Err(ProtocolError::EndOfStream));
    assert_eq!(read_varint(&vec![0x80, 0x80], 0), Err(ProtocolError::EndOfStream));
    assert_eq!(
        read_varint(&vec![0x80, 0x80, 0x80, 0x80, 0x80, 0x01], 0),
        Err(ProtocolError::InvalidVarInt)
    );
    let mut out = Vec::new();
    write_varint(&mut out, 70000);
    assert_eq!(read_u16_varint(&out, 0), Err(ProtocolError::InvalidVarInt));
    let mut out = Vec::new();
    write_varint(&mut out, 0x8000_0000);
    assert_eq!(read_usize_varint(&out, 0), Err(ProtocolError::InvalidVarInt));
}

#[test]
fn string_round_trip() {
    let mut out = Vec::new();
    write_string(&mut out, "héllo").unwrap();
    assert_eq!(out[0], 6);
    let (s, p) = read_string(&out, 0).unwrap();
    assert_eq!(s, "héllo");
    assert_eq!(p, out.len());
}

#[test]
fn string_errors() {
    assert_eq!(read_string(&vec![3, b'a'], 0), Err(ProtocolError::EndOfStream));
    assert_eq!(read_string(&vec![2, 0xC3, 0x28], 0), Err(ProtocolError::InvalidUtf8));
}

#[test]
fn short_and_uuid_round_trip() {
    let mut out = Vec::new();
    write_unsigned_short(&mut out, 25565);
    assert_eq!(out, vec![0x63, 0xDD]);
    assert_eq!(read_unsigned_short(&out, 0), Ok((25565, 2)));
    let uuid: u128 = 0x0123_4567_89AB_CDEF_0011_2233_4455_6677;
    let mut out = Vec::new();
    write_uuid(&mut out, uuid);
    assert_eq!(out[0], 0x01);
    assert_eq!(out[15], 0x77);
    assert_eq!(read_uuid(&out, 0), Ok((uuid, 16)));
    assert_eq!(read_uuid(&vec![1, 2, 3], 0), Err(ProtocolError::EndOfStream));
}

#[test]
fn zigzag_threshold() {
    assert_eq!(decode_threshold(512), Some(256));
    assert_eq!(decode_threshold(0), Some(0));
    assert_eq!(decode_threshold(1), None);
    assert_eq!(decode_threshold(3), None);
}

#[test]
fn zero_threshold_compresses_everything() {
    let mut data = Vec::new();
    write_varint(&mut data, 0);
    let p = Packet::new(3, data);
    assert_eq!(parse_set_compression(&p), Ok(Some(0)));
}

#[test]
fn handshake_round_trip() {
    let p = build_handshake(764, "x", 25565, 1, None).unwrap();
    assert_eq!(p.id, 0);
    let h = parse_handshake(&p).unwrap();
    assert_eq!(h.protocol_version, 764);
    assert_eq!(h.server_address, "x");
    assert_eq!(h.server_port, 25565);
    assert_eq!(h.next_state, 1);
}

#[test]
fn handshake_forwarding_appends_address() {
    let addr = ClientAddr { port: 5000, ip: vec![10, 0, 0, 1] };
    let p = build_handshake(764, "x", 25565, 2, Some(&addr)).unwrap();
    let plain = build_handshake(764, "x", 25565, 2, None).unwrap();
    let mut tail = vec![0u8];
    write_unsigned_short(&mut tail, 5000);
    tail.extend_from_slice(&[10, 0, 0, 1]);
    assert_eq!(p.data[..plain.data.len()], plain.data[..]);
    assert_eq!(p.data[plain.data.len()..], tail[..]);
    let v6 = ClientAddr { port: 1, ip: vec![0; 16] };
    let p6 = build_handshake(764, "x", 25565, 2, Some(&v6)).unwrap();
    assert_eq!(p6.data[plain.data.len()], 1);
    assert_eq!(p6.data.len(), plain.data.len() + 19);
}

#[test]
fn handshake_wrong_id() {
    let p = Packet::new(1, vec![]);
    assert!(matches!(parse_handshake(&p), Err(ProxyError::HandshakePacket)));
    let p = Packet::new(0, vec![]);
    assert!(matches!(parse_handshake(&p), Err(ProxyError::ConnectionClosed)));
}

#[test]
fn login_start_round_trip() {
    let p = build_login_start("Steve", 77).unwrap();
    assert_eq!(parse_login_start(&p), Ok(("Steve".to_string(), 77)));
    let q = Packet::new(1, p.data.clone());
    assert_eq!(parse_login_start(&q), Err(ProxyError::LoginPacket));
}

#[test]
fn encryption_response_round_trip() {
    let p = build_encryption_response(&vec![1, 2, 3], &vec![9, 8]).unwrap();
    assert_eq!(p.data, vec![3, 1, 2, 3, 2, 9, 8]);
    assert_eq!(parse_encryption_response(&p), Ok((vec![1, 2, 3], vec![9, 8])));
    let mut d = Vec::new();
    write_prefixed_bytes(&mut d, &[5, 5]).unwrap();
    assert_eq!(
        parse_encryption_response(&Packet::new(1, d)),
        Err(ProtocolError::EndOfStream)
    );
}

#[test]
fn codec_frame_round_trip() {
    for threshold in [None, Some(0usize), Some(256)] {
        for len in [0usize, 10, 1000] {
            let data: Vec<u8> = (0..len).map(|i| (i % 251) as u8).collect();
            let packet = rust_mc_proto::Packet::from_bytes(0x22, &data);
            let mut wire = Vec::new();
            rust_mc_proto::write_packet(&mut wire, threshold, 1, &packet).unwrap();
            let mut cursor = std::io::Cursor::new(wire);
            let back = rust_mc_proto::read_packet(&mut cursor, threshold).unwrap();
            assert_eq!(back.id(), 0x22);
            assert_eq!(back.get_bytes(), &data[..]);
        }
    }
}

#[test]
fn compression_negotiation_frames_with_zlib() {
    let p = Packet::new(3, vec![0x80, 0x04]);
    let threshold = parse_set_compression(&p).unwrap();
    assert_eq!(threshold, Some(256));
    let data: Vec<u8> = (0..999).map(|i| (i % 7) as u8).collect();
    let packet = rust_mc_proto::Packet::from_bytes(0x10, &data);
    let mut wire = Vec::new();
    rust_mc_proto::write_packet(&mut wire, threshold, 1, &packet).unwrap();
    let (total, p1) = read_varint(&wire, 0).unwrap();
    let (data_len, _) = read_varint(&wire, p1).unwrap();
    assert_eq!(total as usize, wire.len() - p1);
    assert_eq!(data_len, 1000);
    let mut cursor = std::io::Cursor::new(wire);
    let back = rust_mc_proto::read_packet(&mut cursor, threshold).unwrap();
    assert_eq!(back.get_bytes(), &data[..]);
    let small = rust_mc_proto::Packet::from_bytes(0x10, &[1, 2, 3]);
    let mut wire = Vec::new();
    rust_mc_proto::write_packet(&mut wire, threshold, 1, &small).unwrap();
    assert_eq!(wire, vec![5, 0, 0x10, 1, 2, 3]);
}

#[test]
fn disconnect_packet() {
    let p = meexprox::protocol::build_disconnect("bye").unwrap();
    assert_eq!(p.id, 0x1D);
    assert_eq!(p.data, vec![3, b'b', b'y', b'e']);
}
