use stratepig::codec::{
    decode_field, decode_fields, deserialize_packet_header, encode_field, encode_fields,
    serialize_packet, take_packet, Error, Field, FieldKind, NetworkBuffer,
};
use stratepig::packet::{
    ClientMessage, GamePlayerReadyDataFullPacket, GameRequestFullPacket, MovePacket, ServerMessage,
    UpdateReadyStatePacket, WinPacket,
};

#[test]
fn frame_layout() {
    let body = vec![7u8, 8, 9];
    let frame = serialize_packet(22, &body).unwrap();
    assert_eq!(frame, vec![3, 0, 22, 7, 8, 9]);
    let big = vec![0u8; 8193];
    assert!(serialize_packet(1, &big).is_err());
}

#[test]
fn header_limits() {
    assert!(deserialize_packet_header(&[1, 0]).is_err());
    let h = deserialize_packet_header(&[0, 32, 5]).unwrap();
    assert_eq!(h.size, 8192);
    assert_eq!(h.id, 5);
    assert!(matches!(deserialize_packet_header(&[1, 32, 5]), Err(Error::InvalidData(_))));
}

#[test]
fn take_packet_waits_for_whole_frame() {
    assert!(matches!(take_packet(&[2, 0]), Ok(None)));
    assert!(matches!(take_packet(&[2, 0, 8, 1]), Ok(None)));
    let (p, n) = take_packet(&[2, 0, 8, 1, 2, 99]).unwrap().unwrap();
    assert_eq!(n, 5);
    assert_eq!(p.header.id, 8);
    assert_eq!(p.body, vec![1, 2]);
    assert!(take_packet(&[0xff, 0xff, 8]).is_err());
}

#[test]
fn field_encodings() {
    let mut out = Vec::new();
    encode_field(&mut out, &Field::U32(0x01020304));
    encode_field(&mut out, &Field::I32(-1));
    encode_field(&mut out, &Field::Bool(true));
    encode_field(&mut out, &Field::Str("hé".to_string()));
    encode_field(&mut out, &Field::PairsU8(vec![(1, 2)]));
    assert_eq!(
        out,
        vec![4, 3, 2, 1, 255, 255, 255, 255, 1, 3, 0, 0, 0, b'h', 0xc3, 0xa9, 1, 0, 0, 0, 1, 2]
    );
}

#[test]
fn strings_are_decoded_from_utf8() {
    let bytes = [2u8, 0, 0, 0, b'o', b'k'];
    match decode_field(FieldKind::Str, &bytes, 0) {
        Some((Field::Str(s), end)) => {
            assert_eq!(s, "ok");
            assert_eq!(end, 6);
        }
        _ => panic!("string not decoded"),
    }
    assert!(decode_field(FieldKind::Str, &[2, 0, 0, 0, 0xff, 0xfe], 0).is_none());
    assert!(decode_field(FieldKind::Str, &[0, 0, 0, 0], 0).is_none());
    assert!(decode_field(FieldKind::Str, &[0xff, 0xff, 0xff, 0xff], 0).is_none());
    assert!(decode_field(FieldKind::Str, &[9, 0, 0, 0, b'a'], 0).is_none());
    assert!(decode_field(FieldKind::Bool, &[2], 0).is_none());
    assert!(decode_field(FieldKind::U64, &[1, 2, 3], 0).is_none());
}

#[test]
fn field_sequence_round_trip() {
    let fields = vec![
        Field::U8(200),
        Field::U16(65535),
        Field::U64(u64::MAX),
        Field::U128(u128::MAX - 5),
        Field::I64(-42),
        Field::I128(i128::MIN),
        Field::Bytes(vec![1, 2, 3]),
        Field::PairsU32(vec![(1, 40), (7, 0)]),
        Field::PairsI32(vec![(-3, 4)]),
        Field::Str("pig".to_string()),
    ];
    let schema = vec![
        FieldKind::U8,
        FieldKind::U16,
        FieldKind::U64,
        FieldKind::U128,
        FieldKind::I64,
        FieldKind::I128,
        FieldKind::Bytes,
        FieldKind::PairsU32,
        FieldKind::PairsI32,
        FieldKind::Str,
    ];
    let mut bytes = encode_fields(&fields);
    bytes.extend_from_slice(&[9, 9, 9]);
    let decoded = decode_fields(&schema, &bytes).unwrap();
    assert_eq!(format!("{:?}", decoded), format!("{:?}", fields));
    assert!(decode_fields(&schema, &bytes[..bytes.len() - 6]).is_err());
}

#[test]
fn packet_round_trip() {
    let request = GameRequestFullPacket {
        my_id: "3".to_string(),
        is_hosting: true,
        username: "oink".to_string(),
        icon: 4,
        code: "ABCD".to_string(),
        data_null: false,
        game_mode: 4,
        placement_secs: 120,
        turn_secs: -7,
        buffer_secs: 900,
        pig_config: vec![(3, 1), (5, 2)],
    };
    let body = encode_fields(&request.fields());
    let frame = serialize_packet(GameRequestFullPacket::ID, &body).unwrap();
    let (packet, used) = take_packet(&frame).unwrap().unwrap();
    assert_eq!(used, frame.len());
    assert_eq!(ClientMessage::from(packet.header.id), ClientMessage::GameRequestSent);
    let back = GameRequestFullPacket::deserialize(&packet.body).unwrap();
    assert_eq!(format!("{:?}", back), format!("{:?}", request));

    let mv = MovePacket { my_id: "12".to_string(), from_location: 33, to_location: 34 };
    let back = MovePacket::deserialize(&encode_fields(&mv.fields())).unwrap();
    assert_eq!((back.my_id.as_str(), back.from_location, back.to_location), ("12", 33, 34));

    let ready = GamePlayerReadyDataFullPacket { my_id: "1".to_string(), ready: true, board: vec![(3, 1), (5, 40)] };
    let back = GamePlayerReadyDataFullPacket::deserialize(&encode_fields(&ready.fields())).unwrap();
    assert_eq!(back.board, vec![(3, 1), (5, 40)]);
}

#[test]
fn empty_strings_do_not_decode() {
    let p = UpdateReadyStatePacket { my_id: String::new(), ready: true };
    let bytes = encode_fields(&p.fields());
    assert!(UpdateReadyStatePacket::deserialize(&bytes).is_err());
}

#[test]
fn server_message_ids() {
    let win = WinPacket { role: 1, win_type: 1, elapsed: 5, immediate: false };
    assert_eq!(WinPacket::ID, 22);
    assert_eq!(ServerMessage::from(WinPacket::ID), ServerMessage::Win);
    assert_eq!(encode_fields(&win.fields()), vec![1, 0, 0, 0, 1, 0, 0, 0, 5, 0, 0, 0, 0, 0, 0, 0, 0]);
    assert_eq!(ServerMessage::from(200), ServerMessage::Null);
    assert_eq!(ClientMessage::from(0), ClientMessage::Null);
}

#[test]
fn receive_buffer() {
    let mut buf = NetworkBuffer::new();
    assert!(buf.append(&[1, 2, 3, 4]));
    buf.drain(1);
    assert_eq!(buf.offset, 3);
    assert_eq!(&buf.data[..3], &[2, 3, 4]);
    assert!(!buf.append(&vec![0u8; 16384]));
    buf.clear();
    assert_eq!(buf.offset, 0);
}
