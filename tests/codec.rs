use zone_relay::frame::{encode_frame, frame_payload_len, split_frame, u32_from_be, u32_to_be};
use zone_relay::item::WeaponKind;
use zone_relay::packet::{frame_packet, DecodeError, PlayerPacket, PROTOCOL_VERSION};
use zone_relay::player::ActionType;

fn sample() -> PlayerPacket {
    PlayerPacket {
        name: "zoë".to_string(),
        id: 0x0102_0304_0506_0708,
        x: 12.5f32.to_bits(),
        y: (-3.25f32).to_bits(),
        message: "hello".to_string(),
        dir: true,
        actions: vec![
            ActionType::PickUp(42),
            ActionType::Shot((WeaponKind::Magnum, 1.0f32.to_bits(), 2.0f32.to_bits(), 3, 4)),
        ],
    }
}

fn same(a: &PlayerPacket, b: &PlayerPacket) -> bool {
    a.name == b.name
        && a.id == b.id
        && a.x == b.x
        && a.y == b.y
        && a.message == b.message
        && a.dir == b.dir
        && a.actions == b.actions
}

#[test]
fn round_trip_keeps_every_field() {
    let p = sample();
    let bytes = p.encode();
    let back = PlayerPacket::decode(&bytes).expect("decodes");
    assert!(same(&p, &back));
    assert_eq!(f32::from_bits(back.x), 12.5);
    assert_eq!(f32::from_bits(back.y), -3.25);
}

#[test]
fn round_trip_of_minimal_message() {
    let p = PlayerPacket {
        name: String::new(),
        id: 0,
        x: 0,
        y: 0,
        message: String::new(),
        dir: false,
        actions: vec![],
    };
    let bytes = p.encode();
    assert_eq!(
        bytes,
        vec![PROTOCOL_VERSION, 0, 0, 0, 0, 0, 0, 0, 0, 0, 0, 0, 0, 0, 0, 0, 0, 0, 0, 0, 0, 0, 0, 0, 0, 0, 0, 0, 0, 0]
    );
    let back = PlayerPacket::decode(&bytes).unwrap();
    assert!(same(&p, &back));
}

#[test]
fn encoding_layout_is_fixed_width_big_endian() {
    let p = PlayerPacket {
        name: "ab".to_string(),
        id: 7,
        x: 0x0102_0304,
        y: 0x0a0b_0c0d,
        message: String::new(),
        dir: true,
        actions: vec![ActionType::PickUp(9)],
    };
    let expected: Vec<u8> = vec![
        1, // version
        0, 0, 0, 2, b'a', b'b', // name
        0, 0, 0, 0, 0, 0, 0, 7, // id
        1, 2, 3, 4, // x
        10, 11, 12, 13, // y
        0, 0, 0, 0, // no chat text
        1, // facing
        0, 0, 0, 1, // one action
        1, 0, 0, 0, 0, 0, 0, 0, 9, // pick up item 9
    ];
    assert_eq!(p.encode(), expected);
}

#[test]
fn shot_action_layout() {
    let p = PlayerPacket {
        name: String::new(),
        id: 0,
        x: 0,
        y: 0,
        message: String::new(),
        dir: false,
        actions: vec![ActionType::Shot((WeaponKind::Ak47, 1, 2, 3, 0xffff_ffff))],
    };
    let bytes = p.encode();
    let tail = &bytes[bytes.len() - 18..];
    assert_eq!(tail, &[0, 0, 0, 0, 0, 1, 0, 0, 0, 2, 0, 0, 0, 3, 255, 255, 255, 255]);
}

#[test]
fn empty_payload_is_truncated() {
    let e = PlayerPacket::decode(&[]).unwrap_err();
    assert_eq!(e.reason, DecodeError::Truncated);
    assert!(e.raw.is_empty());
}

#[test]
fn wrong_version_is_rejected_with_raw_bytes() {
    let mut bytes = sample().encode();
    bytes[0] = 2;
    let e = PlayerPacket::decode(&bytes).unwrap_err();
    assert_eq!(e.reason, DecodeError::UnknownVersion);
    assert_eq!(e.raw, bytes);
}

#[test]
fn cut_payload_is_truncated() {
    let bytes = sample().encode();
    for cut in 1..bytes.len() {
        let e = PlayerPacket::decode(&bytes[..cut]).unwrap_err();
        assert_eq!(e.reason, DecodeError::Truncated, "cut at {}", cut);
    }
}

#[test]
fn extra_bytes_are_rejected() {
    let mut bytes = sample().encode();
    bytes.push(0);
    let e = PlayerPacket::decode(&bytes).unwrap_err();
    assert_eq!(e.reason, DecodeError::TrailingBytes);
}

#[test]
fn facing_byte_must_be_zero_or_one() {
    let p = PlayerPacket {
        name: String::new(),
        id: 0,
        x: 0,
        y: 0,
        message: String::new(),
        dir: false,
        actions: vec![],
    };
    let mut bytes = p.encode();
    // version, name length, id, x, y, chat length: the facing byte follows at 1 + 4 + 16 + 4
    bytes[25] = 2;
    let e = PlayerPacket::decode(&bytes).unwrap_err();
    assert_eq!(e.reason, DecodeError::BadFlag);
}

#[test]
fn unknown_action_tag_is_rejected() {
    let p = PlayerPacket {
        name: String::new(),
        id: 0,
        x: 0,
        y: 0,
        message: String::new(),
        dir: false,
        actions: vec![ActionType::PickUp(1)],
    };
    let mut bytes = p.encode();
    bytes[30] = 7;
    let e = PlayerPacket::decode(&bytes).unwrap_err();
    assert_eq!(e.reason, DecodeError::UnknownTag);
}

#[test]
fn unknown_weapon_is_rejected() {
    let p = PlayerPacket {
        name: String::new(),
        id: 0,
        x: 0,
        y: 0,
        message: String::new(),
        dir: false,
        actions: vec![ActionType::Shot((WeaponKind::Ak47, 0, 0, 0, 0))],
    };
    let mut bytes = p.encode();
    bytes[31] = 5;
    let e = PlayerPacket::decode(&bytes).unwrap_err();
    assert_eq!(e.reason, DecodeError::UnknownTag);
}

#[test]
fn invalid_utf8_name_is_rejected() {
    let p = PlayerPacket {
        name: "ab".to_string(),
        id: 0,
        x: 0,
        y: 0,
        message: String::new(),
        dir: false,
        actions: vec![],
    };
    let mut bytes = p.encode();
    bytes[5] = 0xff;
    let e = PlayerPacket::decode(&bytes).unwrap_err();
    assert_eq!(e.reason, DecodeError::BadText);
}

#[test]
fn multibyte_text_is_counted_in_bytes() {
    let p = PlayerPacket {
        name: "é".to_string(),
        id: 0,
        x: 0,
        y: 0,
        message: String::new(),
        dir: false,
        actions: vec![],
    };
    let bytes = p.encode();
    assert_eq!(&bytes[1..7], &[0, 0, 0, 2, 0xc3, 0xa9]);
    let back = PlayerPacket::decode(&bytes).unwrap();
    assert_eq!(back.name, "é");
}

#[test]
fn frame_prefixes_big_endian_length() {
    let payload: Vec<u8> = (0u8..12).collect();
    let f = encode_frame(&payload);
    assert_eq!(&f[..4], &[0, 0, 0, 12]);
    assert_eq!(&f[4..], &payload[..]);
    assert_eq!(frame_payload_len([0, 0, 0, 12]), 12);
    assert_eq!(frame_payload_len([1, 2, 3, 4]), 0x0102_0304);
}

#[test]
fn empty_frame_is_just_the_header() {
    assert_eq!(encode_frame(&[]), vec![0, 0, 0, 0]);
    assert_eq!(split_frame(&[0, 0, 0, 0]), Some((vec![], 4)));
}

#[test]
fn be_helpers_agree_with_std() {
    for v in [0u32, 1, 0x0102_0304, u32::MAX, 0x8000_0000] {
        assert_eq!(u32_to_be(v), v.to_be_bytes());
        assert_eq!(u32_from_be(v.to_be_bytes()), v);
    }
}

#[test]
fn split_frame_waits_for_whole_frame() {
    let f = encode_frame(&[9, 8, 7]);
    assert_eq!(split_frame(&f[..2]), None);
    assert_eq!(split_frame(&f[..6]), None);
    let mut buf = f.clone();
    buf.extend_from_slice(&[1, 2]);
    assert_eq!(split_frame(&buf), Some((vec![9, 8, 7], 7)));
}

#[test]
fn packet_frame_is_length_then_encoding() {
    let p = sample();
    let enc = p.encode();
    let f = frame_packet(&p);
    assert_eq!(&f[..4], &(enc.len() as u32).to_be_bytes());
    assert_eq!(&f[4..], &enc[..]);
}
