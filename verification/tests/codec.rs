use peer_sync::codec::{decode, encode, DecodeError};
use peer_sync::message::RemoteMessage;
use peer_sync::scalar::Scalar;
use uuid::Uuid;

fn s(v: f32) -> Scalar {
    Scalar::from_bits(v.to_bits())
}

fn same(a: &RemoteMessage, b: &RemoteMessage) -> bool {
    format!("{:?}", a) == format!("{:?}", b)
}

fn sample_position() -> RemoteMessage {
    RemoteMessage::Position {
        sender: 0x0123_4567_89ab_cdef_0011_2233_4455_6677,
        uuid: 0x0123_4567_89ab_cdef_0011_2233_4455_6677,
        name: "Hécate".to_string(),
        golds: -7,
        level: 3,
        x: s(1.5),
        y: s(-2.25),
        vx: s(0.0),
        vy: s(100.0),
        life: 60,
        max_life: 150,
        angle: s(3.14),
        intensity: s(0.5),
    }
}

fn sample_fire() -> RemoteMessage {
    RemoteMessage::Fire {
        sender: 9,
        uuid: 9,
        level: -1,
        x: s(10.0),
        y: s(20.0),
        vx: s(-200.0),
        vy: s(0.125),
        bullet_lifetime: 240,
        bullet_type: 2,
    }
}

#[test]
fn die_is_laid_out_field_by_field() {
    let m = RemoteMessage::Die { sender: 1, uuid: 0x0102_0304_0506_0708_090a_0b0c_0d0e_0f10 };
    let mut want: Vec<u8> = vec![3, 0, 0, 0];
    want.extend_from_slice(&[16, 0, 0, 0, 0, 0, 0, 0]);
    want.extend_from_slice(&[0, 0, 0, 0, 0, 0, 0, 0, 0, 0, 0, 0, 0, 0, 0, 1]);
    want.extend_from_slice(&[16, 0, 0, 0, 0, 0, 0, 0]);
    want.extend_from_slice(&[1, 2, 3, 4, 5, 6, 7, 8, 9, 10, 11, 12, 13, 14, 15, 16]);
    assert_eq!(encode(&m), want);
    assert_eq!(want.len(), 52);
}

#[test]
fn hit_is_laid_out_field_by_field() {
    let m = RemoteMessage::Hit { sender: 2, uuid: 3, damage: -2 };
    let bytes = encode(&m);
    assert_eq!(bytes.len(), 56);
    assert_eq!(&bytes[0..4], &[2, 0, 0, 0]);
    assert_eq!(&bytes[52..56], &[0xfe, 0xff, 0xff, 0xff]);
}

#[test]
fn position_matches_bincode() {
    let id = Uuid::from_u128(0x0123_4567_89ab_cdef_0011_2233_4455_6677);
    let want = bincode::serialize(&(
        0u32,
        id,
        id,
        "Hécate".to_string(),
        -7i32,
        3i32,
        1.5f32,
        -2.25f32,
        0.0f32,
        100.0f32,
        60i32,
        150i32,
        3.14f32,
        0.5f32,
    ))
    .unwrap();
    assert_eq!(encode(&sample_position()), want);
}

#[test]
fn fire_matches_bincode() {
    let id = Uuid::from_u128(9);
    let want = bincode::serialize(&(
        1u32, id, id, -1i32, 10.0f32, 20.0f32, -200.0f32, 0.125f32, 240u32, 2u32,
    ))
    .unwrap();
    assert_eq!(encode(&sample_fire()), want);
}

#[test]
fn hit_and_die_match_bincode() {
    let a = Uuid::from_u128(u128::MAX);
    let b = Uuid::from_u128(0);
    let hit = bincode::serialize(&(2u32, a, b, i32::MIN)).unwrap();
    assert_eq!(encode(&RemoteMessage::Hit { sender: u128::MAX, uuid: 0, damage: i32::MIN }), hit);
    let die = bincode::serialize(&(3u32, b, a)).unwrap();
    assert_eq!(encode(&RemoteMessage::Die { sender: 0, uuid: u128::MAX }), die);
}

#[test]
fn bincode_reads_what_encode_writes() {
    let bytes = encode(&sample_fire());
    let back: (u32, Uuid, Uuid, i32, f32, f32, f32, f32, u32, u32) =
        bincode::deserialize(&bytes).unwrap();
    assert_eq!(back.0, 1);
    assert_eq!(back.1.as_u128(), 9);
    assert_eq!(back.3, -1);
    assert_eq!(back.6, -200.0);
    assert_eq!(back.8, 240);
}

#[test]
fn round_trip_of_every_variant() {
    let all = vec![
        sample_position(),
        sample_fire(),
        RemoteMessage::Hit { sender: 5, uuid: 9, damage: 30 },
        RemoteMessage::Die { sender: 5, uuid: 9 },
    ];
    for m in all.iter() {
        let back = decode(&encode(m)).unwrap();
        assert!(same(&back, m));
    }
}

#[test]
fn round_trip_of_an_empty_name_and_extreme_numbers() {
    let m = RemoteMessage::Position {
        sender: u128::MAX,
        uuid: 0,
        name: String::new(),
        golds: i32::MIN,
        level: i32::MAX,
        x: Scalar::from_bits(u32::MAX),
        y: Scalar::from_bits(0x7fc0_0000),
        vx: Scalar::from_bits(0x8000_0000),
        vy: Scalar::from_bits(1),
        life: -1,
        max_life: 0,
        angle: s(f32::INFINITY),
        intensity: s(f32::MIN_POSITIVE),
    };
    let bytes = encode(&m);
    assert_eq!(bytes.len(), 100);
    assert!(same(&decode(&bytes).unwrap(), &m));
}

#[test]
fn decode_rejects_an_unknown_tag() {
    let mut bytes = encode(&RemoteMessage::Die { sender: 1, uuid: 2 });
    bytes[0] = 4;
    assert_eq!(decode(&bytes).unwrap_err(), DecodeError::UnknownTag);
    bytes[0] = 3;
    bytes[3] = 1;
    assert_eq!(decode(&bytes).unwrap_err(), DecodeError::UnknownTag);
}

#[test]
fn decode_rejects_a_wrong_length() {
    assert_eq!(decode(&[]).unwrap_err(), DecodeError::Length);
    assert_eq!(decode(&[3, 0, 0]).unwrap_err(), DecodeError::Length);
    let die = encode(&RemoteMessage::Die { sender: 1, uuid: 2 });
    assert_eq!(decode(&die[..51]).unwrap_err(), DecodeError::Length);
    let mut long = die.clone();
    long.push(0);
    assert_eq!(decode(&long).unwrap_err(), DecodeError::Length);
    let hit = encode(&RemoteMessage::Hit { sender: 1, uuid: 2, damage: 3 });
    assert_eq!(decode(&hit[..55]).unwrap_err(), DecodeError::Length);
    let fire = encode(&sample_fire());
    assert_eq!(decode(&fire[..79]).unwrap_err(), DecodeError::Length);
    let position = encode(&sample_position());
    assert_eq!(decode(&position[..position.len() - 1]).unwrap_err(), DecodeError::Length);
    assert_eq!(decode(&position[..59]).unwrap_err(), DecodeError::Length);
    let mut longer = position.clone();
    longer.push(7);
    assert_eq!(decode(&longer).unwrap_err(), DecodeError::Length);
}

#[test]
fn decode_rejects_an_identity_of_another_length() {
    let mut bytes = encode(&RemoteMessage::Die { sender: 1, uuid: 2 });
    bytes[4] = 15;
    assert_eq!(decode(&bytes).unwrap_err(), DecodeError::Identity);
    bytes[4] = 16;
    bytes[35] = 1;
    assert_eq!(decode(&bytes).unwrap_err(), DecodeError::Identity);
}

#[test]
fn decode_rejects_a_name_that_is_not_utf8() {
    let m = RemoteMessage::Position {
        sender: 1,
        uuid: 1,
        name: "ab".to_string(),
        golds: 0,
        level: 0,
        x: s(0.0),
        y: s(0.0),
        vx: s(0.0),
        vy: s(0.0),
        life: 1,
        max_life: 1,
        angle: s(0.0),
        intensity: s(0.0),
    };
    let mut bytes = encode(&m);
    bytes[60] = 0xff;
    assert_eq!(decode(&bytes).unwrap_err(), DecodeError::Name);
    bytes[60] = 0xc3;
    bytes[61] = 0xa9;
    match decode(&bytes).unwrap() {
        RemoteMessage::Position { name, .. } => assert_eq!(name, "é"),
        other => panic!("{:?}", other),
    }
}

#[test]
fn decode_keeps_the_name_it_was_given() {
    match decode(&encode(&sample_position())).unwrap() {
        RemoteMessage::Position { name, golds, level, x, .. } => {
            assert_eq!(name, "Hécate");
            assert_eq!(golds, -7);
            assert_eq!(level, 3);
            assert_eq!(f32::from_bits(x.bits), 1.5);
        }
        other => panic!("{:?}", other),
    }
}
