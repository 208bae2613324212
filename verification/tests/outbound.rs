use peer_sync::codec::decode;
use peer_sync::message::RemoteMessage;
use peer_sync::outbound::{announce_fire, send_player_states, LocalState, Player, HEARTBEAT_TICKS};
use peer_sync::scalar::Scalar;
use peer_sync::session::{on_enter, on_exit, ClientMessage};

fn s(v: f32) -> Scalar {
    Scalar::from_bits(v.to_bits())
}

fn state(x: f32, y: f32, life: i32, max_life: i32) -> LocalState {
    LocalState {
        uuid: 77,
        x: s(x),
        y: s(y),
        vx: s(1.0),
        vy: s(-1.0),
        life,
        max_life,
        angle: s(0.5),
        intensity: s(3.0),
    }
}

fn settled(x: f32, y: f32, life: i32, max_life: i32, at: u32) -> Player {
    let mut p = Player::new("Morgane".to_string(), 40);
    assert!(send_player_states(&mut p, &state(x, y, life, max_life), true, true, Some(3), at).is_some());
    p
}

#[test]
fn the_first_state_is_reported_at_once() {
    let mut p = Player::new("Morgane".to_string(), 40);
    let frame = send_player_states(&mut p, &state(0.0, 0.0, 100, 100), true, true, Some(3), 0).unwrap();
    match decode(&frame).unwrap() {
        RemoteMessage::Position {
            sender,
            uuid,
            name,
            golds,
            level,
            x,
            y,
            vx,
            vy,
            life,
            max_life,
            angle,
            intensity,
        } => {
            assert_eq!(sender, 77);
            assert_eq!(uuid, 77);
            assert_eq!(name, "Morgane");
            assert_eq!(golds, 40);
            assert_eq!(level, 3);
            assert_eq!(f32::from_bits(x.bits), 0.0);
            assert_eq!(f32::from_bits(y.bits), 0.0);
            assert_eq!(f32::from_bits(vx.bits), 1.0);
            assert_eq!(f32::from_bits(vy.bits), -1.0);
            assert_eq!(life, 100);
            assert_eq!(max_life, 100);
            assert_eq!(f32::from_bits(angle.bits), 0.5);
            assert_eq!(f32::from_bits(intensity.bits), 3.0);
        }
        other => panic!("{:?}", other),
    }
    assert_eq!(p.last_idle_frame_count, 0);
    assert_eq!(p.last_idle_life, 100);
    assert_eq!(p.last_idle_max_life, 100);
}

#[test]
fn an_unchanged_state_is_sent_again_after_more_than_60_ticks() {
    let mut p = settled(1.0, 2.0, 100, 100, 1000);
    let st = state(1.0, 2.0, 100, 100);
    assert!(send_player_states(&mut p, &st, true, true, Some(3), 1001).is_none());
    assert!(send_player_states(&mut p, &st, true, true, Some(3), 1060).is_none());
    assert_eq!(p.last_idle_frame_count, 1000);
    assert!(send_player_states(&mut p, &st, true, true, Some(3), 1061).is_some());
    assert_eq!(p.last_idle_frame_count, 1061);
    assert!(send_player_states(&mut p, &st, true, true, Some(3), 1062).is_none());
    assert_eq!(HEARTBEAT_TICKS, 60);
}

#[test]
fn a_tick_before_the_last_report_is_no_heartbeat() {
    let mut p = settled(1.0, 2.0, 100, 100, 1000);
    assert!(send_player_states(&mut p, &state(1.0, 2.0, 100, 100), true, true, Some(3), 5).is_none());
}

#[test]
fn a_move_is_reported() {
    let mut p = settled(1.0, 2.0, 100, 100, 1000);
    assert!(send_player_states(&mut p, &state(1.5, 2.0, 100, 100), true, true, Some(3), 1001).is_some());
    assert_eq!(f32::from_bits(p.last_ilde_x.bits), 1.5);
    assert!(send_player_states(&mut p, &state(1.5, 2.5, 100, 100), true, true, Some(3), 1002).is_some());
    assert_eq!(f32::from_bits(p.last_ilde_y.bits), 2.5);
    assert_eq!(f32::from_bits(p.last_idle_vx.bits), 1.0);
    assert_eq!(f32::from_bits(p.last_idle_vy.bits), -1.0);
    assert!(send_player_states(&mut p, &state(1.5, 2.5, 100, 100), true, true, Some(3), 1003).is_none());
}

#[test]
fn a_change_of_velocity_alone_is_not_reported() {
    let mut p = settled(1.0, 2.0, 100, 100, 1000);
    let mut st = state(1.0, 2.0, 100, 100);
    st.vx = s(9.0);
    st.angle = s(2.0);
    assert!(send_player_states(&mut p, &st, true, true, Some(3), 1001).is_none());
}

#[test]
fn a_change_of_life_is_reported() {
    let mut p = settled(1.0, 2.0, 100, 100, 1000);
    assert!(send_player_states(&mut p, &state(1.0, 2.0, 90, 100), true, true, Some(3), 1001).is_some());
    assert!(send_player_states(&mut p, &state(1.0, 2.0, 90, 100), true, true, Some(3), 1002).is_none());
    assert!(send_player_states(&mut p, &state(1.0, 2.0, 90, 120), true, true, Some(3), 1003).is_some());
    assert_eq!(p.last_idle_life, 90);
    assert_eq!(p.last_idle_max_life, 120);
}

#[test]
fn the_dead_report_nothing() {
    let mut p = settled(1.0, 2.0, 100, 100, 1000);
    assert!(send_player_states(&mut p, &state(5.0, 5.0, 0, 100), true, true, Some(3), 2000).is_none());
    assert!(send_player_states(&mut p, &state(5.0, 5.0, -4, 100), true, true, Some(3), 2001).is_none());
    assert_eq!(p.last_idle_frame_count, 1000);
    assert_eq!(p.last_idle_life, 100);
}

#[test]
fn nothing_is_sent_without_a_channel_or_a_shard() {
    let st = state(1.0, 2.0, 100, 100);
    let mut p = Player::new("Morgane".to_string(), 40);
    assert!(send_player_states(&mut p, &st, false, true, Some(3), 100).is_none());
    assert!(send_player_states(&mut p, &st, true, false, Some(3), 100).is_none());
    assert!(send_player_states(&mut p, &st, true, true, None, 100).is_none());
    assert_eq!(p.last_idle_life, 0);
    assert!(send_player_states(&mut p, &st, true, true, Some(3), 100).is_some());
}

#[test]
fn the_two_zeros_are_one_position_and_a_nan_is_never_the_same() {
    let mut p = settled(0.0, 2.0, 100, 100, 1000);
    assert!(send_player_states(&mut p, &state(-0.0, 2.0, 100, 100), true, true, Some(3), 1001).is_none());
    let mut q = settled(f32::NAN, 2.0, 100, 100, 1000);
    assert!(send_player_states(&mut q, &state(f32::NAN, 2.0, 100, 100), true, true, Some(3), 1001).is_some());
}

#[test]
fn scalars_differ_as_the_numbers_they_stand_for() {
    let values = [
        0.0f32,
        -0.0,
        1.0,
        -1.0,
        1.5,
        f32::MIN_POSITIVE,
        f32::MAX,
        f32::MIN,
        f32::INFINITY,
        f32::NEG_INFINITY,
        f32::NAN,
        -f32::NAN,
        f32::from_bits(1),
        f32::from_bits(0x7f80_0001),
        f32::from_bits(0xffff_ffff),
    ];
    for a in values.iter() {
        for b in values.iter() {
            assert_eq!(s(*a).differs_from(s(*b)), a != b, "{} {}", a, b);
        }
    }
    assert_eq!(Scalar::from_bits(0x3fc0_0000).bits, 1.5f32.to_bits());
}

#[test]
fn a_shot_is_announced_to_the_shard() {
    let frame = announce_fire(77, true, true, Some(3), s(1.0), s(2.0), s(3.0), s(4.0), 240, 2).unwrap();
    match decode(&frame).unwrap() {
        RemoteMessage::Fire { sender, uuid, level, x, y, vx, vy, bullet_lifetime, bullet_type } => {
            assert_eq!((sender, uuid, level), (77, 77, 3));
            assert_eq!(f32::from_bits(x.bits), 1.0);
            assert_eq!(f32::from_bits(y.bits), 2.0);
            assert_eq!(f32::from_bits(vx.bits), 3.0);
            assert_eq!(f32::from_bits(vy.bits), 4.0);
            assert_eq!(bullet_lifetime, 240);
            assert_eq!(bullet_type, 2);
        }
        other => panic!("{:?}", other),
    }
    assert!(announce_fire(77, false, true, Some(3), s(1.0), s(2.0), s(3.0), s(4.0), 240, 2).is_none());
    assert!(announce_fire(77, true, false, Some(3), s(1.0), s(2.0), s(3.0), s(4.0), 240, 2).is_none());
    assert!(announce_fire(77, true, true, None, s(1.0), s(2.0), s(3.0), s(4.0), 240, 2).is_none());
}

#[test]
fn a_session_opens_and_closes_the_channel_when_online() {
    match on_enter(true, "wss://example.invalid/room".to_string()) {
        Some(ClientMessage::Open(url)) => assert_eq!(url, "wss://example.invalid/room"),
        other => panic!("{:?}", other),
    }
    assert!(matches!(on_exit(true), Some(ClientMessage::Close)));
    assert!(on_enter(false, "wss://example.invalid/room".to_string()).is_none());
    assert!(on_exit(false).is_none());
}
