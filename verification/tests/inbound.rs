use peer_sync::codec::{encode, DecodeError};
use peer_sync::dedup::SpawnGuard;
use peer_sync::inbound::{apply_message, receive_events, SyncEvent, REWARDS_ON_DEATH};
use peer_sync::message::RemoteMessage;
use peer_sync::registry::PeerRegistry;
use peer_sync::scalar::Scalar;

fn s(v: f32) -> Scalar {
    Scalar::from_bits(v.to_bits())
}

fn position(uuid: u128, level: i32, x: f32, life: i32) -> RemoteMessage {
    RemoteMessage::Position {
        sender: uuid,
        uuid,
        name: format!("peer-{}", uuid),
        golds: 12,
        level,
        x: s(x),
        y: s(-1.0),
        vx: s(0.5),
        vy: s(0.25),
        life,
        max_life: 150,
        angle: s(1.0),
        intensity: s(3.0),
    }
}

fn fire(uuid: u128, level: i32) -> RemoteMessage {
    RemoteMessage::Fire {
        sender: uuid,
        uuid,
        level,
        x: s(4.0),
        y: s(5.0),
        vx: s(200.0),
        vy: s(0.0),
        bullet_lifetime: 240,
        bullet_type: 1,
    }
}

fn frames(messages: &[RemoteMessage]) -> Vec<Vec<u8>> {
    messages.iter().map(encode).collect()
}

fn spawns(events: &[SyncEvent], id: u128) -> usize {
    events.iter().filter(|e| matches!(e, SyncEvent::Spawn { uuid, .. } if *uuid == id)).count()
}

#[test]
fn three_reports_of_an_unseen_peer_spawn_it_once() {
    let mut r = PeerRegistry::new(1);
    let batch = frames(&[position(42, 3, 1.0, 100), position(42, 3, 2.0, 100), position(42, 3, 3.0, 90)]);
    let events = receive_events(&mut r, &batch, Some(3), 7);
    assert_eq!(events.len(), 1);
    assert_eq!(spawns(&events, 42), 1);
    assert_eq!(r.len(), 1);
    assert_eq!(r.all().iter().filter(|p| p.uuid == 42).count(), 1);
    let p = r.get(42).unwrap();
    assert_eq!(f32::from_bits(p.x.bits), 3.0);
    assert_eq!(p.life, 90);
    assert_eq!(p.last_update, 7);
    assert_eq!(p.level, Some(3));
}

#[test]
fn a_single_report_spawns_with_what_it_says() {
    let mut r = PeerRegistry::new(1);
    let events = receive_events(&mut r, &frames(&[position(42, 3, 1.5, 100)]), Some(3), 7);
    match &events[0] {
        SyncEvent::Spawn { uuid, name, golds, x, y, angle, life, max_life } => {
            assert_eq!(*uuid, 42);
            assert_eq!(name, "peer-42");
            assert_eq!(*golds, 12);
            assert_eq!(f32::from_bits(x.bits), 1.5);
            assert_eq!(f32::from_bits(y.bits), -1.0);
            assert_eq!(f32::from_bits(angle.bits), 1.0);
            assert_eq!(*life, 100);
            assert_eq!(*max_life, 150);
        }
        other => panic!("{:?}", other),
    }
    let p = r.get(42).unwrap();
    assert_eq!(p.name, "peer-42");
    assert_eq!(p.golds, 12);
    assert_eq!(f32::from_bits(p.vx.bits), 0.5);
    assert_eq!(f32::from_bits(p.vy.bits), 0.25);
    assert_eq!(f32::from_bits(p.intensity.bits), 3.0);
    assert_eq!(p.max_life, 150);
}

#[test]
fn a_report_in_a_later_batch_updates_and_does_not_spawn() {
    let mut r = PeerRegistry::new(1);
    receive_events(&mut r, &frames(&[position(42, 3, 1.0, 100)]), Some(3), 7);
    let events = receive_events(&mut r, &frames(&[position(42, 3, 9.0, 80)]), Some(3), 8);
    assert!(events.is_empty());
    let p = r.get(42).unwrap();
    assert_eq!(f32::from_bits(p.x.bits), 9.0);
    assert_eq!(p.life, 80);
    assert_eq!(p.last_update, 8);
}

#[test]
fn a_report_from_another_shard_changes_nothing() {
    let mut r = PeerRegistry::new(1);
    receive_events(&mut r, &frames(&[position(42, 3, 1.0, 100)]), Some(3), 7);
    let events =
        receive_events(&mut r, &frames(&[position(42, 4, 9.0, 80), position(43, 4, 0.0, 1)]), Some(3), 8);
    assert!(events.is_empty());
    assert_eq!(r.len(), 1);
    let p = r.get(42).unwrap();
    assert_eq!(f32::from_bits(p.x.bits), 1.0);
    assert_eq!(p.life, 100);
    assert_eq!(p.last_update, 7);
    assert_eq!(p.level, Some(3));
}

#[test]
fn nothing_is_taken_in_while_the_receiver_is_in_no_shard() {
    let mut r = PeerRegistry::new(1);
    let events = receive_events(&mut r, &frames(&[position(42, 3, 1.0, 100), fire(42, 3)]), None, 7);
    assert!(events.is_empty());
    assert_eq!(r.len(), 0);
}

#[test]
fn a_shot_in_this_shard_launches_a_projectile() {
    let mut r = PeerRegistry::new(1);
    let events = receive_events(&mut r, &frames(&[fire(42, 3), fire(43, 4)]), Some(3), 7);
    assert_eq!(events.len(), 1);
    match &events[0] {
        SyncEvent::Bullet { owner, x, y, vx, vy, lifetime, kind } => {
            assert_eq!(*owner, 42);
            assert_eq!(f32::from_bits(x.bits), 4.0);
            assert_eq!(f32::from_bits(y.bits), 5.0);
            assert_eq!(f32::from_bits(vx.bits), 200.0);
            assert_eq!(f32::from_bits(vy.bits), 0.0);
            assert_eq!(*lifetime, 240);
            assert_eq!(*kind, 1);
        }
        other => panic!("{:?}", other),
    }
    assert_eq!(r.len(), 0);
}

#[test]
fn a_hit_of_30_on_100_leaves_70_and_death_removes_the_record() {
    let mut r = PeerRegistry::new(1);
    receive_events(&mut r, &frames(&[position(42, 3, 1.5, 100)]), Some(3), 7);
    let hit = RemoteMessage::Hit { sender: 9, uuid: 42, damage: 30 };
    let events = receive_events(&mut r, &frames(&[hit]), Some(3), 8);
    assert!(events.is_empty());
    assert_eq!(r.get(42).unwrap().life, 70);
    assert_eq!(r.get(42).unwrap().last_update, 8);
    let die = RemoteMessage::Die { sender: 42, uuid: 42 };
    let events = receive_events(&mut r, &frames(&[die]), Some(3), 9);
    assert!(r.get(42).is_none());
    assert_eq!(r.len(), 0);
    assert_eq!(events.len(), 1);
    match &events[0] {
        SyncEvent::Despawn { uuid, x, y, rewards } => {
            assert_eq!(*uuid, 42);
            assert_eq!(f32::from_bits(x.bits), 1.5);
            assert_eq!(f32::from_bits(y.bits), -1.0);
            assert_eq!(*rewards, 20);
            assert_eq!(REWARDS_ON_DEATH, 20);
        }
        other => panic!("{:?}", other),
    }
}

#[test]
fn hits_add_up() {
    let mut r = PeerRegistry::new(1);
    receive_events(&mut r, &frames(&[position(42, 3, 1.5, 100)]), Some(3), 7);
    let damages = [30, 5, -10, 200, 1];
    let batch: Vec<RemoteMessage> =
        damages.iter().map(|d| RemoteMessage::Hit { sender: 9, uuid: 42, damage: *d }).collect();
    let events = receive_events(&mut r, &frames(&batch), Some(3), 8);
    assert!(events.is_empty());
    assert_eq!(r.get(42).unwrap().life, 100 - damages.iter().sum::<i32>());
    assert_eq!(r.get(42).unwrap().life, -126);
}

#[test]
fn hits_reach_a_peer_whatever_the_shard_of_the_receiver() {
    let mut r = PeerRegistry::new(1);
    receive_events(&mut r, &frames(&[position(42, 3, 1.5, 100)]), Some(3), 7);
    let hit = RemoteMessage::Hit { sender: 9, uuid: 42, damage: 1 };
    receive_events(&mut r, &frames(&[hit]), Some(4), 8);
    assert_eq!(r.get(42).unwrap().life, 99);
}

#[test]
fn hit_and_die_of_an_unknown_subject_do_nothing() {
    let mut r = PeerRegistry::new(1);
    receive_events(&mut r, &frames(&[position(42, 3, 1.5, 100)]), Some(3), 7);
    let batch = frames(&[
        RemoteMessage::Hit { sender: 9, uuid: 43, damage: 30 },
        RemoteMessage::Die { sender: 9, uuid: 43 },
    ]);
    let events = receive_events(&mut r, &batch, Some(3), 8);
    assert!(events.is_empty());
    assert_eq!(r.len(), 1);
    assert_eq!(r.get(42).unwrap().life, 100);
}

#[test]
fn a_frame_that_does_not_decode_is_dropped_alone() {
    let mut r = PeerRegistry::new(1);
    let mut batch = frames(&[position(42, 3, 1.0, 100), position(43, 3, 1.0, 100)]);
    batch.insert(1, vec![9, 9, 9, 9, 0]);
    batch.push(vec![]);
    let events = receive_events(&mut r, &batch, Some(3), 7);
    assert_eq!(events.len(), 4);
    assert!(matches!(events[0], SyncEvent::Spawn { uuid: 42, .. }));
    assert!(matches!(events[1], SyncEvent::Rejected { reason: DecodeError::UnknownTag }));
    assert!(matches!(events[2], SyncEvent::Spawn { uuid: 43, .. }));
    assert!(matches!(events[3], SyncEvent::Rejected { reason: DecodeError::Length }));
    assert_eq!(r.len(), 2);
}

#[test]
fn the_own_report_coming_back_is_ignored() {
    let mut r = PeerRegistry::new(42);
    let events = receive_events(&mut r, &frames(&[position(42, 3, 1.0, 100)]), Some(3), 7);
    assert!(events.is_empty());
    assert_eq!(r.len(), 0);
}

#[test]
fn a_peer_that_died_in_this_batch_is_not_spawned_again_in_it() {
    let mut r = PeerRegistry::new(1);
    let batch = frames(&[
        position(42, 3, 1.0, 100),
        RemoteMessage::Die { sender: 42, uuid: 42 },
        position(42, 3, 2.0, 100),
    ]);
    let events = receive_events(&mut r, &batch, Some(3), 7);
    assert_eq!(spawns(&events, 42), 1);
    assert_eq!(events.len(), 2);
    assert!(matches!(events[1], SyncEvent::Despawn { uuid: 42, .. }));
    assert!(r.get(42).is_none());
    let events = receive_events(&mut r, &frames(&[position(42, 3, 2.0, 100)]), Some(3), 8);
    assert_eq!(spawns(&events, 42), 1);
    assert!(r.get(42).is_some());
}

#[test]
fn messages_are_handled_in_the_order_of_arrival() {
    let mut r = PeerRegistry::new(1);
    let batch = frames(&[
        position(42, 3, 1.0, 100),
        RemoteMessage::Hit { sender: 9, uuid: 42, damage: 30 },
        position(42, 3, 2.0, 55),
        RemoteMessage::Hit { sender: 9, uuid: 42, damage: 5 },
    ]);
    receive_events(&mut r, &batch, Some(3), 7);
    assert_eq!(r.get(42).unwrap().life, 50);
}

#[test]
fn the_guard_lets_each_identity_through_once() {
    let mut g = SpawnGuard::new();
    assert!(!g.contains(42));
    assert!(g.check_and_insert(42));
    assert!(g.contains(42));
    assert!(!g.check_and_insert(42));
    assert!(g.check_and_insert(43));
    assert!(!SpawnGuard::new().contains(42));
}

#[test]
fn one_message_can_be_applied_by_hand() {
    let mut r = PeerRegistry::new(1);
    let mut g = SpawnGuard::new();
    let mut events = Vec::new();
    apply_message(&mut r, &mut g, Some(3), 7, position(42, 3, 1.0, 100), &mut events);
    apply_message(&mut r, &mut g, Some(3), 7, fire(42, 3), &mut events);
    assert_eq!(events.len(), 2);
    assert!(g.contains(42));
    assert_eq!(r.len(), 1);
}
