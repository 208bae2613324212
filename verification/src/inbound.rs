//! Applying what other peers send.
//!
//! The frames that arrived since the last tick are handled in the order in
//! which they arrived. A frame that does not decode is dropped and the next
//! one handled. What a message changes in the registry is changed here; what
//! it asks of the rest of the game (a representation to create or remove, a
//! projectile to launch) is handed back as a list of events.

use crate::codec::{decode, decoded, DecodeError};
use crate::dedup::SpawnGuard;
use crate::message::{MessageModel, PeerIdentity, RemoteMessage};
use crate::registry::{damaged_at, upserted, PeerModel, PeerRegistry, RemotePlayer};
use crate::scalar::Scalar;
use vstd::prelude::*;

verus! {

/// The number of rewards left behind by a peer that dies.
pub const REWARDS_ON_DEATH: u32 = 20;

/// What the rest of the game is asked to do.
#[derive(Debug)]
pub enum SyncEvent {
    /// A peer was seen for the first time: create its representation.
    Spawn {
        uuid: PeerIdentity,
        name: String,
        golds: i32,
        x: Scalar,
        y: Scalar,
        angle: Scalar,
        life: i32,
        max_life: i32,
    },
    /// A peer in this shard fired: launch the projectile.
    Bullet {
        owner: PeerIdentity,
        x: Scalar,
        y: Scalar,
        vx: Scalar,
        vy: Scalar,
        lifetime: u32,
        kind: u32,
    },
    /// A peer died: remove its representation and leave `rewards` rewards
    /// where it was last known to be.
    Despawn { uuid: PeerIdentity, x: Scalar, y: Scalar, rewards: u32 },
    /// A frame was not a message and has been dropped.
    Rejected { reason: DecodeError },
}

/// An event, with the display name as a sequence of characters.
pub enum EventModel {
    Spawn {
        uuid: PeerIdentity,
        name: Seq<char>,
        golds: i32,
        x: Scalar,
        y: Scalar,
        angle: Scalar,
        life: i32,
        max_life: i32,
    },
    Bullet {
        owner: PeerIdentity,
        x: Scalar,
        y: Scalar,
        vx: Scalar,
        vy: Scalar,
        lifetime: u32,
        kind: u32,
    },
    Despawn { uuid: PeerIdentity, x: Scalar, y: Scalar, rewards: u32 },
    Rejected { reason: DecodeError },
}

impl View for SyncEvent {
    type V = EventModel;

    open spec fn view(&self) -> EventModel {
        match *self {
            SyncEvent::Spawn { uuid, name, golds, x, y, angle, life, max_life } => EventModel::Spawn {
                uuid,
                name: name@,
                golds,
                x,
                y,
                angle,
                life,
                max_life,
            },
            SyncEvent::Bullet { owner, x, y, vx, vy, lifetime, kind } => EventModel::Bullet {
                owner,
                x,
                y,
                vx,
                vy,
                lifetime,
                kind,
            },
            SyncEvent::Despawn { uuid, x, y, rewards } => EventModel::Despawn {
                uuid,
                x,
                y,
                rewards,
            },
            SyncEvent::Rejected { reason } => EventModel::Rejected { reason },
        }
    }
}

/// The events of a list, each taken by its view.
pub open spec fn events_of(list: Seq<SyncEvent>) -> Seq<EventModel> {
    Seq::new(list.len(), |i: int| list[i]@)
}

/// The frames of a batch, each taken as its bytes.
pub open spec fn frames_of(batch: Seq<Vec<u8>>) -> Seq<Seq<u8>> {
    Seq::new(batch.len(), |i: int| batch[i]@)
}

/// Where the handling of a batch stands: the records, the identities
/// spawned in this batch, and the events raised so far.
pub struct SyncModel {
    pub peers: Map<PeerIdentity, PeerModel>,
    pub spawned: Set<PeerIdentity>,
    pub events: Seq<EventModel>,
}

/// Who receives: the local identity, the shard it is in (if it is in one),
/// and the current tick.
pub struct Receiver {
    pub local: PeerIdentity,
    pub current: Option<i32>,
    pub now: u32,
}

/// The record that a `Position` message heard at `now` describes.
pub open spec fn reported(m: MessageModel, now: u32) -> PeerModel
    recommends
        m is Position,
{
    PeerModel {
        uuid: m->Position_uuid,
        name: m->Position_name,
        golds: m->Position_golds,
        last_update: now,
        level: Some(m->Position_level),
        x: m->Position_x,
        y: m->Position_y,
        vx: m->Position_vx,
        vy: m->Position_vy,
        angle: m->Position_angle,
        intensity: m->Position_intensity,
        life: m->Position_life,
        max_life: m->Position_max_life,
    }
}

/// The event that asks for the representation of a newly reported peer.
pub open spec fn spawn_of(p: PeerModel) -> EventModel {
    EventModel::Spawn {
        uuid: p.uuid,
        name: p.name,
        golds: p.golds,
        x: p.x,
        y: p.y,
        angle: p.angle,
        life: p.life,
        max_life: p.max_life,
    }
}

/// What one message does.
///
/// A `Position` or `Fire` of another shard than the receiver's does
/// nothing. A `Position` of this shard overwrites the record of a known
/// peer; of an unknown peer it creates the record and raises `Spawn`, unless
/// that identity has been spawned in this batch already; of the receiver
/// itself it does nothing. A `Fire` of this shard raises `Bullet`. A `Hit`
/// reduces the life of a known subject. A `Die` removes the record of a
/// known subject and raises `Despawn`. `Hit` and `Die` of an unknown subject
/// do nothing.
pub open spec fn step(s: SyncModel, r: Receiver, m: MessageModel) -> SyncModel {
    match m {
        MessageModel::Position { uuid, level, .. } => {
            if r.current != Some(level) || uuid == r.local {
                s
            } else if s.peers.contains_key(uuid) {
                SyncModel { peers: upserted(s.peers, r.local, reported(m, r.now)), ..s }
            } else if s.spawned.contains(uuid) {
                s
            } else {
                SyncModel {
                    peers: upserted(s.peers, r.local, reported(m, r.now)),
                    spawned: s.spawned.insert(uuid),
                    events: s.events.push(spawn_of(reported(m, r.now))),
                }
            }
        },
        MessageModel::Fire { uuid, level, x, y, vx, vy, bullet_lifetime, bullet_type, .. } => {
            if r.current != Some(level) {
                s
            } else {
                SyncModel {
                    events: s.events.push(
                        EventModel::Bullet {
                            owner: uuid,
                            x,
                            y,
                            vx,
                            vy,
                            lifetime: bullet_lifetime,
                            kind: bullet_type,
                        },
                    ),
                    ..s
                }
            }
        },
        MessageModel::Hit { uuid, damage, .. } => SyncModel {
            peers: damaged_at(s.peers, uuid, damage, r.now),
            ..s
        },
        MessageModel::Die { uuid, .. } => {
            if s.peers.contains_key(uuid) {
                SyncModel {
                    peers: s.peers.remove(uuid),
                    events: s.events.push(
                        EventModel::Despawn {
                            uuid,
                            x: s.peers[uuid].x,
                            y: s.peers[uuid].y,
                            rewards: REWARDS_ON_DEATH,
                        },
                    ),
                    ..s
                }
            } else {
                s
            }
        },
    }
}

/// What one frame does: what its message does, or, where it is no message,
/// nothing but the note that it was dropped.
pub open spec fn step_frame(s: SyncModel, r: Receiver, frame: Seq<u8>) -> SyncModel {
    match decoded(frame) {
        Ok(m) => step(s, r, m),
        Err(reason) => SyncModel { events: s.events.push(EventModel::Rejected { reason }), ..s },
    }
}

/// What the frames of a batch do, one after the other.
pub open spec fn batch(s: SyncModel, r: Receiver, frames: Seq<Seq<u8>>) -> SyncModel
    decreases frames.len(),
{
    if frames.len() == 0 {
        s
    } else {
        step_frame(batch(s, r, frames.drop_last()), r, frames.last())
    }
}

proof fn lemma_events_push(list: Seq<SyncEvent>, e: SyncEvent)
    ensures
        events_of(list.push(e)) == events_of(list).push(e@),
{
    assert(events_of(list.push(e)) =~= events_of(list).push(e@));
}

/// Applies one message to the registry, and appends to `events` what it asks
/// of the rest of the game.
pub fn apply_message(
    registry: &mut PeerRegistry,
    guard: &mut SpawnGuard,
    current: Option<i32>,
    now: u32,
    m: RemoteMessage,
    events: &mut Vec<SyncEvent>,
)
    requires
        old(registry).wf(),
    ensures
        final(registry).wf(),
        final(registry).local() == old(registry).local(),
        (SyncModel {
            peers: final(registry)@,
            spawned: final(guard)@,
            events: events_of(final(events)@),
        }) == step(
            (SyncModel {
                peers: old(registry)@,
                spawned: old(guard)@,
                events: events_of(old(events)@),
            }),
            (Receiver { local: old(registry).local(), current, now }),
            m@,
        ),
{
    let ghost before = SyncModel {
        peers: registry@,
        spawned: guard@,
        events: events_of(events@),
    };
    let ghost r = Receiver { local: registry.local(), current, now };
    let ghost model = m@;
    match m {
        RemoteMessage::Position {
            sender: _,
            uuid,
            name,
            golds,
            level,
            x,
            y,
            vx,
            vy,
            life,
            max_life,
            angle,
            intensity,
        } => {
            if current == Some(level) && uuid != registry.local_identity() {
                if registry.get(uuid).is_some() {
                    let rec = RemotePlayer {
                        uuid,
                        name,
                        golds,
                        last_update: now,
                        level: Some(level),
                        x,
                        y,
                        vx,
                        vy,
                        angle,
                        intensity,
                        life,
                        max_life,
                    };
                    assert(rec@ == reported(model, now));
                    registry.upsert(rec);
                } else if guard.check_and_insert(uuid) {
                    let shown: String = name.clone();
                    let rec = RemotePlayer {
                        uuid,
                        name,
                        golds,
                        last_update: now,
                        level: Some(level),
                        x,
                        y,
                        vx,
                        vy,
                        angle,
                        intensity,
                        life,
                        max_life,
                    };
                    assert(rec@ == reported(model, now));
                    registry.upsert(rec);
                    let e = SyncEvent::Spawn { uuid, name: shown, golds, x, y, angle, life, max_life };
                    proof {
                        lemma_events_push(events@, e);
                    }
                    events.push(e);
                } else {
                    assert(guard@ =~= before.spawned);
                }
            }
        },
        RemoteMessage::Fire {
            sender: _,
            uuid,
            level,
            x,
            y,
            vx,
            vy,
            bullet_lifetime,
            bullet_type,
        } => {
            if current == Some(level) {
                let e = SyncEvent::Bullet {
                    owner: uuid,
                    x,
                    y,
                    vx,
                    vy,
                    lifetime: bullet_lifetime,
                    kind: bullet_type,
                };
                proof {
                    lemma_events_push(events@, e);
                }
                events.push(e);
            }
        },
        RemoteMessage::Hit { sender: _, uuid, damage } => {
            registry.hit(uuid, damage, now);
        },
        RemoteMessage::Die { sender: _, uuid } => {
            match registry.remove(uuid) {
                Some(p) => {
                    let e = SyncEvent::Despawn { uuid, x: p.x, y: p.y, rewards: REWARDS_ON_DEATH };
                    proof {
                        lemma_events_push(events@, e);
                    }
                    events.push(e);
                },
                None => {
                    assert(registry@ =~= before.peers);
                },
            }
        },
    }
}

/// Handles the frames that arrived since the last tick, in their order, and
/// returns what they ask of the rest of the game.
///
/// Each batch starts with nothing spawned. A frame that does not decode is
/// dropped, with a `Rejected` event, and does not touch the frames after it.
pub fn receive_events(
    registry: &mut PeerRegistry,
    frames: &Vec<Vec<u8>>,
    current: Option<i32>,
    frame_count: u32,
) -> (events: Vec<SyncEvent>)
    requires
        old(registry).wf(),
    ensures
        final(registry).wf(),
        final(registry).local() == old(registry).local(),
        ({
            let end = batch(
                (SyncModel {
                    peers: old(registry)@,
                    spawned: Set::empty(),
                    events: Seq::empty(),
                }),
                (Receiver { local: old(registry).local(), current, now: frame_count }),
                frames_of(frames@),
            );
            &&& final(registry)@ == end.peers
            &&& events_of(events@) == end.events
            &&& events@.len() == end.events.len()
        }),
{
    let ghost start = SyncModel {
        peers: registry@,
        spawned: Set::empty(),
        events: Seq::empty(),
    };
    let ghost r = Receiver { local: registry.local(), current, now: frame_count };
    let mut spawned_players = SpawnGuard::new();
    let mut events: Vec<SyncEvent> = Vec::new();
    assert(events_of(events@) =~= start.events);
    assert(frames_of(frames@).take(0) =~= Seq::<Seq<u8>>::empty());
    let mut i: usize = 0;
    while i < frames.len()
        invariant
            i <= frames@.len(),
            registry.wf(),
            registry.local() == r.local,
            r == (Receiver { local: old(registry).local(), current, now: frame_count }),
            (SyncModel {
                peers: registry@,
                spawned: spawned_players@,
                events: events_of(events@),
            }) == batch(start, r, frames_of(frames@).take(i as int)),
        decreases frames@.len() - i,
    {
        let ghost done = frames_of(frames@).take(i as int);
        let ghost next = frames_of(frames@).take(i + 1);
        assert(next.drop_last() =~= done);
        assert(next.last() == frames@[i as int]@);
        match decode(frames[i].as_slice()) {
            Ok(m) => {
                apply_message(registry, &mut spawned_players, current, frame_count, m, &mut events);
            },
            Err(reason) => {
                let e = SyncEvent::Rejected { reason };
                proof {
                    lemma_events_push(events@, e);
                }
                events.push(e);
            },
        }
        i += 1;
    }
    assert(frames_of(frames@).take(i as int) =~= frames_of(frames@));
    events
}

/// What a sequence of messages does, one after the other.
pub open spec fn run(s: SyncModel, r: Receiver, messages: Seq<MessageModel>) -> SyncModel
    decreases messages.len(),
{
    if messages.len() == 0 {
        s
    } else {
        step(run(s, r, messages.drop_last()), r, messages.last())
    }
}

/// The state in which a batch begins: the records as they are, nothing
/// spawned, no event raised.
pub open spec fn fresh(peers: Map<PeerIdentity, PeerModel>) -> SyncModel {
    SyncModel { peers, spawned: Set::empty(), events: Seq::empty() }
}

/// A batch of frames that all decode does what their messages do.
pub proof fn lemma_batch_runs(
    s: SyncModel,
    r: Receiver,
    frames: Seq<Seq<u8>>,
    messages: Seq<MessageModel>,
)
    requires
        frames.len() == messages.len(),
        forall|i: int|
            0 <= i < frames.len() ==> decoded(#[trigger] frames[i]) == Ok::<
                MessageModel,
                DecodeError,
            >(messages[i]),
    ensures
        batch(s, r, frames) == run(s, r, messages),
    decreases frames.len(),
{
    if frames.len() > 0 {
        lemma_batch_runs(s, r, frames.drop_last(), messages.drop_last());
        assert(decoded(frames[frames.len() - 1]) == Ok::<MessageModel, DecodeError>(
            messages.last(),
        ));
    }
}

/// The shard that a message is confined to, for the two kinds that are.
pub open spec fn shard_of(m: MessageModel) -> Option<i32> {
    match m {
        MessageModel::Position { level, .. } => Some(level),
        MessageModel::Fire { level, .. } => Some(level),
        _ => None,
    }
}

/// Shards are isolated: a `Position` or `Fire` from another shard than the
/// receiver's changes no record and raises no event.
pub proof fn lemma_other_shard_ignored(s: SyncModel, r: Receiver, m: MessageModel)
    requires
        m is Position || m is Fire,
        shard_of(m) != r.current,
    ensures
        step(s, r, m) == s,
{
}

/// No message moves the contact tick of a peer backward, and none gives the
/// receiver a record of itself.
pub proof fn lemma_step_keeps_order(s: SyncModel, r: Receiver, m: MessageModel, id: PeerIdentity)
    ensures
        s.peers.contains_key(id) && step(s, r, m).peers.contains_key(id) ==> step(
            s,
            r,
            m,
        ).peers[id].last_update >= s.peers[id].last_update,
        !s.peers.contains_key(r.local) ==> !step(s, r, m).peers.contains_key(r.local),
{
}

/// The number of `Spawn` events for `id` in a list of events.
pub open spec fn spawns_of(events: Seq<EventModel>, id: PeerIdentity) -> nat
    decreases events.len(),
{
    if events.len() == 0 {
        0
    } else {
        spawns_of(events.drop_last(), id) + if events.last() matches EventModel::Spawn {
            uuid,
            ..
        } && uuid == id {
            1nat
        } else {
            0nat
        }
    }
}

proof fn lemma_spawns_push(events: Seq<EventModel>, e: EventModel, id: PeerIdentity)
    ensures
        spawns_of(events.push(e), id) == spawns_of(events, id) + if e matches EventModel::Spawn {
            uuid,
            ..
        } && uuid == id {
            1nat
        } else {
            0nat
        },
{
    assert(events.push(e).drop_last() =~= events);
}

/// Whether the guard accounts for the spawns of `id`: one if the guard has
/// seen `id`, none otherwise.
pub open spec fn guarded(s: SyncModel, id: PeerIdentity) -> bool {
    spawns_of(s.events, id) == if s.spawned.contains(id) {
        1nat
    } else {
        0nat
    }
}

proof fn lemma_step_guarded(s: SyncModel, r: Receiver, m: MessageModel, id: PeerIdentity)
    requires
        guarded(s, id),
    ensures
        guarded(step(s, r, m), id),
        s.spawned.contains(id) ==> step(s, r, m).spawned.contains(id),
{
    let t = step(s, r, m);
    match m {
        MessageModel::Position { uuid, .. } => {
            if t.events != s.events {
                lemma_spawns_push(s.events, spawn_of(reported(m, r.now)), id);
            }
        },
        MessageModel::Fire { uuid, level, x, y, vx, vy, bullet_lifetime, bullet_type, .. } => {
            if t.events != s.events {
                lemma_spawns_push(
                    s.events,
                    EventModel::Bullet {
                        owner: uuid,
                        x,
                        y,
                        vx,
                        vy,
                        lifetime: bullet_lifetime,
                        kind: bullet_type,
                    },
                    id,
                );
            }
        },
        MessageModel::Hit { .. } => {},
        MessageModel::Die { uuid, .. } => {
            if t.events != s.events {
                lemma_spawns_push(
                    s.events,
                    EventModel::Despawn {
                        uuid,
                        x: s.peers[uuid].x,
                        y: s.peers[uuid].y,
                        rewards: REWARDS_ON_DEATH,
                    },
                    id,
                );
            }
        },
    }
}

/// Within one batch no identity is spawned twice, whatever the messages.
pub proof fn lemma_spawn_at_most_once(
    peers: Map<PeerIdentity, PeerModel>,
    r: Receiver,
    messages: Seq<MessageModel>,
    id: PeerIdentity,
)
    ensures
        guarded(run(fresh(peers), r, messages), id),
        spawns_of(run(fresh(peers), r, messages).events, id) <= 1,
    decreases messages.len(),
{
    if messages.len() > 0 {
        lemma_spawn_at_most_once(peers, r, messages.drop_last(), id);
        lemma_step_guarded(run(fresh(peers), r, messages.drop_last()), r, messages.last(), id);
    }
}

/// Whether `m` reports the position of `id` from the receiver's shard.
pub open spec fn sighting(r: Receiver, m: MessageModel, id: PeerIdentity) -> bool {
    m matches MessageModel::Position { uuid, level, .. } && uuid == id && r.current == Some(level)
}

/// Spawning is idempotent: one or more reports of one new peer within one
/// batch ask for exactly one representation and leave exactly one record.
pub proof fn lemma_spawn_idempotent(
    peers: Map<PeerIdentity, PeerModel>,
    r: Receiver,
    messages: Seq<MessageModel>,
    id: PeerIdentity,
)
    requires
        messages.len() >= 1,
        forall|i: int| 0 <= i < messages.len() ==> sighting(r, #[trigger] messages[i], id),
        id != r.local,
        !peers.contains_key(id),
    ensures
        spawns_of(run(fresh(peers), r, messages).events, id) == 1,
        run(fresh(peers), r, messages).peers.contains_key(id),
        run(fresh(peers), r, messages).peers.remove(id) == peers,
        run(fresh(peers), r, messages).peers[id].uuid == id,
    decreases messages.len(),
{
    let head = messages.drop_last();
    let before = run(fresh(peers), r, head);
    let m = messages.last();
    assert(sighting(r, messages[messages.len() - 1], id));
    lemma_spawn_at_most_once(peers, r, head, id);
    lemma_step_guarded(before, r, m, id);
    if head.len() == 0 {
        assert(before == fresh(peers));
        lemma_spawns_push(before.events, spawn_of(reported(m, r.now)), id);
        assert(run(fresh(peers), r, messages).peers.remove(id) =~= peers);
    } else {
        assert forall|i: int| 0 <= i < head.len() implies sighting(r, #[trigger] head[i], id) by {
            assert(head[i] == messages[i]);
        }
        lemma_spawn_idempotent(peers, r, head, id);
        assert(before.spawned.contains(id));
        assert(run(fresh(peers), r, messages).peers.remove(id) =~= before.peers.remove(id));
    }
}

/// The sum of a list of damages.
pub open spec fn total(damages: Seq<i32>) -> int
    decreases damages.len(),
{
    if damages.len() == 0 {
        0
    } else {
        total(damages.drop_last()) + damages.last()
    }
}

/// Whether `m` reports that `id` took `damage`.
pub open spec fn blow(m: MessageModel, id: PeerIdentity, damage: i32) -> bool {
    m matches MessageModel::Hit { uuid, damage: d, .. } && uuid == id && d == damage
}

/// After a sequence of hits the life of a known subject is what it was less
/// the sum of the damages, up to a multiple of 2^32 (the returned `wraps`).
proof fn lemma_hits_wrap(
    s: SyncModel,
    r: Receiver,
    messages: Seq<MessageModel>,
    id: PeerIdentity,
    damages: Seq<i32>,
) -> (wraps: int)
    requires
        s.peers.contains_key(id),
        messages.len() == damages.len(),
        forall|i: int| 0 <= i < messages.len() ==> blow(#[trigger] messages[i], id, damages[i]),
    ensures
        run(s, r, messages).peers.contains_key(id),
        run(s, r, messages).peers[id].life == s.peers[id].life - total(damages) + wraps
            * 0x1_0000_0000,
        run(s, r, messages).events == s.events,
    decreases messages.len(),
{
    if messages.len() == 0 {
        0
    } else {
        let head = messages.drop_last();
        assert forall|i: int| 0 <= i < head.len() implies blow(
            #[trigger] head[i],
            id,
            damages.drop_last()[i],
        ) by {
            assert(head[i] == messages[i]);
        }
        let k = lemma_hits_wrap(s, r, head, id, damages.drop_last());
        let before = run(s, r, head).peers[id].life;
        let d = damages.last();
        assert(blow(messages[messages.len() - 1], id, damages[damages.len() - 1]));
        assert(run(s, r, messages).peers[id].life == before.wrapping_sub(d));
        if before - d > i32::MAX {
            k - 1
        } else if before - d < i32::MIN {
            k + 1
        } else {
            k
        }
    }
}

/// Hits accumulate: after a sequence of hits on a known subject, its life is
/// what it was less the sum of the damages, wherever that is a 32-bit
/// number. The hits raise no event.
pub proof fn lemma_hit_accumulation(
    s: SyncModel,
    r: Receiver,
    messages: Seq<MessageModel>,
    id: PeerIdentity,
    damages: Seq<i32>,
)
    requires
        s.peers.contains_key(id),
        messages.len() == damages.len(),
        forall|i: int| 0 <= i < messages.len() ==> blow(#[trigger] messages[i], id, damages[i]),
        i32::MIN <= s.peers[id].life - total(damages) <= i32::MAX,
    ensures
        run(s, r, messages).peers.contains_key(id),
        run(s, r, messages).peers[id].life == s.peers[id].life - total(damages),
        run(s, r, messages).events == s.events,
{
    let k = lemma_hits_wrap(s, r, messages, id, damages);
}

} // verus!
