//! Telling the other peers where the local participant is.
//!
//! Once a tick the state of the local participant is held against what was
//! last sent. It is sent again when it has changed, and once in a while even
//! when it has not, so that a peer who has just arrived learns of it.

use crate::codec::{decoded, encode, encoded, DecodeError};
use crate::message::{MessageModel, PeerIdentity, RemoteMessage};
use crate::scalar::Scalar;
use vstd::prelude::*;

verus! {

/// The number of ticks after which an unchanged state is sent again.
pub const HEARTBEAT_TICKS: u32 = 60;

/// The local participant as the others are told of it: who it is, and what
/// of its state was last sent.
#[derive(Debug)]
pub struct Player {
    /// The name it shows to others.
    pub name: String,
    /// Its currency.
    pub golds: i32,
    /// The tick of the last report.
    pub last_idle_frame_count: u32,
    pub last_ilde_x: Scalar,
    pub last_ilde_y: Scalar,
    pub last_idle_vx: Scalar,
    pub last_idle_vy: Scalar,
    pub last_idle_life: i32,
    pub last_idle_max_life: i32,
}

/// The state of the local participant at this tick.
#[derive(Clone, Copy, Debug)]
pub struct LocalState {
    pub uuid: PeerIdentity,
    pub x: Scalar,
    pub y: Scalar,
    pub vx: Scalar,
    pub vy: Scalar,
    pub life: i32,
    pub max_life: i32,
    /// The angle it faces.
    pub angle: Scalar,
    /// How strongly it glows.
    pub intensity: Scalar,
}

/// Whether the channel to the other peers can carry a report right now:
/// synchronisation is switched on, the channel is open, and the local
/// participant is in a shard.
pub open spec fn connected(online: bool, open: bool, level: Option<i32>) -> bool {
    online && open && level is Some
}

impl Player {
    /// Whether a report is due at tick `now`: the participant is alive, and
    /// either more than `HEARTBEAT_TICKS` ticks have passed since the last
    /// report, or its position, its life or its greatest life is not what
    /// was last reported.
    pub open spec fn due(self, state: LocalState, now: u32) -> bool {
        &&& state.life > 0
        &&& {
            ||| now - self.last_idle_frame_count > HEARTBEAT_TICKS
            ||| state.x.differs(self.last_ilde_x)
            ||| state.y.differs(self.last_ilde_y)
            ||| state.life != self.last_idle_life
            ||| state.max_life != self.last_idle_max_life
        }
    }

    /// The participant after `state` has been reported at tick `now`.
    pub open spec fn noted(self, state: LocalState, now: u32) -> Player {
        Player {
            last_idle_frame_count: now,
            last_ilde_x: state.x,
            last_ilde_y: state.y,
            last_idle_vx: state.vx,
            last_idle_vy: state.vy,
            last_idle_life: state.life,
            last_idle_max_life: state.max_life,
            ..self
        }
    }

    /// The report of `state` from shard `level`: a self-report, so sender and
    /// subject are the same.
    pub open spec fn report(self, state: LocalState, level: i32) -> MessageModel {
        MessageModel::Position {
            sender: state.uuid,
            uuid: state.uuid,
            name: self.name@,
            golds: self.golds,
            level,
            x: state.x,
            y: state.y,
            vx: state.vx,
            vy: state.vy,
            life: state.life,
            max_life: state.max_life,
            angle: state.angle,
            intensity: state.intensity,
        }
    }

    /// A participant of whom nothing has been reported yet. Its first live
    /// state differs from what stands here in its life, so it is reported at
    /// once.
    pub fn new(name: String, golds: i32) -> (p: Player)
        ensures
            p.name == name,
            p.golds == golds,
            p.last_idle_frame_count == 0,
            p.last_idle_life == 0,
            p.last_idle_max_life == 0,
            p.last_ilde_x.bits == 0,
            p.last_ilde_y.bits == 0,
            p.last_idle_vx.bits == 0,
            p.last_idle_vy.bits == 0,
    {
        Player {
            name,
            golds,
            last_idle_frame_count: 0,
            last_ilde_x: Scalar { bits: 0 },
            last_ilde_y: Scalar { bits: 0 },
            last_idle_vx: Scalar { bits: 0 },
            last_idle_vy: Scalar { bits: 0 },
            last_idle_life: 0,
            last_idle_max_life: 0,
        }
    }

    /// Whether a report is due at tick `now`.
    pub fn is_due(&self, state: &LocalState, now: u32) -> (r: bool)
        ensures
            r == self.due(*state, now),
    {
        state.life > 0 && ((now > self.last_idle_frame_count && now - self.last_idle_frame_count
            > HEARTBEAT_TICKS) || state.x.differs_from(self.last_ilde_x) || state.y.differs_from(
            self.last_ilde_y,
        ) || state.life != self.last_idle_life || state.max_life != self.last_idle_max_life)
    }

    /// The report of `state` from shard `level`.
    pub fn position_message(&self, state: &LocalState, level: i32) -> (m: RemoteMessage)
        ensures
            m@ == self.report(*state, level),
    {
        RemoteMessage::Position {
            sender: state.uuid,
            uuid: state.uuid,
            name: self.name.clone(),
            golds: self.golds,
            level,
            x: state.x,
            y: state.y,
            vx: state.vx,
            vy: state.vy,
            life: state.life,
            max_life: state.max_life,
            angle: state.angle,
            intensity: state.intensity,
        }
    }
}

/// Decides at each tick whether to report the local participant, and if so
/// returns the frame to send and notes what was reported.
///
/// Nothing is sent while synchronisation is off, the channel is not open or
/// the participant is in no shard, and nothing once it is dead.
pub fn send_player_states(
    player: &mut Player,
    state: &LocalState,
    online: bool,
    open: bool,
    level: Option<i32>,
    frame_count: u32,
) -> (frame: Option<Vec<u8>>)
    ensures
        frame is Some <==> connected(online, open, level) && old(player).due(*state, frame_count),
        frame matches Some(bytes) ==> {
            &&& bytes@ == encoded(old(player).report(*state, level->0))
            &&& decoded(bytes@) == Ok::<MessageModel, DecodeError>(
                old(player).report(*state, level->0),
            )
            &&& *final(player) == old(player).noted(*state, frame_count)
        },
        frame is None ==> *final(player) == *old(player),
{
    if !online || !open {
        return None;
    }
    match level {
        None => None,
        Some(level) => {
            if !player.is_due(state, frame_count) {
                return None;
            }
            let bytes = encode(&player.position_message(state, level));
            player.last_idle_frame_count = frame_count;
            player.last_ilde_x = state.x;
            player.last_ilde_y = state.y;
            player.last_idle_vx = state.vx;
            player.last_idle_vy = state.vy;
            player.last_idle_life = state.life;
            player.last_idle_max_life = state.max_life;
            Some(bytes)
        },
    }
}

/// The announcement that `uuid` has fired a projectile from `(x, y)` in
/// shard `level`.
pub open spec fn shot(
    uuid: PeerIdentity,
    level: i32,
    x: Scalar,
    y: Scalar,
    vx: Scalar,
    vy: Scalar,
    bullet_lifetime: u32,
    bullet_type: u32,
) -> MessageModel {
    MessageModel::Fire { sender: uuid, uuid, level, x, y, vx, vy, bullet_lifetime, bullet_type }
}

/// Returns the frame that tells the other peers of a projectile that the
/// local participant has fired, or `None` while there is nobody to tell.
pub fn announce_fire(
    uuid: PeerIdentity,
    online: bool,
    open: bool,
    level: Option<i32>,
    x: Scalar,
    y: Scalar,
    vx: Scalar,
    vy: Scalar,
    bullet_lifetime: u32,
    bullet_type: u32,
) -> (frame: Option<Vec<u8>>)
    ensures
        frame is Some <==> connected(online, open, level),
        frame matches Some(bytes) ==> {
            let m = shot(uuid, level->0, x, y, vx, vy, bullet_lifetime, bullet_type);
            bytes@ == encoded(m) && decoded(bytes@) == Ok::<MessageModel, DecodeError>(m)
        },
{
    if !online || !open {
        return None;
    }
    match level {
        None => None,
        Some(level) => {
            let m = RemoteMessage::Fire {
                sender: uuid,
                uuid,
                level,
                x,
                y,
                vx,
                vy,
                bullet_lifetime,
                bullet_type,
            };
            Some(encode(&m))
        },
    }
}

} // verus!
