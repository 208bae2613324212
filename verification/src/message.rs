//! The four messages that peers exchange.

use crate::scalar::Scalar;
use vstd::prelude::*;

verus! {

/// A participant's identity: 128 bits, unique for the lifetime of a session,
/// ordered as an unsigned number.
pub type PeerIdentity = u128;

/// A message between peers.
///
/// `sender` is the peer that wrote the message, `uuid` the participant that
/// the message is about. In a self-report the two are equal; a damage report
/// names somebody else.
#[derive(Clone, Debug)]
pub enum RemoteMessage {
    /// Where a participant is, and in what state.
    Position {
        sender: PeerIdentity,
        uuid: PeerIdentity,
        name: String,
        golds: i32,
        level: i32,
        x: Scalar,
        y: Scalar,
        vx: Scalar,
        vy: Scalar,
        life: i32,
        max_life: i32,
        angle: Scalar,
        intensity: Scalar,
    },
    /// A projectile has been fired.
    Fire {
        sender: PeerIdentity,
        uuid: PeerIdentity,
        level: i32,
        x: Scalar,
        y: Scalar,
        vx: Scalar,
        vy: Scalar,
        bullet_lifetime: u32,
        bullet_type: u32,
    },
    /// A participant has taken damage.
    Hit { sender: PeerIdentity, uuid: PeerIdentity, damage: i32 },
    /// A participant has died.
    Die { sender: PeerIdentity, uuid: PeerIdentity },
}

/// What a message says, with the display name as a sequence of characters.
pub enum MessageModel {
    Position {
        sender: PeerIdentity,
        uuid: PeerIdentity,
        name: Seq<char>,
        golds: i32,
        level: i32,
        x: Scalar,
        y: Scalar,
        vx: Scalar,
        vy: Scalar,
        life: i32,
        max_life: i32,
        angle: Scalar,
        intensity: Scalar,
    },
    Fire {
        sender: PeerIdentity,
        uuid: PeerIdentity,
        level: i32,
        x: Scalar,
        y: Scalar,
        vx: Scalar,
        vy: Scalar,
        bullet_lifetime: u32,
        bullet_type: u32,
    },
    Hit { sender: PeerIdentity, uuid: PeerIdentity, damage: i32 },
    Die { sender: PeerIdentity, uuid: PeerIdentity },
}

impl View for RemoteMessage {
    type V = MessageModel;

    open spec fn view(&self) -> MessageModel {
        match *self {
            RemoteMessage::Position {
                sender,
                uuid,
                name,
                golds,
                level,
                x,
                y,
                vx,
                vy,
                life,
                max_life,
                angle,
                intensity,
            } => MessageModel::Position {
                sender,
                uuid,
                name: name@,
                golds,
                level,
                x,
                y,
                vx,
                vy,
                life,
                max_life,
                angle,
                intensity,
            },
            RemoteMessage::Fire {
                sender,
                uuid,
                level,
                x,
                y,
                vx,
                vy,
                bullet_lifetime,
                bullet_type,
            } => MessageModel::Fire {
                sender,
                uuid,
                level,
                x,
                y,
                vx,
                vy,
                bullet_lifetime,
                bullet_type,
            },
            RemoteMessage::Hit { sender, uuid, damage } => MessageModel::Hit {
                sender,
                uuid,
                damage,
            },
            RemoteMessage::Die { sender, uuid } => MessageModel::Die { sender, uuid },
        }
    }
}

impl MessageModel {
    /// The peer that wrote the message.
    pub open spec fn sender(self) -> PeerIdentity {
        match self {
            MessageModel::Position { sender, .. } => sender,
            MessageModel::Fire { sender, .. } => sender,
            MessageModel::Hit { sender, .. } => sender,
            MessageModel::Die { sender, .. } => sender,
        }
    }

    /// The participant that the message is about.
    pub open spec fn subject(self) -> PeerIdentity {
        match self {
            MessageModel::Position { uuid, .. } => uuid,
            MessageModel::Fire { uuid, .. } => uuid,
            MessageModel::Hit { uuid, .. } => uuid,
            MessageModel::Die { uuid, .. } => uuid,
        }
    }
}

impl RemoteMessage {
    /// The peer that wrote the message.
    pub fn sender(&self) -> (id: PeerIdentity)
        ensures
            id == self@.sender(),
    {
        match self {
            RemoteMessage::Position { sender, .. } => *sender,
            RemoteMessage::Fire { sender, .. } => *sender,
            RemoteMessage::Hit { sender, .. } => *sender,
            RemoteMessage::Die { sender, .. } => *sender,
        }
    }

    /// The participant that the message is about.
    pub fn subject(&self) -> (id: PeerIdentity)
        ensures
            id == self@.subject(),
    {
        match self {
            RemoteMessage::Position { uuid, .. } => *uuid,
            RemoteMessage::Fire { uuid, .. } => *uuid,
            RemoteMessage::Hit { uuid, .. } => *uuid,
            RemoteMessage::Die { uuid, .. } => *uuid,
        }
    }
}

} // verus!
