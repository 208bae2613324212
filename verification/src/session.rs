//! The beginning and the end of a multiplayer session.
//!
//! The channel to the other peers belongs to the transport. This library
//! only says when it is to be opened and closed. A single-player session,
//! with synchronisation switched off, asks for neither.

use vstd::prelude::*;

verus! {

/// What the transport is asked to do.
#[derive(Debug)]
pub enum ClientMessage {
    /// Open the channel to the endpoint at this address.
    Open(String),
    /// Close the channel.
    Close,
}

/// On entering a session: asks for the channel to `url` to be opened, if
/// synchronisation is switched on.
pub fn on_enter(online: bool, url: String) -> (request: Option<ClientMessage>)
    ensures
        online ==> request == Some(ClientMessage::Open(url)),
        !online ==> request is None,
{
    if online {
        Some(ClientMessage::Open(url))
    } else {
        None
    }
}

/// On leaving a session: asks for the channel to be closed, if
/// synchronisation is switched on. Nothing pending is flushed.
pub fn on_exit(online: bool) -> (request: Option<ClientMessage>)
    ensures
        online ==> request == Some(ClientMessage::Close),
        !online ==> request is None,
{
    if online {
        Some(ClientMessage::Close)
    } else {
        None
    }
}

} // verus!
