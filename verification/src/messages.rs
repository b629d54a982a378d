//! The domain messages exchanged with clients.
//!
//! Inbound text frames decode (outside the library) into a `ClientMessage`;
//! the only outbound push is a `ServerMessage::Update`. Every decoded
//! inbound message is wrapped in a `TaggedMessage` envelope carrying the
//! originating connection's identifier and its write-capability flag before
//! it reaches the namespace's mailbox.

use vstd::prelude::*;

verus! {

/// A message a client sends to the broker.
pub enum ClientMessage {
    Subscribe { store: String, initial: String },
    Unsubscribe { store: String },
    SetValue { store: String, value: String },
    Get { store: String },
}

/// A message the broker pushes to a client: the current value of a store.
pub enum ServerMessage {
    Update { store: String, value: String },
}

/// An inbound message wrapped with the identity and the write capability of
/// the connection it came from: the unit the dispatcher consumes.
pub struct TaggedMessage {
    pub socket_id: usize,
    pub message: ClientMessage,
    pub tag: bool,
}

} // verus!
