//! What the dispatcher and a transport say to each other.
//!
//! The transport itself is not part of this crate. It hands its events in
//! as values of [`TransportServerEvent`], and it is told what to write by
//! values of [`TransportCommand`].

use crate::jsonrpc::{Request, Response};
use vstd::prelude::*;

verus! {

/// Identifier that the transport gives to one client connection.
pub type ConnectionId = u64;

/// Event that a transport generates.
#[derive(Debug, Clone, PartialEq)]
pub enum TransportServerEvent {
    /// A client sent a message.
    Request {
        /// Connection of the client.
        id: ConnectionId,
        /// The message, parsed.
        request: Request,
    },
    /// A client closed its connection.
    Closed(ConnectionId),
}

/// A write that the transport has to perform.
#[derive(Debug, Clone, PartialEq)]
#[allow(inconsistent_fields)]
pub enum TransportCommand {
    /// Write `response` and keep the connection open.
    Send {
        /// Connection to write on.
        id: ConnectionId,
        /// What to write.
        response: Response,
    },
    /// Write `response`, if any, then release the connection.
    Finish {
        /// Connection to write on.
        id: ConnectionId,
        /// What to write.
        response: Option<Response>,
    },
}

impl TransportCommand {
    /// The connection that the write goes to.
    pub open spec fn connection(self) -> ConnectionId {
        match self {
            TransportCommand::Send { id, .. } => id,
            TransportCommand::Finish { id, .. } => id,
        }
    }
}

} // verus!
