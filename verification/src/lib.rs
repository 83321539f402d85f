//! Dispatch core of a JSON-RPC 2.0 server that talks to each client over one
//! WebSocket connection.
//!
//! The crate holds the state that sits between a transport and the handlers
//! of an application: the tracker that gathers the answers of a batch, the
//! registry of subscriptions, and the tables of registered methods. It does
//! no input or output of its own. Every operation that would write to the
//! transport returns the write as a value, and the events of the transport
//! are handed in as values.

pub mod base58;
pub mod batch;
pub mod batches;
pub mod json;
pub mod jsonrpc;
pub mod names;
pub mod raw;
pub mod registry;
pub mod server;
pub mod subscribers;
pub mod subscription_id;
pub mod transport;

pub use raw::{
    IntoSubscriptionErr, RawServer, RawServerEvent, RawServerRequest, RawServerRequestId,
    ServerSubscription, SubscriptionsClosedIter, SubscriptionsReadyIter,
};
pub use server::{BackgroundTask, IncomingRequest, RegisteredSubscription, Server};
pub use subscription_id::RawServerSubscriptionId;
