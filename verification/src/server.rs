//! The registered-handler server.
//!
//! The server has two halves. The front end is what application code
//! holds: it rejects a method name that is registered already and turns each
//! operation into a message for the back end. The back end owns the raw
//! dispatcher and the tables of registered methods; it takes the messages of
//! the front end and the events of the dispatcher and says, for each, what is
//! to be written to the transport and what is to be handed to which handler.
//!
//! Queues, handlers and the transport are not part of this crate. A handler
//! is known here by the number that the front end gave it.

use crate::base58::base58_encoded;
use crate::batches::{awaits, call_of, with_answer};
use crate::jsonrpc::{ErrorCode, JsonValue, Params, Response, RpcError};
use crate::names::NameTable;
use crate::raw::{
    promoted, steps, takes_in, EventView, RawServer, RawServerEvent, RawServerRequestId,
    RawServerView, Step,
};
use crate::registry::SubscriptionState;
use crate::subscribers::{without_ids, Subscribers, SubscribersView};
use crate::subscription_id::{id_bytes_of_params, lemma_id_by_bytes, RawServerSubscriptionId};
use crate::transport::{ConnectionId, TransportCommand, TransportServerEvent};
use vstd::prelude::*;

verus! {

/// The number by which the two halves know a handler.
pub type HandlerId = usize;

/// Message that the front end sends to the back end.
#[derive(Debug, PartialEq)]
pub enum FrontToBack {
    /// Registers a notifications endpoint.
    RegisterNotifications {
        /// Name of the method.
        name: String,
        /// Where to hand incoming notifications.
        handler: HandlerId,
        /// Whether a notification may be dropped when the handler is behind.
        allow_losses: bool,
    },
    /// Registers a method. The server will then handle requests using this
    /// method.
    RegisterMethod {
        /// Name of the method.
        name: String,
        /// Where to hand requests.
        handler: HandlerId,
    },
    /// Send a response to a request that a client made.
    AnswerRequest {
        /// Request to answer.
        request_id: RawServerRequestId,
        /// Response to send back.
        answer: Result<JsonValue, RpcError>,
    },
    /// Registers a subscription. The server will then handle subscription
    /// requests of that method.
    RegisterSubscription {
        /// Unique identifier decided by the front end in order to identify
        /// this registered subscription.
        unique_id: usize,
        /// Name of the method that registers the subscription.
        subscribe_method: String,
        /// Name of the method that unregisters the subscription.
        unsubscribe_method: String,
    },
    /// Send out a notification to all the clients registered to a
    /// subscription.
    SendOutNotif {
        /// The unique id of the registered subscription.
        unique_id: usize,
        /// Notification to send to the subscribed clients.
        notification: JsonValue,
    },
}

/// Error of a registration.
#[derive(Debug, Clone, PartialEq, Eq)]
pub enum RegisterError {
    /// The method name is registered already.
    MethodAlreadyRegistered(String),
}

/// The front end, as contracts see it.
pub struct ServerView {
    /// The names of the methods registered so far, of every kind.
    pub names: Set<Seq<char>>,
    /// The unique id that the next registered subscription gets.
    pub next_unique_id: usize,
    /// The number that the next handler gets.
    pub next_handler: HandlerId,
}

/// The front end of the server.
pub struct Server {
    /// List of methods (for RPC queries, subscriptions, and
    /// unsubscriptions) that have been registered. Serves no purpose except
    /// to check for duplicates.
    registered_methods: NameTable<()>,
    /// Next unique id used when registering a subscription.
    next_subscription_unique_id: usize,
    /// Next number used when registering a handler.
    next_handler: HandlerId,
}

impl View for Server {
    type V = ServerView;

    closed spec fn view(&self) -> ServerView {
        ServerView {
            names: self.registered_methods@.dom(),
            next_unique_id: self.next_subscription_unique_id,
            next_handler: self.next_handler,
        }
    }
}

/// The number after `n`, starting over after the largest.
pub open spec fn successor(n: usize) -> usize {
    if n == usize::MAX {
        0
    } else {
        (n + 1) as usize
    }
}

/// Pub-sub subscription that's been registered.
#[derive(Debug)]
pub struct RegisteredSubscription {
    /// The unique id under which the back end knows the subscription.
    unique_id: usize,
}

/// Active request that needs to be answered.
#[derive(Debug)]
pub struct IncomingRequest {
    /// Identifier of the request towards the server.
    request_id: RawServerRequestId,
    /// Parameters of the request.
    params: Params,
}

impl Server {
    /// The invariant of the front end.
    pub closed spec fn wf(&self) -> bool {
        self.registered_methods.wf()
    }

    /// Initializes a front end with no method registered.
    pub fn new() -> (server: Server)
        ensures
            server.wf(),
            server@.names == Set::<Seq<char>>::empty(),
            server@.next_unique_id == 0,
            server@.next_handler == 0,
    {
        let server = Server {
            registered_methods: NameTable::new(),
            next_subscription_unique_id: 0,
            next_handler: 0,
        };
        assert(server@.names =~= Set::<Seq<char>>::empty());
        server
    }

    /// Returns whether `method_name` is registered.
    pub fn is_registered(&self, method_name: &str) -> (r: bool)
        ensures
            r == self@.names.contains(method_name@),
    {
        self.registered_methods.contains(method_name)
    }

    /// Registers a notification method name towards the server.
    ///
    /// If `allow_losses` is true, then the server is allowed to drop
    /// notifications if the handler is too slow to process them.
    ///
    /// Returns the message that tells the back end, with the number given
    /// to the handler. Returns an error, and changes nothing, if the method
    /// name was already registered.
    pub fn register_notification(&mut self, method_name: String, allow_losses: bool) -> (r: Result<
        FrontToBack,
        RegisterError,
    >)
        requires
            old(self).wf(),
        ensures
            final(self).wf(),
            match r {
                Ok(message) => {
                    &&& !old(self)@.names.contains(method_name@)
                    &&& final(self)@.names == old(self)@.names.insert(method_name@)
                    &&& final(self)@.next_unique_id == old(self)@.next_unique_id
                    &&& final(self)@.next_handler == successor(old(self)@.next_handler)
                    &&& message == FrontToBack::RegisterNotifications {
                        name: method_name,
                        handler: old(self)@.next_handler,
                        allow_losses,
                    }
                },
                Err(RegisterError::MethodAlreadyRegistered(name)) => {
                    &&& old(self)@.names.contains(method_name@)
                    &&& name == method_name
                    &&& final(self)@ == old(self)@
                },
            },
    {
        if !self.registered_methods.insert(method_name.clone(), ()) {
            assert(self@.names =~= old(self)@.names);
            return Err(RegisterError::MethodAlreadyRegistered(method_name));
        }
        let handler = self.next_handler;
        self.next_handler = handler.wrapping_add(1);
        Ok(FrontToBack::RegisterNotifications { name: method_name, handler, allow_losses })
    }

    /// Registers a method towards the server.
    ///
    /// Returns the message that tells the back end, with the number given
    /// to the handler. Returns an error, and changes nothing, if the method
    /// name was already registered.
    pub fn register_method(&mut self, method_name: String) -> (r: Result<FrontToBack, RegisterError>)
        requires
            old(self).wf(),
        ensures
            final(self).wf(),
            match r {
                Ok(message) => {
                    &&& !old(self)@.names.contains(method_name@)
                    &&& final(self)@.names == old(self)@.names.insert(method_name@)
                    &&& final(self)@.next_unique_id == old(self)@.next_unique_id
                    &&& final(self)@.next_handler == successor(old(self)@.next_handler)
                    &&& message == FrontToBack::RegisterMethod {
                        name: method_name,
                        handler: old(self)@.next_handler,
                    }
                },
                Err(RegisterError::MethodAlreadyRegistered(name)) => {
                    &&& old(self)@.names.contains(method_name@)
                    &&& name == method_name
                    &&& final(self)@ == old(self)@
                },
            },
    {
        if !self.registered_methods.insert(method_name.clone(), ()) {
            assert(self@.names =~= old(self)@.names);
            return Err(RegisterError::MethodAlreadyRegistered(method_name));
        }
        let handler = self.next_handler;
        self.next_handler = handler.wrapping_add(1);
        Ok(FrontToBack::RegisterMethod { name: method_name, handler })
    }

    /// Registers a subscription towards the server.
    ///
    /// The two names are registered together or not at all. Returns the
    /// handle of the subscription and the message that tells the back end.
    /// Returns an error, and changes nothing, if one of the method names was
    /// already registered or if the two are the same; the error names the
    /// subscribe method if that was registered, else the unsubscribe
    /// method.
    pub fn register_subscription(
        &mut self,
        subscribe_method_name: String,
        unsubscribe_method_name: String,
    ) -> (r: Result<(RegisteredSubscription, FrontToBack), RegisterError>)
        requires
            old(self).wf(),
        ensures
            final(self).wf(),
            match r {
                Ok((subscription, message)) => {
                    &&& !old(self)@.names.contains(subscribe_method_name@)
                    &&& !old(self)@.names.contains(unsubscribe_method_name@)
                    &&& subscribe_method_name@ != unsubscribe_method_name@
                    &&& final(self)@.names == old(self)@.names.insert(
                        subscribe_method_name@,
                    ).insert(unsubscribe_method_name@)
                    &&& final(self)@.next_unique_id == successor(old(self)@.next_unique_id)
                    &&& final(self)@.next_handler == old(self)@.next_handler
                    &&& subscription.unique_id() == old(self)@.next_unique_id
                    &&& message == FrontToBack::RegisterSubscription {
                        unique_id: old(self)@.next_unique_id,
                        subscribe_method: subscribe_method_name,
                        unsubscribe_method: unsubscribe_method_name,
                    }
                },
                Err(RegisterError::MethodAlreadyRegistered(name)) => {
                    &&& final(self)@ == old(self)@
                    &&& if old(self)@.names.contains(subscribe_method_name@) {
                        name == subscribe_method_name
                    } else {
                        &&& name == unsubscribe_method_name
                        &&& old(self)@.names.contains(unsubscribe_method_name@)
                            || subscribe_method_name@ == unsubscribe_method_name@
                    }
                },
            },
    {
        if !self.registered_methods.insert(subscribe_method_name.clone(), ()) {
            assert(self@.names =~= old(self)@.names);
            return Err(RegisterError::MethodAlreadyRegistered(subscribe_method_name));
        }
        if !self.registered_methods.insert(unsubscribe_method_name.clone(), ()) {
            let _ = self.registered_methods.remove(subscribe_method_name.as_str());
            assert(self@.names =~= old(self)@.names);
            return Err(RegisterError::MethodAlreadyRegistered(unsubscribe_method_name));
        }
        let unique_id = self.next_subscription_unique_id;
        self.next_subscription_unique_id = unique_id.wrapping_add(1);
        Ok(
            (
                RegisteredSubscription { unique_id },
                FrontToBack::RegisterSubscription {
                    unique_id,
                    subscribe_method: subscribe_method_name,
                    unsubscribe_method: unsubscribe_method_name,
                },
            ),
        )
    }
}

impl RegisteredSubscription {
    /// The unique id under which the back end knows the subscription.
    pub closed spec fn unique_id(&self) -> usize {
        self.unique_id
    }

    /// Sends out a value to all the subscribing clients: returns the
    /// message that asks the back end to.
    pub fn send(&self, value: JsonValue) -> (message: FrontToBack)
        ensures
            message == (FrontToBack::SendOutNotif {
                unique_id: self.unique_id(),
                notification: value,
            }),
    {
        FrontToBack::SendOutNotif { unique_id: self.unique_id, notification: value }
    }
}

impl IncomingRequest {
    /// The request that the back end handed to a handler.
    pub closed spec fn request_id(&self) -> RawServerRequestId {
        self.request_id
    }

    /// The parameters of the request.
    pub closed spec fn spec_params(&self) -> Params {
        self.params
    }

    /// Wraps a request that the back end handed to a handler.
    pub fn new(request_id: RawServerRequestId, params: Params) -> (request: IncomingRequest)
        ensures
            request.request_id() == request_id,
            request.spec_params() == params,
    {
        IncomingRequest { request_id, params }
    }

    /// Returns the parameters of the request.
    pub fn params(&self) -> (params: &Params)
        ensures
            *params == self.spec_params(),
    {
        &self.params
    }

    /// Respond to the request: returns the message that hands `response`
    /// to the back end.
    pub fn respond(self, response: Result<JsonValue, RpcError>) -> (message: FrontToBack)
        ensures
            message == (FrontToBack::AnswerRequest {
                request_id: self.request_id(),
                answer: response,
            }),
    {
        FrontToBack::AnswerRequest { request_id: self.request_id, answer: response }
    }
}

/// What the back end hands to a handler of the application.
#[derive(Debug, Clone, PartialEq)]
pub enum Delivery {
    /// A notification for the handler of its method.
    Notification {
        /// The handler.
        handler: HandlerId,
        /// Parameters of the notification.
        params: Params,
        /// Whether the notification may be dropped when the queue of the
        /// handler is full. Where it may not, the back end waits for room.
        allow_losses: bool,
    },
    /// A request for the handler of its method. Where the queue of the
    /// handler has no room, the request is refused with
    /// [`BackgroundTask::refuse_request`].
    Request {
        /// The handler.
        handler: HandlerId,
        /// The request, to answer later.
        request_id: RawServerRequestId,
        /// Parameters of the request.
        params: Params,
    },
    /// A request to subscribe. The caller asks the transport whether it can
    /// write more than once on `connection` and hands the answer to
    /// [`BackgroundTask::complete_subscription`].
    Subscribe {
        /// The request.
        request_id: RawServerRequestId,
        /// The registered subscription that the method belongs to.
        unique_id: usize,
        /// Connection of the request; `None` if it has closed.
        connection: Option<ConnectionId>,
    },
}

/// What [`BackgroundTask::next_action`] asks of its caller: first the
/// write, then the delivery. When `idle` is set nothing is queued, and the
/// caller waits for the front end or the transport.
#[derive(Debug, Clone, PartialEq)]
pub struct Action {
    /// What to write to the transport.
    pub write: Option<TransportCommand>,
    /// What to hand to a handler.
    pub delivery: Option<Delivery>,
    /// Whether the dispatcher has nothing more to do for now.
    pub idle: bool,
}

/// The back end, as contracts see it.
pub struct BackgroundView {
    /// The raw dispatcher.
    pub server: RawServerView,
    /// The registered notification methods, each with its handler and
    /// whether losses are allowed.
    pub notifications: Map<Seq<char>, (HandlerId, bool)>,
    /// The registered methods, each with its handler.
    pub methods: Map<Seq<char>, HandlerId>,
    /// The subscribe methods, each with the unique id of its subscription.
    pub subscribe_methods: Map<Seq<char>, usize>,
    /// The unsubscribe methods, each with the unique id of its
    /// subscription.
    pub unsubscribe_methods: Map<Seq<char>, usize>,
    /// The registered subscriptions and their subscribers.
    pub subscribers: SubscribersView,
}

impl BackgroundView {
    /// The invariant of the back end: those of the dispatcher and of the
    /// subscribers, and every subscriber is a live subscription of the
    /// dispatcher.
    pub open spec fn wf(self) -> bool {
        &&& self.server.wf()
        &&& self.subscribers.wf()
        &&& forall|i: int|
            0 <= i < self.subscribers.entries.len()
                ==> self.server.registry.subscriptions.dom().contains(
                (#[trigger] self.subscribers.entries[i]).0@,
            )
    }
}

/// Whether `error` is the plain error of kind `code`: its standard
/// message, no data.
pub open spec fn is_plain_error(error: RpcError, code: ErrorCode) -> bool {
    &&& error.code == code
    &&& error.message@ == code.spec_description()
    &&& error.data is None
}

/// Whether `write` pushes `message` on the subscription `id`, whose state is
/// `state`.
pub open spec fn is_push(
    write: TransportCommand,
    state: SubscriptionState,
    id: RawServerSubscriptionId,
    message: JsonValue,
) -> bool {
    &&& write matches TransportCommand::Send { id: connection, response }
    &&& connection == state.raw_id
    &&& response matches Response::Notif(notif)
    &&& notif.method == state.method
    &&& notif.subscription@ == base58_encoded(id@)
    &&& notif.result == message
}

/// The subscribers of `unique_id` that a notification is pushed to, oldest
/// first: those whose subscribe reply has left.
pub open spec fn push_targets(
    subscriptions: Map<Seq<u8>, SubscriptionState>,
    entries: Seq<(RawServerSubscriptionId, usize)>,
    unique_id: usize,
) -> Seq<RawServerSubscriptionId>
    decreases entries.len(),
{
    if entries.len() == 0 {
        Seq::empty()
    } else {
        let before = push_targets(subscriptions, entries.drop_last(), unique_id);
        let (id, owner) = entries.last();
        if owner == unique_id && subscriptions.dom().contains(id@) && !subscriptions[id@].pending {
            before.push(id)
        } else {
            before
        }
    }
}

/// What an unsubscribe request does to the subscribers: the subscriber that
/// the parameters name leaves the list of `unique_id` if it is in it.
pub open spec fn unsubscribed(
    before: SubscribersView,
    named: Option<Seq<u8>>,
    unique_id: usize,
    after: SubscribersView,
) -> bool {
    &&& after.registered == before.registered
    &&& match named {
        Some(bytes) => {
            ||| exists|i: int|
                {
                    &&& 0 <= i < before.entries.len()
                    &&& (#[trigger] before.entries[i]).0@ == bytes
                    &&& before.entries[i].1 == unique_id
                    &&& after.entries == before.entries.remove(i)
                }
            ||| {
                &&& after.entries == before.entries
                &&& forall|i: int|
                    0 <= i < before.entries.len() ==> !((#[trigger] before.entries[i]).0@ == bytes
                        && before.entries[i].1 == unique_id)
            }
        },
        None => after.entries == before.entries,
    }
}

/// What the back end makes of a request that the dispatcher showed.
///
/// The method of the request is looked up among the registered methods,
/// then among the subscribe methods, then among the unsubscribe methods. A
/// registered method has the request delivered to its handler. A subscribe
/// method has the caller asked about the connection. An unsubscribe method
/// takes the named subscriber off its list. A method that is none of these
/// is answered with a method-not-found error.
pub open spec fn routed_request(
    before: BackgroundView,
    mid: RawServerView,
    id: RawServerRequestId,
    delivery: Option<Delivery>,
    after: BackgroundView,
) -> bool {
    let call = call_of(mid.batches, id.inner);
    let connection = mid.batches[id.inner.outer as int]->Some_0.connection;
    if before.methods.dom().contains(call.method@) {
        &&& after == BackgroundView { server: mid, ..before }
        &&& delivery matches Some(Delivery::Request { handler, request_id, params })
        &&& handler == before.methods[call.method@]
        &&& request_id == id
        &&& params.same_as(call.params)
    } else if before.subscribe_methods.dom().contains(call.method@) {
        &&& after == BackgroundView { server: mid, ..before }
        &&& delivery == Some(
            Delivery::Subscribe {
                request_id: id,
                unique_id: before.subscribe_methods[call.method@],
                connection,
            },
        )
    } else if before.unsubscribe_methods.dom().contains(call.method@) {
        &&& delivery is None
        &&& after == BackgroundView { server: mid, subscribers: after.subscribers, ..before }
        &&& unsubscribed(
            before.subscribers,
            id_bytes_of_params(call.params),
            before.unsubscribe_methods[call.method@],
            after.subscribers,
        )
    } else {
        &&& delivery is None
        &&& after == BackgroundView { server: after.server, ..before }
        &&& after.server.registry == mid.registry
        &&& exists|error: RpcError|
            {
                &&& is_plain_error(error, ErrorCode::MethodNotFound)
                &&& #[trigger] with_answer(mid.batches, id.inner, Err(error)) == after.server.batches
            }
    }
}

/// What the back end makes of what the dispatcher showed, where `mid` is
/// the dispatcher after it showed it.
///
/// A notification goes to the handler of its method, if the method is
/// registered. A request is routed as [`routed_request`] says. Nothing is
/// done about subscriptions that are now ready.
pub open spec fn routed(
    before: BackgroundView,
    mid: RawServerView,
    event: Option<EventView>,
    delivery: Option<Delivery>,
    after: BackgroundView,
) -> bool {
    match event {
        Some(EventView::Notification(notification)) => {
            &&& after == BackgroundView { server: mid, ..before }
            &&& delivery == if before.notifications.dom().contains(notification.method@) {
                Some(
                    Delivery::Notification {
                        handler: before.notifications[notification.method@].0,
                        params: notification.params,
                        allow_losses: before.notifications[notification.method@].1,
                    },
                )
            } else {
                None
            }
        },
        Some(EventView::Request(id)) => routed_request(before, mid, id, delivery, after),
        _ => delivery is None && after == BackgroundView { server: mid, ..before },
    }
}

/// What a message of the front end does to the back end, and which writes
/// it asks for.
pub open spec fn handled(
    before: BackgroundView,
    message: FrontToBack,
    writes: Seq<TransportCommand>,
    after: BackgroundView,
) -> bool {
    match message {
        FrontToBack::RegisterNotifications { name, handler, allow_losses } => {
            &&& writes.len() == 0
            &&& after == BackgroundView {
                notifications: before.notifications.insert(name@, (handler, allow_losses)),
                ..before
            }
        },
        FrontToBack::RegisterMethod { name, handler } => {
            &&& writes.len() == 0
            &&& after == BackgroundView { methods: before.methods.insert(name@, handler), ..before }
        },
        FrontToBack::RegisterSubscription { unique_id, subscribe_method, unsubscribe_method } => {
            &&& writes.len() == 0
            &&& after == BackgroundView {
                subscribe_methods: before.subscribe_methods.insert(subscribe_method@, unique_id),
                unsubscribe_methods: before.unsubscribe_methods.insert(
                    unsubscribe_method@,
                    unique_id,
                ),
                subscribers: SubscribersView {
                    registered: before.subscribers.registered.insert(unique_id),
                    ..before.subscribers
                },
                ..before
            }
        },
        FrontToBack::AnswerRequest { request_id, answer } => {
            &&& writes.len() == 0
            &&& after == BackgroundView {
                server: RawServerView {
                    batches: if awaits(before.server.batches, request_id.inner) {
                        with_answer(before.server.batches, request_id.inner, answer)
                    } else {
                        before.server.batches
                    },
                    ..before.server
                },
                ..before
            }
        },
        FrontToBack::SendOutNotif { unique_id, notification } => {
            let targets = push_targets(
                before.server.registry.subscriptions,
                before.subscribers.entries,
                unique_id,
            );
            &&& after == before
            &&& writes.len() == targets.len()
            &&& forall|k: int|
                0 <= k < writes.len() ==> is_push(
                    #[trigger] writes[k],
                    before.server.registry.subscriptions[targets[k]@],
                    targets[k],
                    notification,
                )
        },
    }
}

/// Whether the subscribe request `request_id` can become a subscription of
/// `unique_id`: the request waits for its answer, its connection is open,
/// the transport can write more than once on it, and `unique_id` is
/// registered.
pub open spec fn can_subscribe(
    before: BackgroundView,
    request_id: RawServerRequestId,
    unique_id: usize,
    supports_resuming: bool,
) -> bool {
    &&& awaits(before.server.batches, request_id.inner)
    &&& before.server.batches[request_id.inner.outer as int]->Some_0.connection is Some
    &&& supports_resuming
    &&& before.subscribers.registered.contains(unique_id)
}

/// What completing the subscribe request `request_id` does to the back end.
///
/// Where no subscription is made nothing changes. Where `id` is made, the
/// dispatcher has turned the request into the subscription `id`, as
/// [`promoted`] says, and `id` is the newest subscriber of `unique_id`.
pub open spec fn subscribed(
    before: BackgroundView,
    request_id: RawServerRequestId,
    unique_id: usize,
    made: Option<RawServerSubscriptionId>,
    after: BackgroundView,
) -> bool {
    match made {
        None => after == before,
        Some(id) => {
            &&& after == BackgroundView {
                server: after.server,
                subscribers: after.subscribers,
                ..before
            }
            &&& promoted(before.server, request_id, true, Ok(id), after.server)
            &&& after.subscribers.registered == before.subscribers.registered
            &&& after.subscribers.entries == before.subscribers.entries.push((id, unique_id))
        },
    }
}

/// What refusing the request `request_id` does to the back end: where the
/// request waits for its answer, a server error of code 0 is its answer;
/// else nothing changes.
pub open spec fn refused(
    before: BackgroundView,
    request_id: RawServerRequestId,
    after: BackgroundView,
) -> bool {
    &&& after == BackgroundView { server: after.server, ..before }
    &&& after.server.registry == before.server.registry
    &&& if awaits(before.server.batches, request_id.inner) {
        exists|error: RpcError|
            {
                &&& is_plain_error(error, ErrorCode::ServerError(0))
                &&& #[trigger] with_answer(before.server.batches, request_id.inner, Err(error))
                    == after.server.batches
            }
    } else {
        after.server.batches == before.server.batches
    }
}

/// The back end of the server: the raw dispatcher and the tables of what
/// the application registered.
pub struct BackgroundTask {
    /// The raw dispatcher.
    server: RawServer,
    /// List of notification methods that the user has registered, with the
    /// handler to hand incoming notifications to.
    registered_notifications: NameTable<(HandlerId, bool)>,
    /// List of methods that the user has registered, with the handler to
    /// hand incoming requests to.
    registered_methods: NameTable<HandlerId>,
    /// For each registered subscription, a subscribe method linked to a
    /// unique identifier for that subscription.
    subscribe_methods: NameTable<usize>,
    /// For each registered subscription, an unsubscribe method linked to a
    /// unique identifier for that subscription.
    unsubscribe_methods: NameTable<usize>,
    /// For each registered subscription, the clients that are registered
    /// towards us.
    subscribers: Subscribers,
}

impl View for BackgroundTask {
    type V = BackgroundView;

    closed spec fn view(&self) -> BackgroundView {
        BackgroundView {
            server: self.server@,
            notifications: self.registered_notifications@,
            methods: self.registered_methods@,
            subscribe_methods: self.subscribe_methods@,
            unsubscribe_methods: self.unsubscribe_methods@,
            subscribers: self.subscribers@,
        }
    }
}

impl BackgroundTask {
    /// The invariant of the back end, see [`BackgroundView::wf`].
    pub closed spec fn wf(&self) -> bool {
        &&& self@.wf()
        &&& self.registered_notifications.wf()
        &&& self.registered_methods.wf()
        &&& self.subscribe_methods.wf()
        &&& self.unsubscribe_methods.wf()
    }

    /// What the invariant says of the state that contracts see.
    pub proof fn lemma_wf(&self)
        requires
            self.wf(),
        ensures
            self@.wf(),
    {
    }

    /// Starts a back end with nothing registered and an empty dispatcher.
    pub fn new() -> (task: BackgroundTask)
        ensures
            task.wf(),
            task@.server.batches.len() == 0,
            task@.server.registry.subscriptions == Map::<Seq<u8>, SubscriptionState>::empty(),
            task@.server.registry.counts == Map::<ConnectionId, usize>::empty(),
            task@.notifications == Map::<Seq<char>, (HandlerId, bool)>::empty(),
            task@.methods == Map::<Seq<char>, HandlerId>::empty(),
            task@.subscribe_methods == Map::<Seq<char>, usize>::empty(),
            task@.unsubscribe_methods == Map::<Seq<char>, usize>::empty(),
            task@.subscribers.registered == Set::<usize>::empty(),
            task@.subscribers.entries.len() == 0,
    {
        BackgroundTask {
            server: RawServer::new(),
            registered_notifications: NameTable::new(),
            registered_methods: NameTable::new(),
            subscribe_methods: NameTable::new(),
            unsubscribe_methods: NameTable::new(),
            subscribers: Subscribers::new(),
        }
    }

    /// Returns the subscribers of the registered subscription `unique_id`,
    /// oldest first.
    pub fn subscribed_clients(&self, unique_id: usize) -> (list: Vec<RawServerSubscriptionId>)
        ensures
            list@ == crate::subscribers::clients_of(self@.subscribers.entries, unique_id),
    {
        self.subscribers.clients(unique_id)
    }

    /// Takes in a message of the front end. Returns the writes that it asks
    /// for, in the order in which the transport is to perform them. See
    /// [`handled`] for what each message does.
    ///
    /// An answer to a request that is no longer known is dropped. A
    /// notification goes out to every subscriber whose subscribe reply has
    /// left, oldest first.
    #[verifier::loop_isolation(false)]
    pub fn handle_message(&mut self, message: FrontToBack) -> (writes: Vec<TransportCommand>)
        requires
            old(self).wf(),
        ensures
            final(self).wf(),
            handled(old(self)@, message, writes@, final(self)@),
            forall|k: int|
                0 <= k < writes@.len() ==> old(self)@.server.references(
                    (#[trigger] writes@[k]).connection(),
                ),
    {
        let mut writes: Vec<TransportCommand> = Vec::new();
        match message {
            FrontToBack::RegisterNotifications { name, handler, allow_losses } => {
                let _ = self.registered_notifications.insert(name, (handler, allow_losses));
            },
            FrontToBack::RegisterMethod { name, handler } => {
                let _ = self.registered_methods.insert(name, handler);
            },
            FrontToBack::RegisterSubscription { unique_id, subscribe_method, unsubscribe_method } => {
                let _ = self.subscribe_methods.insert(subscribe_method, unique_id);
                let _ = self.unsubscribe_methods.insert(unsubscribe_method, unique_id);
                self.subscribers.register(unique_id);
            },
            FrontToBack::AnswerRequest { request_id, answer } => {
                match self.server.request_by_id(&request_id) {
                    Some(request) => {
                        request.respond(answer);
                    },
                    None => {},
                }
            },
            FrontToBack::SendOutNotif { unique_id, notification } => {
                let ghost before = self@;
                let n = self.subscribers.len();
                let mut i: usize = 0;
                assert(before.subscribers.entries.take(0) =~= Seq::empty());
                while i < n
                    invariant
                        i <= n,
                        n == before.subscribers.entries.len(),
                        self@ == before,
                        self.wf(),
                        writes@.len() == push_targets(
                            before.server.registry.subscriptions,
                            before.subscribers.entries.take(i as int),
                            unique_id,
                        ).len(),
                        forall|k: int|
                            0 <= k < writes@.len() ==> is_push(
                                #[trigger] writes@[k],
                                before.server.registry.subscriptions[push_targets(
                                    before.server.registry.subscriptions,
                                    before.subscribers.entries.take(i as int),
                                    unique_id,
                                )[k]@],
                                push_targets(
                                    before.server.registry.subscriptions,
                                    before.subscribers.entries.take(i as int),
                                    unique_id,
                                )[k],
                                notification,
                            ) && before.server.references(writes@[k].connection()),
                    decreases n - i,
                {
                    let (client, owner) = self.subscribers.entry(i);
                    let ghost done = push_targets(
                        before.server.registry.subscriptions,
                        before.subscribers.entries.take(i as int),
                        unique_id,
                    );
                    assert(before.subscribers.entries.take(i + 1).drop_last()
                        =~= before.subscribers.entries.take(i as int));
                    assert(before.subscribers.entries.take(i + 1).last() == (client, owner));
                    if owner == unique_id {
                        match self.server.subscription_by_id(client) {
                            Some(subscription) => {
                                match subscription.push(notification.clone()) {
                                    Some(write) => {
                                        writes.push(write);
                                    },
                                    None => {},
                                }
                            },
                            None => {},
                        }
                    }
                    i = i + 1;
                }
                assert(before.subscribers.entries.take(n as int) =~= before.subscribers.entries);
            },
        }
        writes
    }

    /// Takes in an event of the transport. A message goes to the
    /// dispatcher. When a connection has closed, the dispatcher closes its
    /// subscriptions, and they leave the lists of subscribers.
    pub fn transport_event(&mut self, event: TransportServerEvent)
        requires
            old(self).wf(),
        ensures
            final(self).wf(),
            exists|closed: Option<Seq<RawServerSubscriptionId>>|
                {
                    &&& #[trigger] takes_in(old(self)@.server, event, closed, final(self)@.server)
                    &&& final(self)@ == BackgroundView {
                        server: final(self)@.server,
                        subscribers: SubscribersView {
                            entries: match closed {
                                Some(ids) => without_ids(old(self)@.subscribers.entries, ids),
                                None => old(self)@.subscribers.entries,
                            },
                            ..old(self)@.subscribers
                        },
                        ..old(self)@
                    }
                },
    {
        let ghost before = self@;
        let ghost seen = event;
        match self.server.transport_event(event) {
            Some(RawServerEvent::SubscriptionsClosed(mut ids)) => {
                let ghost listed = ids@;
                let mut closed: Vec<RawServerSubscriptionId> = Vec::new();
                loop
                    invariant
                        closed@ + ids@ == listed,
                    ensures
                        ids@.len() == 0,
                    decreases ids@.len(),
                {
                    let ghost rest = ids@;
                    match ids.next() {
                        Some(id) => {
                            closed.push(id);
                            assert(closed@ + ids@ =~= listed) by {
                                assert(rest =~= seq![id] + rest.drop_first());
                            }
                        },
                        None => {
                            break ;
                        },
                    }
                }
                assert(closed@ =~= listed);
                self.subscribers.drop_closed(&closed);
                proof {
                    crate::subscribers::lemma_without_ids(before.subscribers.entries, listed);
                    let gone = crate::registry::on_connection(
                        before.server.registry.subscriptions,
                        seen->Closed_0,
                    );
                    assert forall|i: int|
                        0 <= i < self@.subscribers.entries.len()
                        implies self@.server.registry.subscriptions.dom().contains(
                        (#[trigger] self@.subscribers.entries[i]).0@,
                    ) by {
                        let entry = self@.subscribers.entries[i];
                        let j = choose|j: int|
                            0 <= j < before.subscribers.entries.len()
                                && before.subscribers.entries[j] == entry;
                        assert(before.server.registry.subscriptions.dom().contains(
                            before.subscribers.entries[j].0@,
                        ));
                        if gone.contains(entry.0@) {
                            let k = choose|k: int|
                                0 <= k < listed.len() && (#[trigger] listed[k])@ == entry.0@;
                            lemma_id_by_bytes(listed[k], entry.0);
                            assert(listed.contains(entry.0));
                        }
                    }
                    assert(takes_in(before.server, seen, Some(listed), self@.server));
                }
            },
            _ => {
                proof {
                    assert(takes_in(before.server, seen, None, self@.server));
                    match seen {
                        TransportServerEvent::Request { .. } => {},
                        TransportServerEvent::Closed(id) => {
                            crate::registry::lemma_count_is_number_of_subscriptions(
                                before.server.registry,
                                id,
                            );
                            assert(crate::registry::on_connection(
                                before.server.registry.subscriptions,
                                id,
                            ) =~= Set::<Seq<u8>>::empty());
                            assert(self@.server.registry.subscriptions
                                =~= before.server.registry.subscriptions);
                        },
                    }
                }
            },
        }
    }

    /// Asks the dispatcher what is next and routes it. See [`Action`] for
    /// what the caller does with the answer; [`steps`] says what the
    /// dispatcher did and [`routed`] what the back end made of it.
    pub fn next_action(&mut self) -> (action: Action)
        requires
            old(self).wf(),
        ensures
            final(self).wf(),
            exists|event: Option<EventView>, mid: RawServerView|
                {
                    &&& #[trigger] steps(old(self)@.server, action.write, event, mid)
                    &&& routed(old(self)@, mid, event, action.delivery, final(self)@)
                    &&& action.idle == (action.write is None && event is None)
                },
            action.write matches Some(write) ==> old(self)@.server.references(write.connection()),
    {
        let ghost before = self@;
        let step = self.server.next_event();
        let ghost shown = step.shown();
        let Step { write, event } = step;
        match event {
            None => {
                let idle = write.is_none();
                proof {
                    assert(steps(before.server, write, shown, self@.server));
                    if write is Some {
                        crate::raw::lemma_write_is_referenced(before.server, write, shown, self@.server);
                    }
                    assert(routed(before, self@.server, shown, None, self@));
                }
                Action { write, delivery: None, idle }
            },
            Some(RawServerEvent::Notification(notification)) => {
                let delivery = match self.registered_notifications.get(notification.method.as_str()) {
                    Some(entry) => Some(
                        Delivery::Notification {
                            handler: entry.0,
                            params: notification.params,
                            allow_losses: entry.1,
                        },
                    ),
                    None => None,
                };
                proof {
                    assert(steps(before.server, write, shown, self@.server));
                    if write is Some {
                        crate::raw::lemma_write_is_referenced(before.server, write, shown, self@.server);
                    }
                    assert(routed(before, self@.server, shown, delivery, self@));
                }
                Action { write, delivery, idle: false }
            },
            Some(RawServerEvent::Request(request)) => {
                let ghost mid = request.server@;
                let request_id = request.id();
                let ghost call = request.call();
                let handler = match self.registered_methods.get(request.method()) {
                    Some(handler) => Some(*handler),
                    None => None,
                };
                let subscription = match self.subscribe_methods.get(request.method()) {
                    Some(unique_id) => Some(*unique_id),
                    None => None,
                };
                let unsubscription = match self.unsubscribe_methods.get(request.method()) {
                    Some(unique_id) => Some(*unique_id),
                    None => None,
                };
                let delivery = match (handler, subscription, unsubscription) {
                    (Some(handler), _, _) => {
                        let params = request.params().duplicate();
                        Some(Delivery::Request { handler, request_id, params })
                    },
                    (None, Some(unique_id), _) => {
                        let connection = request.connection();
                        Some(Delivery::Subscribe { request_id, unique_id, connection })
                    },
                    (None, None, Some(unique_id)) => {
                        match RawServerSubscriptionId::from_params(request.params()) {
                            Ok(client) => {
                                let ghost entries = self.subscribers@.entries;
                                let found = self.subscribers.detach_from(&client, unique_id);
                                proof {
                                    crate::subscribers::lemma_owner(entries, client);
                                    if !found {
                                        assert forall|i: int| 0 <= i < entries.len() implies !((
                                        #[trigger] entries[i]).0@ == client@ && entries[i].1
                                            == unique_id) by {
                                            if entries[i].0@ == client@ {
                                                lemma_id_by_bytes(entries[i].0, client);
                                            }
                                        }
                                    } else {
                                        let i = choose|i: int|
                                            0 <= i < entries.len() && #[trigger] entries[i] == (
                                                client,
                                                unique_id,
                                            ) && self.subscribers@.entries == entries.remove(i);
                                        assert(entries[i].0@ == client@);
                                        assert forall|a: int|
                                            0 <= a < self.subscribers@.entries.len()
                                            implies mid.registry.subscriptions.dom().contains(
                                            (#[trigger] self.subscribers@.entries[a]).0@,
                                        ) by {
                                            let a0 = if a < i {
                                                a
                                            } else {
                                                a + 1
                                            };
                                            assert(before.server.registry.subscriptions.dom().contains(
                                                entries[a0].0@,
                                            ));
                                        }
                                    }
                                }
                            },
                            Err(_) => {},
                        }
                        None
                    },
                    (None, None, None) => {
                        request.respond(Err(RpcError::from_code(ErrorCode::MethodNotFound)));
                        None
                    },
                };
                proof {
                    assert(steps(before.server, write, shown, mid));
                    if write is Some {
                        crate::raw::lemma_write_is_referenced(before.server, write, shown, mid);
                    }
                    assert(routed_request(before, mid, request_id, delivery, self@));
                    assert(routed(before, mid, shown, delivery, self@));
                }
                Action { write, delivery, idle: false }
            },
            Some(RawServerEvent::SubscriptionsReady(_)) => {
                proof {
                    assert(steps(before.server, write, shown, self@.server));
                    if write is Some {
                        crate::raw::lemma_write_is_referenced(before.server, write, shown, self@.server);
                    }
                    assert(routed(before, self@.server, shown, None, self@));
                }
                Action { write, delivery: None, idle: false }
            },
            Some(RawServerEvent::SubscriptionsClosed(_)) => {
                proof {
                    assert(steps(before.server, write, shown, self@.server));
                    if write is Some {
                        crate::raw::lemma_write_is_referenced(before.server, write, shown, self@.server);
                    }
                    assert(routed(before, self@.server, shown, None, self@));
                }
                Action { write, delivery: None, idle: false }
            },
        }
    }

    /// Refuses a request that could not be handed to its handler: answers
    /// it with a server error of code 0. Does nothing if the request is no
    /// longer known.
    pub fn refuse_request(&mut self, request_id: RawServerRequestId)
        requires
            old(self).wf(),
        ensures
            final(self).wf(),
            refused(old(self)@, request_id, final(self)@),
    {
        match self.server.request_by_id(&request_id) {
            Some(request) => {
                request.respond(Err(RpcError::from_code(ErrorCode::ServerError(0))));
            },
            None => {},
        }
    }

    /// Turns a subscribe request into a subscription of `unique_id`, where
    /// `supports_resuming` says whether the transport can write more than
    /// once on the connection of the request.
    ///
    /// Returns the identifier of the new subscription. It is the answer to
    /// the request, and the newest subscriber of `unique_id`. Returns
    /// `None`, and changes nothing, where the request is no longer known,
    /// where its connection has closed, where the transport cannot, or where
    /// `unique_id` is not registered.
    pub fn complete_subscription(
        &mut self,
        request_id: RawServerRequestId,
        unique_id: usize,
        supports_resuming: bool,
    ) -> (r: Option<RawServerSubscriptionId>)
        requires
            old(self).wf(),
        ensures
            final(self).wf(),
            r is Some <==> can_subscribe(old(self)@, request_id, unique_id, supports_resuming),
            subscribed(old(self)@, request_id, unique_id, r, final(self)@),
    {
        let ghost before = self@;
        if !self.subscribers.is_registered(unique_id) {
            return None;
        }
        let made = match self.server.request_by_id(&request_id) {
            Some(request) => request.into_subscription(supports_resuming),
            None => {
                return None;
            },
        };
        match made {
            Ok(id) => {
                proof {
                    crate::subscribers::lemma_owner(before.subscribers.entries, id);
                    assert forall|i: int| 0 <= i < before.subscribers.entries.len() implies (
                    #[trigger] before.subscribers.entries[i]).0 != id by {
                        assert(before.server.registry.subscriptions.dom().contains(
                            before.subscribers.entries[i].0@,
                        ));
                    }
                }
                self.subscribers.attach(id, unique_id);
                Some(id)
            },
            Err(_) => None,
        }
    }
}

} // verus!
