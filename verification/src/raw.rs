//! The raw dispatcher.
//!
//! A [`RawServer`] owns the batch tracker and the subscription registry. It
//! is driven from outside: the events of the transport are handed to
//! [`RawServer::transport_event`], and [`RawServer::next_event`] says what
//! to write to the transport and what to show to the application. The
//! dispatcher never writes by itself; each write comes back as a
//! [`TransportCommand`] that the caller performs.

use crate::base58::base58_encoded;
use crate::batches::{
    actionable, awaits, call_of, hands_out, live, slots_wf, with_answer, BatchesElemId,
    BatchesEvent, BatchesState, SlotView,
};
use crate::json::{json_text, text_value};
use crate::jsonrpc::{Id, JsonValue, Notification, Params, Response, RpcError, SubscriptionNotif};
use crate::registry::{
    lists, pending_on, readied, RegistryView, SubscriptionRegistry, SubscriptionState,
};
use crate::subscription_id::RawServerSubscriptionId;
use crate::transport::{ConnectionId, TransportCommand, TransportServerEvent};
use vstd::prelude::*;

verus! {

/// Identifier of a request within a [`RawServer`].
#[derive(Debug, Copy, Clone, PartialEq, Eq, Structural)]
pub struct RawServerRequestId {
    /// Identifier of the request within the batch tracker.
    pub inner: BatchesElemId,
}

/// Error that can happen when calling `into_subscription`.
#[derive(Debug, Copy, Clone, PartialEq, Eq, Structural)]
pub enum IntoSubscriptionErr {
    /// Underlying server doesn't support subscriptions.
    NotSupported,
    /// Request has already been closed by the client.
    Closed,
}

impl IntoSubscriptionErr {
    /// The text that describes the error.
    pub open spec fn spec_message(&self) -> Seq<char> {
        match self {
            IntoSubscriptionErr::NotSupported => "Underlying server doesn't support subscriptions"@,
            IntoSubscriptionErr::Closed => "Request is already closed"@,
        }
    }

    /// Returns the text that describes the error.
    pub fn message(&self) -> (text: String)
        ensures
            text@ == self.spec_message(),
    {
        match self {
            IntoSubscriptionErr::NotSupported => "Underlying server doesn't support subscriptions".to_owned(),
            IntoSubscriptionErr::Closed => "Request is already closed".to_owned(),
        }
    }
}

/// The list of subscriptions that are now ready, handed out one by one.
#[derive(Debug)]
pub struct SubscriptionsReadyIter {
    ids: Vec<RawServerSubscriptionId>,
    position: usize,
}

impl View for SubscriptionsReadyIter {
    type V = Seq<RawServerSubscriptionId>;

    /// The identifiers still to come, the next one first.
    closed spec fn view(&self) -> Seq<RawServerSubscriptionId> {
        if self.position <= self.ids@.len() {
            self.ids@.skip(self.position as int)
        } else {
            Seq::empty()
        }
    }
}

impl SubscriptionsReadyIter {
    fn new(ids: Vec<RawServerSubscriptionId>) -> (iter: Self)
        ensures
            iter@ == ids@,
    {
        assert(ids@.skip(0) =~= ids@);
        SubscriptionsReadyIter { ids, position: 0 }
    }

    /// Returns the next identifier of the list, or `None` at its end.
    pub fn next(&mut self) -> (r: Option<RawServerSubscriptionId>)
        ensures
            match r {
                Some(id) => {
                    &&& old(self)@.len() > 0
                    &&& id == old(self)@[0]
                    &&& final(self)@ == old(self)@.drop_first()
                },
                None => old(self)@.len() == 0 && final(self)@ == old(self)@,
            },
    {
        if self.position < self.ids.len() {
            let id = self.ids[self.position];
            self.position = self.position + 1;
            assert(self@ =~= old(self)@.drop_first());
            Some(id)
        } else {
            None
        }
    }

    /// Returns how many identifiers are still to come.
    pub fn len(&self) -> (n: usize)
        ensures
            n == self@.len(),
    {
        if self.position <= self.ids.len() {
            self.ids.len() - self.position
        } else {
            0
        }
    }
}

/// The list of subscriptions that have been closed, handed out one by one.
#[derive(Debug)]
pub struct SubscriptionsClosedIter {
    ids: Vec<RawServerSubscriptionId>,
    position: usize,
}

impl View for SubscriptionsClosedIter {
    type V = Seq<RawServerSubscriptionId>;

    /// The identifiers still to come, the next one first.
    closed spec fn view(&self) -> Seq<RawServerSubscriptionId> {
        if self.position <= self.ids@.len() {
            self.ids@.skip(self.position as int)
        } else {
            Seq::empty()
        }
    }
}

impl SubscriptionsClosedIter {
    fn new(ids: Vec<RawServerSubscriptionId>) -> (iter: Self)
        ensures
            iter@ == ids@,
    {
        assert(ids@.skip(0) =~= ids@);
        SubscriptionsClosedIter { ids, position: 0 }
    }

    /// Returns the next identifier of the list, or `None` at its end.
    pub fn next(&mut self) -> (r: Option<RawServerSubscriptionId>)
        ensures
            match r {
                Some(id) => {
                    &&& old(self)@.len() > 0
                    &&& id == old(self)@[0]
                    &&& final(self)@ == old(self)@.drop_first()
                },
                None => old(self)@.len() == 0 && final(self)@ == old(self)@,
            },
    {
        if self.position < self.ids.len() {
            let id = self.ids[self.position];
            self.position = self.position + 1;
            assert(self@ =~= old(self)@.drop_first());
            Some(id)
        } else {
            None
        }
    }

    /// Returns how many identifiers are still to come.
    pub fn len(&self) -> (n: usize)
        ensures
            n == self@.len(),
    {
        if self.position <= self.ids.len() {
            self.ids.len() - self.position
        } else {
            0
        }
    }
}

/// The dispatcher, as contracts see it.
pub struct RawServerView {
    /// The messages that the batch tracker holds, by slot.
    pub batches: Seq<Option<SlotView>>,
    /// The subscription registry.
    pub registry: RegistryView,
}

impl RawServerView {
    /// The invariant of the dispatcher: that of the batch tracker and that
    /// of the registry. The second says that the count of every connection
    /// is the number of live subscriptions on it.
    pub open spec fn wf(self) -> bool {
        slots_wf(self.batches) && self.registry.wf()
    }

    /// Whether anything in the dispatcher would write to `connection`: a
    /// message that it delivered, or a subscription on it.
    pub open spec fn references(self, connection: ConnectionId) -> bool {
        crate::batches::references(self.batches, connection) || self.registry.references(
            connection,
        )
    }
}

/// Whether a slot holds a reply that has nowhere to go: the message is
/// complete and its connection has closed.
pub open spec fn discardable(slot: Option<SlotView>) -> bool {
    slot matches Some(s) && s.batch.queued.len() == 0 && s.batch.complete() && s.connection
        is None
}

/// The slots after every reply that has nowhere to go was dropped from the
/// slots before `upto`.
pub open spec fn drained(slots: Seq<Option<SlotView>>, upto: int) -> Seq<Option<SlotView>> {
    Seq::new(
        slots.len(),
        |j: int|
            if j < upto && discardable(slots[j]) {
                None
            } else {
                slots[j]
            },
    )
}

/// Whether `i` is the first slot that has something to hand out other than a
/// reply with nowhere to go.
pub open spec fn is_next_kept(slots: Seq<Option<SlotView>>, i: int) -> bool {
    &&& 0 <= i < slots.len()
    &&& actionable(slots[i])
    &&& !discardable(slots[i])
    &&& forall|j: int| 0 <= j < i && actionable(#[trigger] slots[j]) ==> discardable(slots[j])
}

/// An event of the dispatcher, as contracts see it.
pub enum EventView {
    /// A notification.
    Notification(Notification),
    /// A request, by its id.
    Request(RawServerRequestId),
    /// The subscriptions that are now ready.
    SubscriptionsReady(Seq<RawServerSubscriptionId>),
    /// The subscriptions that were closed.
    SubscriptionsClosed(Seq<RawServerSubscriptionId>),
}

/// What the dispatcher makes of what the batch tracker handed out.
///
/// A notification and a request are shown as they are. A reply goes to its
/// connection. Where subscriptions use that connection the reply is sent
/// and the connection kept; the subscriptions that waited for the reply are
/// now ready and are listed. Where none does, the reply finishes the
/// connection.
pub open spec fn surfaced(
    registry: RegistryView,
    handed: BatchesEvent,
    write: Option<TransportCommand>,
    event: Option<EventView>,
    after: RegistryView,
) -> bool {
    match handed {
        BatchesEvent::Notification { notification, .. } => {
            &&& write is None
            &&& event == Some(EventView::Notification(notification))
            &&& after == registry
        },
        BatchesEvent::Request(inner) => {
            &&& write is None
            &&& event == Some(EventView::Request(RawServerRequestId { inner }))
            &&& after == registry
        },
        BatchesEvent::ReadyToSend { response, connection } => {
            &&& connection matches Some(id)
            &&& if registry.references(id) {
                &&& write == Some(TransportCommand::Send { id, response })
                &&& event matches Some(EventView::SubscriptionsReady(ready))
                &&& lists(ready, pending_on(registry.subscriptions, id))
                &&& after.counts == registry.counts
                &&& after.subscriptions == readied(registry.subscriptions, id)
            } else {
                &&& write == Some(TransportCommand::Finish { id, response: Some(response) })
                &&& event is None
                &&& after == registry
            }
        },
    }
}

/// What one call of [`RawServer::next_event`] does to the dispatcher.
///
/// Replies with nowhere to go are dropped. The first slot that has
/// anything else is served, and what it hands out is shown as
/// [`surfaced`] says. Where no slot has anything else, nothing is written
/// and nothing is shown.
pub open spec fn steps(
    before: RawServerView,
    write: Option<TransportCommand>,
    event: Option<EventView>,
    after: RawServerView,
) -> bool {
    if write is None && event is None {
        &&& forall|j: int|
            0 <= j < before.batches.len() && actionable(#[trigger] before.batches[j])
                ==> discardable(before.batches[j])
        &&& after.batches == drained(before.batches, before.batches.len() as int)
        &&& after.registry == before.registry
    } else {
        exists|i: int, handed: BatchesEvent|
            {
                &&& is_next_kept(before.batches, i)
                &&& hands_out(drained(before.batches, i), i, handed, after.batches)
                &&& surfaced(before.registry, handed, write, event, after.registry)
            }
    }
}

/// Every write that the dispatcher asks for goes to a connection that the
/// dispatcher referred to before the step.
pub proof fn lemma_write_is_referenced(
    before: RawServerView,
    write: Option<TransportCommand>,
    event: Option<EventView>,
    after: RawServerView,
)
    requires
        before.wf(),
        write is Some,
        steps(before, write, event, after),
    ensures
        before.references(write->Some_0.connection()),
{
    let (i, handed) = choose|i: int, handed: BatchesEvent|
        {
            &&& is_next_kept(before.batches, i)
            &&& hands_out(drained(before.batches, i), i, handed, after.batches)
            &&& surfaced(before.registry, handed, write, event, after.registry)
        };
    assert(drained(before.batches, i)[i] == before.batches[i]);
    assert(before.batches[i] is Some);
    assert(crate::batches::references(before.batches, write->Some_0.connection()));
}

/// A step makes the dispatcher refer to no connection that it did not refer
/// to before.
pub proof fn lemma_step_adds_no_connection(
    before: RawServerView,
    write: Option<TransportCommand>,
    event: Option<EventView>,
    after: RawServerView,
    connection: ConnectionId,
)
    requires
        before.wf(),
        steps(before, write, event, after),
        after.references(connection),
    ensures
        before.references(connection),
{
    if write is None && event is None {
        if crate::batches::references(after.batches, connection) {
            let j = choose|j: int|
                0 <= j < after.batches.len() && (#[trigger] after.batches[j]) is Some
                    && after.batches[j]->Some_0.connection == Some(connection);
            assert(before.batches[j] == after.batches[j]);
        }
    } else {
        let (i, handed) = choose|i: int, handed: BatchesEvent|
            {
                &&& is_next_kept(before.batches, i)
                &&& hands_out(drained(before.batches, i), i, handed, after.batches)
                &&& surfaced(before.registry, handed, write, event, after.registry)
            };
        let mid = drained(before.batches, i);
        if crate::batches::references(after.batches, connection) {
            let j = choose|j: int|
                0 <= j < after.batches.len() && (#[trigger] after.batches[j]) is Some
                    && after.batches[j]->Some_0.connection == Some(connection);
            assert(mid[i] == before.batches[i]);
            if j == i {
                assert(before.batches[i]->Some_0.connection == Some(connection));
            } else {
                assert(after.batches[j] == mid[j]);
                assert(mid[j] == before.batches[j]);
            }
        }
    }
}

/// No push leaves before the subscribe reply: when a step sends a reply on a
/// connection, the subscriptions on that connection are ready after it, and
/// a subscription is never pending again once it was ready.
pub proof fn lemma_reply_comes_before_push(
    before: RawServerView,
    write: Option<TransportCommand>,
    event: Option<EventView>,
    after: RawServerView,
    key: Seq<u8>,
)
    requires
        before.wf(),
        steps(before, write, event, after),
        before.registry.subscriptions.dom().contains(key),
    ensures
        after.registry.subscriptions.dom().contains(key),
        after.registry.subscriptions[key].raw_id == before.registry.subscriptions[key].raw_id,
        !before.registry.subscriptions[key].pending ==> !after.registry.subscriptions[key].pending,
        write matches Some(TransportCommand::Send { id, .. })
            && before.registry.subscriptions[key].raw_id == id
            ==> !after.registry.subscriptions[key].pending,
        after.registry.subscriptions[key].pending != before.registry.subscriptions[key].pending
            ==> (write matches Some(TransportCommand::Send { id, .. })
            && before.registry.subscriptions[key].raw_id == id),
{
    if !(write is None && event is None) {
        let (i, handed) = choose|i: int, handed: BatchesEvent|
            {
                &&& is_next_kept(before.batches, i)
                &&& hands_out(drained(before.batches, i), i, handed, after.batches)
                &&& surfaced(before.registry, handed, write, event, after.registry)
            };
    }
}

/// A step writes nothing to a connection that the dispatcher does not refer
/// to, and does not make the dispatcher refer to it. So once a connection
/// has closed, no step writes to it.
pub proof fn lemma_closed_connection_gets_no_write(
    before: RawServerView,
    write: Option<TransportCommand>,
    event: Option<EventView>,
    after: RawServerView,
    connection: ConnectionId,
)
    requires
        before.wf(),
        !before.references(connection),
        steps(before, write, event, after),
    ensures
        !after.references(connection),
        write matches Some(command) ==> command.connection() != connection,
{
    if write is Some {
        lemma_write_is_referenced(before, write, event, after);
    }
    if after.references(connection) {
        lemma_step_adds_no_connection(before, write, event, after, connection);
    }
}

/// Where the message that holds a subscribe request is the only message of
/// its connection, the subscription stops being pending only in the step
/// that sends the reply of that message.
pub proof fn lemma_push_follows_subscribe_reply(
    before: RawServerView,
    write: Option<TransportCommand>,
    event: Option<EventView>,
    after: RawServerView,
    key: Seq<u8>,
    slot: int,
)
    requires
        before.wf(),
        steps(before, write, event, after),
        before.registry.subscriptions.dom().contains(key),
        before.registry.subscriptions[key].pending,
        !after.registry.subscriptions[key].pending,
        0 <= slot < before.batches.len(),
        forall|j: int|
            0 <= j < before.batches.len() && j != slot ==> !((#[trigger] before.batches[j])
                matches Some(s) && s.connection == Some(
                before.registry.subscriptions[key].raw_id,
            )),
    ensures
        before.batches[slot] matches Some(s) && s.connection == Some(
            before.registry.subscriptions[key].raw_id,
        ) && s.batch.complete(),
        write matches Some(TransportCommand::Send { id, response }) && id
            == before.registry.subscriptions[key].raw_id && before.batches[slot]->Some_0.batch.is_reply(
            response,
        ),
        after.batches[slot] is None,
{
    lemma_reply_comes_before_push(before, write, event, after, key);
    let (i, handed) = choose|i: int, handed: BatchesEvent|
        {
            &&& is_next_kept(before.batches, i)
            &&& hands_out(drained(before.batches, i), i, handed, after.batches)
            &&& surfaced(before.registry, handed, write, event, after.registry)
        };
    assert(drained(before.batches, i)[i] == before.batches[i]);
    assert(before.batches[i] is Some);
    if i != slot {
        assert(!(before.batches[i] matches Some(s) && s.connection == Some(
            before.registry.subscriptions[key].raw_id,
        )));
    }
}

/// What [`RawServer::transport_event`] does to the dispatcher.
///
/// A message goes to the first free slot of the batch tracker, under its
/// connection; a message without any call is not kept. A closed connection
/// is taken off every message that it delivered, its count is dropped and
/// its subscriptions are closed; `closed` lists them, and is `None` where
/// the connection had no count. Afterwards nothing refers to the
/// connection.
pub open spec fn takes_in(
    before: RawServerView,
    event: TransportServerEvent,
    closed: Option<Seq<RawServerSubscriptionId>>,
    after: RawServerView,
) -> bool {
    match event {
        TransportServerEvent::Request { id, request } => {
            &&& closed is None
            &&& after.registry == before.registry
            &&& crate::batch::calls_of(request).len() == 0 ==> after.batches == before.batches
            &&& crate::batch::calls_of(request).len() > 0 ==> exists|
                k: int,
                batch: crate::batch::BatchView,
            |
                {
                    &&& batch.fresh_from(request)
                    &&& crate::batches::is_free(before.batches, k)
                    &&& after.batches == crate::batches::placed(
                        before.batches,
                        k,
                        SlotView { batch, connection: Some(id) },
                    )
                }
        },
        TransportServerEvent::Closed(id) => {
            &&& !after.references(id)
            &&& after.batches.len() == before.batches.len()
            &&& forall|i: int|
                0 <= i < before.batches.len() ==> #[trigger] after.batches[i]
                    == crate::batches::without_connection(before.batches[i], id)
            &&& after.registry.counts == before.registry.counts.remove(id)
            &&& after.registry.subscriptions == before.registry.subscriptions.remove_keys(
                crate::registry::on_connection(before.registry.subscriptions, id),
            )
            &&& closed is Some <==> before.registry.references(id)
            &&& closed matches Some(ids) ==> lists(
                ids,
                crate::registry::on_connection(before.registry.subscriptions, id),
            )
        },
    }
}

/// Wraps around the batch tracker and the subscription registry.
pub struct RawServer {
    /// The messages whose calls are being answered, each with the
    /// connection that delivered it, or with `None` if that connection has
    /// closed.
    batches: BatchesState,
    /// The live subscriptions, and for each connection the number of
    /// subscriptions that use it.
    subscriptions: SubscriptionRegistry,
}

impl View for RawServer {
    type V = RawServerView;

    closed spec fn view(&self) -> RawServerView {
        RawServerView { batches: self.batches@, registry: self.subscriptions@ }
    }
}

/// Event generated by a [`RawServer`].
///
/// > **Note**: A request holds a borrow of the `RawServer`.
pub enum RawServerEvent<'a> {
    /// Request is a notification.
    Notification(Notification),
    /// Request is a method call.
    Request(RawServerRequest<'a>),
    /// Subscriptions are now ready.
    SubscriptionsReady(SubscriptionsReadyIter),
    /// Subscriptions have been closed because the client closed the
    /// connection.
    SubscriptionsClosed(SubscriptionsClosedIter),
}

impl<'a> View for RawServerEvent<'a> {
    type V = EventView;

    open spec fn view(&self) -> EventView {
        match self {
            RawServerEvent::Notification(notification) => EventView::Notification(*notification),
            RawServerEvent::Request(request) => EventView::Request(request.id),
            RawServerEvent::SubscriptionsReady(ids) => EventView::SubscriptionsReady(ids@),
            RawServerEvent::SubscriptionsClosed(ids) => EventView::SubscriptionsClosed(ids@),
        }
    }
}

/// The subscriptions that an event lists as closed, if it is such an event.
pub open spec fn closed_in(shown: Option<RawServerEvent>) -> Option<Seq<RawServerSubscriptionId>> {
    match shown {
        Some(RawServerEvent::SubscriptionsClosed(ids)) => Some(ids@),
        _ => None,
    }
}

/// What [`RawServer::next_event`] asks of its caller.
///
/// The caller performs `write`, if any, then handles `event`, if any. With
/// a write and no event it calls `next_event` again. With neither, nothing
/// is queued: it waits for the next event of the transport and hands that
/// to [`RawServer::transport_event`].
pub struct Step<'a> {
    /// What to write to the transport first.
    pub write: Option<TransportCommand>,
    /// What to show to the application.
    pub event: Option<RawServerEvent<'a>>,
}

impl<'a> Step<'a> {
    /// The event of the step, as contracts see it.
    pub open spec fn shown(self) -> Option<EventView> {
        match self.event {
            Some(event) => Some(event@),
            None => None,
        }
    }
}

/// Request received by a [`RawServer`].
pub struct RawServerRequest<'a> {
    /// The dispatcher that holds the request.
    pub server: &'a mut RawServer,
    /// Identifier of the request.
    pub id: RawServerRequestId,
}

/// Active subscription of a client towards a server.
pub struct ServerSubscription<'a> {
    /// The dispatcher that holds the subscription.
    pub server: &'a mut RawServer,
    /// Identifier of the subscription.
    pub id: RawServerSubscriptionId,
}

impl RawServer {
    /// Starts a dispatcher that holds no message and no subscription.
    pub fn new() -> (server: RawServer)
        ensures
            server@.wf(),
            server@.batches.len() == 0,
            server@.registry.subscriptions == Map::<Seq<u8>, SubscriptionState>::empty(),
            server@.registry.counts == Map::<ConnectionId, usize>::empty(),
    {
        RawServer { batches: BatchesState::new(), subscriptions: SubscriptionRegistry::new() }
    }

    /// Takes in an event of the transport. See [`takes_in`] for what the
    /// call does to the dispatcher.
    ///
    /// A message is handed to the batch tracker under its connection. When
    /// a connection has closed, every trace of it leaves the dispatcher:
    /// the messages that it delivered lose their connection, its count is
    /// dropped, and its subscriptions are closed. Their identifiers are
    /// shown, if there were any. From then on nothing that the
    /// dispatcher asks to write names that connection, until the transport
    /// delivers a message on it again.
    pub fn transport_event(&mut self, event: TransportServerEvent) -> (shown: Option<
        RawServerEvent<'static>,
    >)
        requires
            old(self)@.wf(),
        ensures
            final(self)@.wf(),
            shown matches Some(event) ==> event is SubscriptionsClosed,
            takes_in(old(self)@, event, closed_in(shown), final(self)@),
    {
        match event {
            TransportServerEvent::Request { id, request } => {
                self.batches.inject(request, Some(id));
                None
            },
            TransportServerEvent::Closed(id) => {
                self.batches.forget_connection(id);
                let had = self.subscriptions.has_connection(id);
                let ids = self.subscriptions.drop_connection(id);
                if had {
                    Some(RawServerEvent::SubscriptionsClosed(SubscriptionsClosedIter::new(ids)))
                } else {
                    None
                }
            },
        }
    }

    /// Says what to do next: what to write to the transport, and what to
    /// show to the application. See [`Step`] for what the caller does with
    /// the answer, and [`steps`] for what the call does to the dispatcher.
    ///
    /// A request that is shown borrows the dispatcher: what is done through
    /// the request is done to the dispatcher.
    pub fn next_event<'a>(&'a mut self) -> (step: Step<'a>)
        requires
            old(self)@.wf(),
        ensures
            match step.event {
                Some(RawServerEvent::Request(request)) => {
                    &&& request.valid()
                    &&& steps(old(self)@, step.write, step.shown(), request.server@)
                    &&& *final(request.server) == *final(self)
                },
                _ => final(self)@.wf() && steps(old(self)@, step.write, step.shown(), final(self)@),
            },
    {
        let ghost start = self@;
        let ghost mut upto: int = 0;
        assert(self@.batches =~= drained(start.batches, 0));
        loop
            invariant
                start == old(self)@,
                self@.wf(),
                self@.registry == start.registry,
                0 <= upto <= start.batches.len(),
                self@.batches == drained(start.batches, upto),
                forall|j: int|
                    0 <= j < upto && actionable(#[trigger] start.batches[j]) ==> discardable(
                        start.batches[j],
                    ),
            decreases live(self@.batches),
        {
            let ghost now = self@;
            let handed = self.batches.next_event();
            let ghost i = if handed is Some {
                choose|i: int|
                    crate::batches::is_next(now.batches, i) && hands_out(
                        now.batches,
                        i,
                        handed->Some_0,
                        self@.batches,
                    )
            } else {
                0
            };
            proof {
                if handed is Some {
                    assert(upto <= i) by {
                        if i < upto {
                            assert(actionable(now.batches[i]));
                            assert(now.batches[i] == start.batches[i]);
                        }
                    }
                    assert(now.batches[i] == start.batches[i]);
                    assert forall|j: int|
                        0 <= j < i && actionable(#[trigger] start.batches[j]) implies discardable(
                        start.batches[j],
                    ) by {
                        if j >= upto {
                            assert(!actionable(now.batches[j]));
                        }
                    }
                    assert(drained(start.batches, i) =~= now.batches) by {
                        assert forall|j: int| 0 <= j < start.batches.len() implies drained(
                            start.batches,
                            i,
                        )[j] == now.batches[j] by {
                            if upto <= j < i {
                                assert(!actionable(now.batches[j]));
                            }
                        }
                    }
                } else {
                    assert forall|j: int|
                        0 <= j < start.batches.len() && actionable(
                            #[trigger] start.batches[j],
                        ) implies discardable(start.batches[j]) by {
                        if j >= upto {
                            assert(!actionable(now.batches[j]));
                        }
                    }
                    assert(drained(start.batches, start.batches.len() as int) =~= now.batches) by {
                        assert forall|j: int| 0 <= j < start.batches.len() implies drained(
                            start.batches,
                            start.batches.len() as int,
                        )[j] == now.batches[j] by {
                            if upto <= j {
                                assert(!actionable(now.batches[j]));
                            }
                        }
                    }
                }
            }
            match handed {
                None => {
                    return Step { write: None, event: None };
                },
                Some(BatchesEvent::Notification { notification, connection }) => {
                    let step = Step {
                        write: None,
                        event: Some(RawServerEvent::Notification(notification)),
                    };
                    proof {
                        assert(is_next_kept(start.batches, i));
                        assert(surfaced(
                            start.registry,
                            handed->Some_0,
                            step.write,
                            step.shown(),
                            self@.registry,
                        ));
                    }
                    return step;
                },
                Some(BatchesEvent::Request(inner)) => {
                    let id = RawServerRequestId { inner };
                    proof {
                        assert(is_next_kept(start.batches, i));
                        assert(awaits(self@.batches, inner));
                    }
                    let ghost after = self@;
                    let request = RawServerRequest { server: self, id };
                    let step = Step { write: None, event: Some(RawServerEvent::Request(request)) };
                    proof {
                        assert(surfaced(
                            start.registry,
                            handed->Some_0,
                            step.write,
                            step.shown(),
                            after.registry,
                        ));
                    }
                    return step;
                },
                Some(BatchesEvent::ReadyToSend { response, connection: Some(id) }) => {
                    proof {
                        assert(is_next_kept(start.batches, i));
                    }
                    if self.subscriptions.has_connection(id) {
                        let ready = self.subscriptions.mark_ready(id);
                        let step = Step {
                            write: Some(TransportCommand::Send { id, response }),
                            event: Some(
                                RawServerEvent::SubscriptionsReady(
                                    SubscriptionsReadyIter::new(ready),
                                ),
                            ),
                        };
                        proof {
                            assert(surfaced(
                                start.registry,
                                handed->Some_0,
                                step.write,
                                step.shown(),
                                self@.registry,
                            ));
                        }
                        return step;
                    } else {
                        let step = Step {
                            write: Some(
                                TransportCommand::Finish { id, response: Some(response) },
                            ),
                            event: None,
                        };
                        proof {
                            assert(surfaced(
                                start.registry,
                                handed->Some_0,
                                step.write,
                                step.shown(),
                                self@.registry,
                            ));
                        }
                        return step;
                    }
                },
                Some(BatchesEvent::ReadyToSend { response: _, connection: None }) => {
                    proof {
                        assert(discardable(start.batches[i]));
                        assert(self@.batches =~= drained(start.batches, i + 1));
                        upto = i + 1;
                    }
                },
            }
        }
    }

    /// Returns a request previously shown by
    /// [`next_event`](RawServer::next_event), by its id.
    ///
    /// Note that notifications don't have an id and can't be had with this
    /// method.
    ///
    /// Returns `None` if the request id is invalid or if the request has
    /// already been answered in the past.
    pub fn request_by_id<'a>(&'a mut self, id: &RawServerRequestId) -> (r: Option<
        RawServerRequest<'a>,
    >)
        requires
            old(self)@.wf(),
        ensures
            match r {
                Some(request) => {
                    &&& awaits(old(self)@.batches, id.inner)
                    &&& request.id == *id
                    &&& *request.server == *old(self)
                    &&& *final(request.server) == *final(self)
                    &&& request.valid()
                },
                None => !awaits(old(self)@.batches, id.inner) && *final(self) == *old(self),
            },
    {
        if self.batches.request_by_id(id.inner).is_some() {
            Some(RawServerRequest { server: self, id: *id })
        } else {
            None
        }
    }

    /// Returns a subscription previously returned by
    /// [`into_subscription`](RawServerRequest::into_subscription), if it is
    /// still live.
    pub fn subscription_by_id<'a>(&'a mut self, id: RawServerSubscriptionId) -> (r: Option<
        ServerSubscription<'a>,
    >)
        requires
            old(self)@.wf(),
        ensures
            match r {
                Some(subscription) => {
                    &&& old(self)@.registry.subscriptions.dom().contains(id@)
                    &&& subscription.id == id
                    &&& *subscription.server == *old(self)
                    &&& *final(subscription.server) == *final(self)
                    &&& subscription.valid()
                },
                None => !old(self)@.registry.subscriptions.dom().contains(id@) && *final(self)
                    == *old(self),
            },
    {
        if self.subscriptions.contains(&id) {
            Some(ServerSubscription { server: self, id })
        } else {
            None
        }
    }
}

/// What turning the request `request` into a subscription does to the
/// dispatcher, and what comes back.
///
/// With the connection of the request closed, `Closed` comes back and
/// nothing changes. Else, with a transport that cannot write more than once
/// on a connection, `NotSupported` comes back and nothing changes. Else an
/// identifier comes back that is new to the registry. It is recorded on the
/// connection of the request, under the method of the request, with its
/// subscribe reply yet to leave; the count of the connection goes up by one,
/// starting at one; and the answer to the request is the wire form of the
/// identifier, as a JSON string.
pub open spec fn promoted(
    before: RawServerView,
    request: RawServerRequestId,
    supports_resuming: bool,
    r: Result<RawServerSubscriptionId, IntoSubscriptionErr>,
    after: RawServerView,
) -> bool {
    let tag = before.batches[request.inner.outer as int]->Some_0.connection;
    match r {
        Err(IntoSubscriptionErr::Closed) => tag is None && after == before,
        Err(IntoSubscriptionErr::NotSupported) => tag is Some && !supports_resuming && after
            == before,
        Ok(id) => {
            let connection = tag->Some_0;
            let counts = before.registry.counts;
            &&& tag is Some
            &&& supports_resuming
            &&& !before.registry.subscriptions.dom().contains(id@)
            &&& after.registry.subscriptions == before.registry.subscriptions.insert(
                id@,
                SubscriptionState {
                    raw_id: connection,
                    method: call_of(before.batches, request.inner).method,
                    pending: true,
                },
            )
            &&& after.registry.counts == counts.insert(
                connection,
                if counts.dom().contains(connection) {
                    (counts[connection] + 1) as usize
                } else {
                    1usize
                },
            )
            &&& exists|answer: JsonValue|
                {
                    &&& json_text(answer) == Some(base58_encoded(id@))
                    &&& #[trigger] with_answer(before.batches, request.inner, Ok(answer))
                        == after.batches
                }
        },
    }
}

/// What closing the subscription `id` does to the dispatcher, and which
/// write it asks for.
///
/// The subscription leaves the registry, and the count of its connection
/// goes down by one; a count of one is dropped. The connection is to be
/// finished exactly where the subscription was the last one on it and its
/// subscribe reply has left.
pub open spec fn closes(
    before: RawServerView,
    id: RawServerSubscriptionId,
    write: Option<TransportCommand>,
    after: RawServerView,
) -> bool {
    let state = before.registry.subscriptions[id@];
    let counts = before.registry.counts;
    &&& after.batches == before.batches
    &&& after.registry.subscriptions == before.registry.subscriptions.remove(id@)
    &&& after.registry.counts == if counts[state.raw_id] == 1 {
        counts.remove(state.raw_id)
    } else {
        counts.insert(state.raw_id, (counts[state.raw_id] - 1) as usize)
    }
    &&& write == if counts[state.raw_id] == 1 && !state.pending {
        Some(TransportCommand::Finish { id: state.raw_id, response: None })
    } else {
        None
    }
}

/// Answering a request makes the batch tracker refer to no new connection.
pub proof fn lemma_answer_adds_no_connection(
    slots: Seq<Option<SlotView>>,
    id: BatchesElemId,
    response: Result<JsonValue, RpcError>,
)
    requires
        awaits(slots, id),
    ensures
        forall|connection: ConnectionId|
            crate::batches::references(with_answer(slots, id, response), connection)
                <==> crate::batches::references(slots, connection),
{
    let after = with_answer(slots, id, response);
    assert forall|connection: ConnectionId|
        crate::batches::references(after, connection) <==> crate::batches::references(
            slots,
            connection,
        ) by {
        if crate::batches::references(after, connection) {
            let j = choose|j: int|
                0 <= j < after.len() && (#[trigger] after[j]) is Some
                    && after[j]->Some_0.connection == Some(connection);
            assert(slots[j] is Some && slots[j]->Some_0.connection == Some(connection));
        }
        if crate::batches::references(slots, connection) {
            let j = choose|j: int|
                0 <= j < slots.len() && (#[trigger] slots[j]) is Some
                    && slots[j]->Some_0.connection == Some(connection);
            assert(after[j] is Some && after[j]->Some_0.connection == Some(connection));
        }
    }
}

impl<'a> RawServerRequest<'a> {
    /// Whether the request is one that its dispatcher holds and that waits
    /// for its answer.
    pub open spec fn valid(self) -> bool {
        self.server@.wf() && awaits(self.server@.batches, self.id.inner)
    }

    /// The connection that delivered the request; `None` once that
    /// connection has closed.
    pub open spec fn spec_connection(self) -> Option<ConnectionId> {
        self.server@.batches[self.id.inner.outer as int]->Some_0.connection
    }

    /// The call that the request is.
    pub open spec fn call(self) -> crate::jsonrpc::MethodCall {
        call_of(self.server@.batches, self.id.inner)
    }

    /// Returns the id of the request.
    ///
    /// If this request object is dropped, you can retrieve it again later by
    /// calling [`request_by_id`](RawServer::request_by_id).
    pub fn id(&self) -> (id: RawServerRequestId)
        ensures
            id == self.id,
    {
        self.id
    }

    /// Returns the id that the client sent out.
    pub fn request_id(&self) -> (id: &Id)
        requires
            self.valid(),
        ensures
            *id == self.call().id,
    {
        let (call, _) = self.server.batches.request_by_id(self.id.inner).unwrap();
        &call.id
    }

    /// Returns the method of this request.
    pub fn method(&self) -> (method: &str)
        requires
            self.valid(),
        ensures
            method@ == self.call().method@,
    {
        let (call, _) = self.server.batches.request_by_id(self.id.inner).unwrap();
        call.method.as_str()
    }

    /// Returns the parameters of the request.
    pub fn params(&self) -> (params: &Params)
        requires
            self.valid(),
        ensures
            *params == self.call().params,
    {
        let (call, _) = self.server.batches.request_by_id(self.id.inner).unwrap();
        &call.params
    }

    /// Returns the connection that delivered the request, or `None` if that
    /// connection has closed.
    pub fn connection(&self) -> (connection: Option<ConnectionId>)
        requires
            self.valid(),
        ensures
            connection == self.spec_connection(),
    {
        let (_, connection) = self.server.batches.request_by_id(self.id.inner).unwrap();
        connection
    }

    /// Send back a response.
    ///
    /// The response is kept with the message of the request. When every
    /// request of that message has its response, the reply of the message
    /// comes out of [`next_event`](RawServer::next_event).
    pub fn respond(self, response: Result<JsonValue, RpcError>)
        requires
            self.valid(),
        ensures
            final(self.server)@.wf(),
            final(self.server)@.registry == old(self.server)@.registry,
            final(self.server)@.batches == with_answer(
                old(self.server)@.batches,
                self.id.inner,
                response,
            ),
            forall|connection: ConnectionId|
                final(self.server)@.references(connection) ==> old(self.server)@.references(
                    connection,
                ),
    {
        let ghost before = self.server@;
        self.server.batches.set_response(self.id.inner, response);
        proof {
            lemma_answer_adds_no_connection(before.batches, self.id.inner, response);
        }
    }

    /// Sends back a response similar to `respond`, then returns a
    /// [`RawServerSubscriptionId`] that allows you to push more data on the
    /// corresponding connection.
    ///
    /// The response is the wire form of the new identifier, as a JSON
    /// string. The subscription starts pending: nothing is pushed on it
    /// until the reply that carries the identifier has left.
    ///
    /// `supports_resuming` says whether the transport can write more than
    /// once on the connection of the request. Returns `Closed` and does
    /// nothing if that connection has closed, else `NotSupported` and does
    /// nothing if the transport cannot.
    pub fn into_subscription(self, supports_resuming: bool) -> (r: Result<
        RawServerSubscriptionId,
        IntoSubscriptionErr,
    >)
        requires
            self.valid(),
        ensures
            final(self.server)@.wf(),
            promoted(old(self.server)@, self.id, supports_resuming, r, final(self.server)@),
            forall|connection: ConnectionId|
                final(self.server)@.references(connection) ==> old(self.server)@.references(
                    connection,
                ),
    {
        let (connection, method) = {
            let (call, connection) = self.server.batches.request_by_id(self.id.inner).unwrap();
            (connection, call.method.clone())
        };
        let connection = match connection {
            Some(connection) => connection,
            None => {
                return Err(IntoSubscriptionErr::Closed);
            },
        };
        if !supports_resuming {
            return Err(IntoSubscriptionErr::NotSupported);
        }
        let ghost before = self.server@;
        let id = self.server.subscriptions.fresh_id();
        self.server.subscriptions.insert(id, connection, method);
        let answer = text_value(id.to_wire_string());
        self.server.batches.set_response(self.id.inner, Ok(answer));
        proof {
            lemma_answer_adds_no_connection(before.batches, self.id.inner, Ok(answer));
            assert(before.batches[self.id.inner.outer as int] is Some);
            assert(crate::batches::references(before.batches, connection));
            assert(with_answer(before.batches, self.id.inner, Ok(answer)) == self.server@.batches);
        }
        Ok(id)
    }
}

impl<'a> ServerSubscription<'a> {
    /// Whether the subscription is one that its dispatcher holds.
    pub open spec fn valid(self) -> bool {
        self.server@.wf() && self.server@.registry.subscriptions.dom().contains(self.id@)
    }

    /// What the registry knows of the subscription.
    pub open spec fn state(self) -> SubscriptionState {
        self.server@.registry.subscriptions[self.id@]
    }

    /// Returns the id of the subscription.
    ///
    /// If this subscription object is dropped, you can retrieve it again
    /// later by calling [`subscription_by_id`](RawServer::subscription_by_id).
    pub fn id(&self) -> (id: RawServerSubscriptionId)
        ensures
            id == self.id,
    {
        self.id
    }

    /// Pushes a notification.
    ///
    /// Returns the write that carries `message` to the client of the
    /// subscription. While the subscription is pending nothing is to be
    /// written and `None` is returned: no push leaves before the reply
    /// that tells the client of the subscription. The dispatcher does not
    /// change.
    pub fn push(self, message: JsonValue) -> (write: Option<TransportCommand>)
        requires
            self.valid(),
        ensures
            *final(self.server) == *old(self.server),
            match write {
                None => self.state().pending,
                Some(command) => {
                    &&& !self.state().pending
                    &&& command matches TransportCommand::Send { id, response }
                    &&& id == self.state().raw_id
                    &&& old(self.server)@.references(id)
                    &&& response matches Response::Notif(notif)
                    &&& notif.method == self.state().method
                    &&& notif.subscription@ == base58_encoded(self.id@)
                    &&& notif.result == message
                },
            },
    {
        let state = self.server.subscriptions.get(&self.id).unwrap();
        if state.pending {
            return None;
        }
        proof {
            crate::registry::lemma_count_is_number_of_subscriptions(
                self.server@.registry,
                state.raw_id,
            );
        }
        let notif = SubscriptionNotif {
            method: state.method.clone(),
            subscription: self.id.to_wire_string(),
            result: message,
        };
        Some(TransportCommand::Send { id: state.raw_id, response: Response::Notif(notif) })
    }

    /// Destroys the subscription.
    ///
    /// This does not send any message back to the client. Instead, this
    /// function is supposed to be used in reaction to the client requesting
    /// to be unsubscribed.
    ///
    /// If this was the last subscription on its connection and its
    /// subscribe reply has left, the connection is to be released: the
    /// write that does so is returned. While the reply has yet to leave,
    /// the connection is kept for it; the reply will then finish the
    /// connection.
    pub fn close(self) -> (write: Option<TransportCommand>)
        requires
            self.valid(),
        ensures
            final(self.server)@.wf(),
            closes(old(self.server)@, self.id, write, final(self.server)@),
            write is Some ==> old(self.server)@.references(self.state().raw_id),
            forall|connection: ConnectionId|
                final(self.server)@.references(connection) ==> old(self.server)@.references(
                    connection,
                ),
    {
        proof {
            crate::registry::lemma_count_is_number_of_subscriptions(
                self.server@.registry,
                self.state().raw_id,
            );
            assert(crate::registry::on_connection(
                self.server@.registry.subscriptions,
                self.state().raw_id,
            ).contains(self.id@));
        }
        let (state, is_last) = self.server.subscriptions.remove(&self.id);
        if is_last && !state.pending {
            Some(TransportCommand::Finish { id: state.raw_id, response: None })
        } else {
            None
        }
    }
}

} // verus!
