//! The batch tracker: every message that still owes something.
//!
//! A message is taken in together with the connection that delivered it.
//! From then on the tracker hands out its notifications and requests one by
//! one, gathers the answers, and gives the reply of a message once, when
//! every request of that message has its answer. The connection of a
//! message is forgotten when the transport reports it closed; the reply of
//! such a message is still given, with no connection to send it on.

use crate::batch::{BatchInc, BatchState, BatchView, Queued};
use crate::jsonrpc::{MethodCall, Notification, Request, Response, RpcError};
use crate::transport::ConnectionId;
use serde_json::Value;
use vstd::prelude::*;

verus! {

/// Identifier of a request within a [`BatchesState`].
#[derive(Debug, Copy, Clone, PartialEq, Eq, Structural)]
pub struct BatchesElemId {
    /// Slot of the message.
    pub outer: usize,
    /// Index of the request within the message.
    pub inner: usize,
}

/// Event generated by [`BatchesState::next_event`].
#[derive(Debug, Clone, PartialEq)]
pub enum BatchesEvent {
    /// A notification. It needs no answer.
    Notification {
        /// The notification.
        notification: Notification,
        /// Connection of the message that held it.
        connection: Option<ConnectionId>,
    },
    /// A request. Its answer is given with [`BatchesState::set_response`].
    Request(BatchesElemId),
    /// Every request of a message has its answer: the reply is ready.
    ReadyToSend {
        /// The reply.
        response: Response,
        /// Connection to send it on; `None` if that connection has closed.
        connection: Option<ConnectionId>,
    },
}

/// A message and its connection, as contracts see them.
pub struct SlotView {
    /// The message.
    pub batch: BatchView,
    /// The connection that delivered it; `None` once that connection has
    /// closed.
    pub connection: Option<ConnectionId>,
}

/// Whether a slot holds a message that has something to hand out: a queued
/// call, or its reply.
pub open spec fn actionable(slot: Option<SlotView>) -> bool {
    slot matches Some(s) && (s.batch.queued.len() > 0 || s.batch.complete())
}

/// Whether `i` is the first slot that has something to hand out.
pub open spec fn is_next(slots: Seq<Option<SlotView>>, i: int) -> bool {
    &&& 0 <= i < slots.len()
    &&& actionable(slots[i])
    &&& forall|j: int| 0 <= j < i ==> !actionable(#[trigger] slots[j])
}

/// Whether `k` is where the next message goes: the first free slot, or a
/// new slot at the end.
pub open spec fn is_free(slots: Seq<Option<SlotView>>, k: int) -> bool {
    &&& 0 <= k <= slots.len()
    &&& k < slots.len() ==> slots[k] is None
    &&& forall|j: int| 0 <= j < k ==> (#[trigger] slots[j]) is Some
}

/// The slots after `slot` was put at `k`.
pub open spec fn placed(slots: Seq<Option<SlotView>>, k: int, slot: SlotView) -> Seq<
    Option<SlotView>,
> {
    if k < slots.len() {
        slots.update(k, Some(slot))
    } else {
        slots.push(Some(slot))
    }
}

/// The number of messages held.
pub open spec fn live(slots: Seq<Option<SlotView>>) -> nat
    decreases slots.len(),
{
    if slots.len() == 0 {
        0
    } else {
        live(slots.drop_last()) + if slots.last() is Some {
            1nat
        } else {
            0nat
        }
    }
}

/// Whether the request `id` was handed out and waits for its answer.
pub open spec fn awaits(slots: Seq<Option<SlotView>>, id: BatchesElemId) -> bool {
    &&& id.outer < slots.len()
    &&& slots[id.outer as int] matches Some(s)
    &&& s.batch.awaits(id.inner as int)
}

/// The request `id`, where it waits for its answer.
pub open spec fn call_of(slots: Seq<Option<SlotView>>, id: BatchesElemId) -> MethodCall
    recommends
        awaits(slots, id),
{
    slots[id.outer as int]->Some_0.batch.awaiting[id.inner as int]->Some_0
}

/// The invariant of the tracker: every message held is well formed and
/// still owes something.
pub open spec fn slots_wf(slots: Seq<Option<SlotView>>) -> bool {
    forall|i: int|
        0 <= i < slots.len() ==> ((#[trigger] slots[i]) matches Some(s) ==> s.batch.wf()
            && !s.batch.spent())
}

/// The slots after the request `id` was answered with `response`.
pub open spec fn with_answer(
    slots: Seq<Option<SlotView>>,
    id: BatchesElemId,
    response: Result<Value, RpcError>,
) -> Seq<Option<SlotView>>
    recommends
        awaits(slots, id),
{
    let slot = slots[id.outer as int]->Some_0;
    slots.update(
        id.outer as int,
        Some(SlotView { batch: slot.batch.answered(id.inner as int, response), ..slot }),
    )
}

/// Whether some message held was delivered by `connection` and that
/// connection has not closed since.
pub open spec fn references(slots: Seq<Option<SlotView>>, connection: ConnectionId) -> bool {
    exists|i: int|
        0 <= i < slots.len() && (#[trigger] slots[i]) is Some && slots[i]->Some_0.connection
            == Some(connection)
}

/// A slot after `connection` has closed.
pub open spec fn without_connection(slot: Option<SlotView>, connection: ConnectionId) -> Option<
    SlotView,
> {
    match slot {
        Some(s) => Some(
            SlotView {
                connection: if s.connection == Some(connection) {
                    None
                } else {
                    s.connection
                },
                ..s
            },
        ),
        None => None,
    }
}

/// What handing out from slot `i` does: the event `event` comes out and the
/// slots become `after`.
///
/// A queued call comes first. A notification leaves its slot free if
/// nothing is owed after it. With no call queued the message is complete:
/// its reply comes out and the slot is free.
pub open spec fn hands_out(
    slots: Seq<Option<SlotView>>,
    i: int,
    event: BatchesEvent,
    after: Seq<Option<SlotView>>,
) -> bool
    recommends
        is_next(slots, i),
{
    let slot = slots[i]->Some_0;
    if slot.batch.queued.len() > 0 {
        let advanced = SlotView { batch: slot.batch.advanced(), ..slot };
        match slot.batch.queued[0] {
            Queued::Notification(notification) => {
                &&& event == BatchesEvent::Notification {
                    notification,
                    connection: slot.connection,
                }
                &&& after == if advanced.batch.spent() {
                    slots.update(i, None)
                } else {
                    slots.update(i, Some(advanced))
                }
            },
            Queued::Request(_) => {
                &&& event matches BatchesEvent::Request(id)
                &&& id.outer == i
                &&& id.inner == slot.batch.awaiting.len()
                &&& after == slots.update(i, Some(advanced))
            },
        }
    } else {
        &&& event matches BatchesEvent::ReadyToSend { response, connection }
        &&& connection == slot.connection
        &&& slot.batch.is_reply(response)
        &&& response matches Response::Batch(outputs) ==> outputs@.len() == slot.batch.expected
        &&& after == slots.update(i, None)
    }
}

/// The reply of a message is handed out only when every call of the message
/// was handed out and every request has its answer. It holds one answer for
/// each request and each invalid call of the message. Its slot is free
/// afterwards, so that no second reply of the message can follow.
pub proof fn lemma_reply_once_when_complete(
    slots: Seq<Option<SlotView>>,
    i: int,
    event: BatchesEvent,
    after: Seq<Option<SlotView>>,
)
    requires
        slots_wf(slots),
        is_next(slots, i),
        hands_out(slots, i, event, after),
        event is ReadyToSend,
    ensures
        slots[i]->Some_0.batch.complete(),
        slots[i]->Some_0.batch.is_reply(event->response),
        slots[i]->Some_0.batch.responses.len() == slots[i]->Some_0.batch.expected,
        after[i] is None,
        forall|j: int| 0 <= j < slots.len() && j != i ==> after[j] == slots[j],
{
    let batch = slots[i]->Some_0.batch;
    crate::batch::lemma_unanswered_zero(batch.awaiting);
    assert(batch.queued =~= Seq::<Queued>::empty());
}

/// Freeing a slot that held a message leaves one message fewer; filling a
/// slot that was free, or adding one, leaves one more.
pub proof fn lemma_live_update(slots: Seq<Option<SlotView>>, i: int, slot: Option<SlotView>)
    requires
        0 <= i < slots.len(),
    ensures
        live(slots.update(i, slot)) + if slots[i] is Some {
            1nat
        } else {
            0nat
        } == live(slots) + if slot is Some {
            1nat
        } else {
            0nat
        },
    decreases slots.len(),
{
    let after = slots.update(i, slot);
    if i == slots.len() - 1 {
        assert(after.drop_last() =~= slots.drop_last());
    } else {
        lemma_live_update(slots.drop_last(), i, slot);
        assert(after.drop_last() =~= slots.drop_last().update(i, slot));
    }
}

/// A message and the connection that delivered it.
struct Slot {
    batch: BatchState,
    connection: Option<ConnectionId>,
}

/// The batch tracker.
pub struct BatchesState {
    /// The messages held. A slot is free again once its message has given
    /// all it owed.
    slots: Vec<Option<Slot>>,
}

impl BatchesState {
    spec fn slot_view(slot: Option<Slot>) -> Option<SlotView> {
        match slot {
            Some(s) => Some(SlotView { batch: s.batch@, connection: s.connection }),
            None => None,
        }
    }
}

impl View for BatchesState {
    type V = Seq<Option<SlotView>>;

    closed spec fn view(&self) -> Seq<Option<SlotView>> {
        self.slots@.map_values(|slot: Option<Slot>| BatchesState::slot_view(slot))
    }
}

impl BatchesState {
    /// The invariant of the tracker, see [`slots_wf`].
    pub open spec fn wf(&self) -> bool {
        slots_wf(self@)
    }

    /// Returns a tracker that holds no message.
    pub fn new() -> (state: BatchesState)
        ensures
            state.wf(),
            state@.len() == 0,
    {
        BatchesState { slots: Vec::new() }
    }

    /// Takes in a message that `connection` delivered.
    ///
    /// The message goes to the first free slot. A message without any call
    /// owes nothing and is not kept.
    #[verifier::loop_isolation(false)]
    pub fn inject(&mut self, request: Request, connection: Option<ConnectionId>)
        requires
            old(self).wf(),
        ensures
            final(self).wf(),
            crate::batch::calls_of(request).len() == 0 ==> final(self)@ == old(self)@,
            crate::batch::calls_of(request).len() > 0 ==> exists|k: int, batch: BatchView|
                {
                    &&& batch.fresh_from(request)
                    &&& is_free(old(self)@, k)
                    &&& final(self)@ == placed(old(self)@, k, SlotView { batch, connection })
                },
    {
        let ghost before = self@;
        let batch = BatchState::from_request(request);
        proof {
            crate::batch::lemma_queued_of_len(crate::batch::calls_of(request));
        }
        if batch.is_spent() {
            return ;
        }
        let ghost slot_view = SlotView { batch: batch@, connection };
        let mut k: usize = 0;
        while k < self.slots.len()
            invariant
                k <= self.slots@.len(),
                self@ == before,
                forall|j: int| 0 <= j < k ==> (#[trigger] before[j]) is Some,
            decreases self.slots@.len() - k,
        {
            if self.slots[k].is_none() {
                self.slots[k] = Some(Slot { batch, connection });
                proof {
                    assert(self@ =~= before.update(k as int, Some(slot_view)));
                    assert(is_free(before, k as int));
                    assert(self@ == placed(before, k as int, slot_view));
                }
                return ;
            }
            k = k + 1;
        }
        self.slots.push(Some(Slot { batch, connection }));
        proof {
            assert(self@ =~= before.push(Some(slot_view)));
            assert(is_free(before, k as int));
            assert(self@ == placed(before, k as int, slot_view));
        }
    }

    /// Hands out the next thing that some message has to give: a queued
    /// call, or the reply of a message that is complete. Returns `None`
    /// when every message held waits for answers.
    ///
    /// The first slot that has something to give is served. A reply frees
    /// its slot, so each message gives its reply once.
    #[verifier::loop_isolation(false)]
    pub fn next_event(&mut self) -> (r: Option<BatchesEvent>)
        requires
            old(self).wf(),
        ensures
            final(self).wf(),
            final(self)@.len() == old(self)@.len(),
            match r {
                None => {
                    &&& final(self)@ == old(self)@
                    &&& forall|i: int|
                        0 <= i < old(self)@.len() ==> !actionable(#[trigger] old(self)@[i])
                },
                Some(event) => exists|i: int|
                    is_next(old(self)@, i) && hands_out(old(self)@, i, event, final(self)@),
            },
            r matches Some(BatchesEvent::ReadyToSend { .. }) ==> live(final(self)@) < live(
                old(self)@,
            ),
    {
        let ghost before = self@;
        let mut i: usize = 0;
        while i < self.slots.len()
            invariant
                i <= self.slots@.len(),
                self@ == before,
                self.wf(),
                forall|j: int| 0 <= j < i ==> !actionable(#[trigger] before[j]),
            decreases self.slots@.len() - i,
        {
            let (has_next, ready) = match &self.slots[i] {
                Some(slot) => (slot.batch.has_queued(), slot.batch.is_ready_to_respond()),
                None => (false, false),
            };
            assert(before[i as int] == BatchesState::slot_view(self.slots@[i as int]));
            if has_next {
                let ghost held = before[i as int]->Some_0;
                let ghost advanced = SlotView { batch: held.batch.advanced(), ..held };
                let (inc, connection, spent) = match &mut self.slots[i] {
                    Some(slot) => {
                        let inc = slot.batch.next();
                        (inc, slot.connection, slot.batch.is_spent())
                    },
                    None => (None, None, false),
                };
                assert(self@ =~= before.update(i as int, Some(advanced)));
                match inc {
                    Some(BatchInc::Notification(notification)) => {
                        if spent {
                            self.slots[i] = None;
                            assert(self@ =~= before.update(i as int, None));
                        }
                        let event = BatchesEvent::Notification { notification, connection };
                        assert(is_next(before, i as int));
                        assert(hands_out(before, i as int, event, self@));
                        return Some(event);
                    },
                    Some(BatchInc::Request(inner)) => {
                        let event = BatchesEvent::Request(BatchesElemId { outer: i, inner });
                        proof {
                            crate::batch::lemma_unanswered_zero(advanced.batch.awaiting);
                            assert(advanced.batch.awaiting[inner as int] is Some);
                            assert(is_next(before, i as int));
                            assert(hands_out(before, i as int, event, self@));
                        }
                        return Some(event);
                    },
                    None => {},
                }
            } else if ready {
                let ghost held = before[i as int]->Some_0;
                let slot = self.slots[i].take().unwrap();
                let connection = slot.connection;
                let response = slot.batch.into_response().unwrap();
                let event = BatchesEvent::ReadyToSend { response, connection };
                proof {
                    assert(self@ =~= before.update(i as int, None));
                    lemma_live_update(before, i as int, None);
                    assert(is_next(before, i as int));
                    assert(hands_out(before, i as int, event, self@));
                }
                return Some(event);
            }
            i = i + 1;
        }
        None
    }

    /// Returns the request `id` while it waits for its answer, together
    /// with the connection of its message. Returns `None` for an identifier
    /// that names no request, or one that was answered.
    pub fn request_by_id(&self, id: BatchesElemId) -> (r: Option<
        (&MethodCall, Option<ConnectionId>),
    >)
        ensures
            match r {
                Some((call, connection)) => {
                    &&& awaits(self@, id)
                    &&& *call == call_of(self@, id)
                    &&& connection == self@[id.outer as int]->Some_0.connection
                },
                None => !awaits(self@, id),
            },
    {
        if id.outer < self.slots.len() {
            assert(self@[id.outer as int] == BatchesState::slot_view(self.slots@[id.outer as int]));
            match &self.slots[id.outer] {
                Some(slot) => match slot.batch.request(id.inner) {
                    Some(call) => Some((call, slot.connection)),
                    None => None,
                },
                None => None,
            }
        } else {
            None
        }
    }

    /// Gives the request `id` its answer.
    pub fn set_response(&mut self, id: BatchesElemId, response: Result<Value, RpcError>)
        requires
            old(self).wf(),
            awaits(old(self)@, id),
        ensures
            final(self).wf(),
            final(self)@ == with_answer(old(self)@, id, response),
    {
        let ghost before = self@;
        assert(before[id.outer as int] == BatchesState::slot_view(self.slots@[id.outer as int]));
        match &mut self.slots[id.outer] {
            Some(slot) => {
                slot.batch.set_response(id.inner, response);
            },
            None => {},
        }
        proof {
            let held = before[id.outer as int]->Some_0;
            assert(self@ =~= before.update(
                id.outer as int,
                Some(SlotView { batch: held.batch.answered(id.inner as int, response), ..held }),
            ));
        }
    }

    /// Forgets `connection`: every message that it delivered is left
    /// without a connection. Its reply will come out with none.
    #[verifier::loop_isolation(false)]
    pub fn forget_connection(&mut self, connection: ConnectionId)
        requires
            old(self).wf(),
        ensures
            final(self).wf(),
            final(self)@.len() == old(self)@.len(),
            forall|i: int|
                0 <= i < old(self)@.len() ==> #[trigger] final(self)@[i] == without_connection(
                    old(self)@[i],
                    connection,
                ),
            !references(final(self)@, connection),
    {
        let ghost before = self@;
        let mut i: usize = 0;
        while i < self.slots.len()
            invariant
                i <= self.slots@.len(),
                self@.len() == before.len(),
                forall|j: int|
                    0 <= j < i ==> #[trigger] self@[j] == without_connection(before[j], connection),
                forall|j: int| i <= j < before.len() ==> #[trigger] self@[j] == before[j],
            decreases self.slots@.len() - i,
        {
            let ghost now = self@;
            assert(now[i as int] == BatchesState::slot_view(self.slots@[i as int]));
            match &mut self.slots[i] {
                Some(slot) => {
                    if slot.connection == Some(connection) {
                        slot.connection = None;
                    }
                },
                None => {},
            }
            assert(self@ =~= now.update(i as int, without_connection(before[i as int], connection)));
            i = i + 1;
        }
    }
}

} // verus!
