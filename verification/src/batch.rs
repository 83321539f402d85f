//! One message of a client while its calls are being answered.
//!
//! A message holds notifications, which are handed out once and never
//! answered, and requests, which are handed out once and answered later. The
//! answers are gathered in the order in which they are given. When every
//! request has its answer the reply of the whole message can be taken.

use crate::jsonrpc::{
    Call, ErrorCode, Id, MethodCall, Notification, Output, Request, Response, RpcError,
};
use serde_json::Value;
use vstd::prelude::*;

verus! {

/// A call that has not been handed out yet.
#[derive(Debug, Clone, PartialEq)]
pub enum Queued {
    /// A call that expects no answer.
    Notification(Notification),
    /// A call that expects an answer.
    Request(MethodCall),
}

/// What [`BatchState::next`] hands out.
#[derive(Debug, Clone, PartialEq)]
pub enum BatchInc {
    /// A notification. It needs no answer.
    Notification(Notification),
    /// A request, by its index within the message.
    Request(usize),
}

/// The state of a message, as contracts see it.
pub struct BatchView {
    /// The calls not handed out yet, the next one first.
    pub queued: Seq<Queued>,
    /// The requests handed out so far, by index: the call while it waits
    /// for its answer, `None` once it is answered.
    pub awaiting: Seq<Option<MethodCall>>,
    /// The answers gathered so far, in the order in which they were given.
    pub responses: Seq<Output>,
    /// Whether the message was a batch.
    pub is_batch: bool,
    /// The number of answers that the reply will hold.
    pub expected: nat,
}

/// The number of requests among queued calls.
pub open spec fn queued_requests(queued: Seq<Queued>) -> nat
    decreases queued.len(),
{
    if queued.len() == 0 {
        0
    } else {
        queued_requests(queued.drop_last()) + if queued.last() is Request {
            1nat
        } else {
            0nat
        }
    }
}

/// The number of requests that still wait for an answer.
pub open spec fn unanswered(awaiting: Seq<Option<MethodCall>>) -> nat
    decreases awaiting.len(),
{
    if awaiting.len() == 0 {
        0
    } else {
        unanswered(awaiting.drop_last()) + if awaiting.last() is Some {
            1nat
        } else {
            0nat
        }
    }
}

/// The calls of a message, in order.
pub open spec fn calls_of(request: Request) -> Seq<Call> {
    match request {
        Request::Single(call) => seq![call],
        Request::Batch(calls) => calls@,
    }
}

/// The calls to hand out, in order: every call but the invalid ones.
pub open spec fn queued_of(calls: Seq<Call>) -> Seq<Queued>
    decreases calls.len(),
{
    if calls.len() == 0 {
        Seq::empty()
    } else {
        let before = queued_of(calls.drop_last());
        match calls.last() {
            Call::MethodCall(call) => before.push(Queued::Request(call)),
            Call::Notification(notification) => before.push(Queued::Notification(notification)),
            Call::Invalid { .. } => before,
        }
    }
}

/// The identifiers of the invalid calls, in order.
pub open spec fn invalid_ids(calls: Seq<Call>) -> Seq<Id>
    decreases calls.len(),
{
    if calls.len() == 0 {
        Seq::empty()
    } else {
        let before = invalid_ids(calls.drop_last());
        match calls.last() {
            Call::Invalid { id } => before.push(id),
            _ => before,
        }
    }
}

/// Whether `output` is the invalid-request error for the call `id`.
pub open spec fn is_invalid_request(output: Output, id: Id) -> bool {
    &&& output matches Output::Failure { error, id: output_id }
    &&& output_id == id
    &&& error.code == ErrorCode::InvalidRequest
    &&& error.message@ == ErrorCode::InvalidRequest.spec_description()
    &&& error.data is None
}

impl BatchView {
    /// Whether the request `index` was handed out and waits for its answer.
    pub open spec fn awaits(self, index: int) -> bool {
        0 <= index < self.awaiting.len() && self.awaiting[index] is Some
    }

    /// Whether every request handed out so far has its answer.
    pub open spec fn all_answered(self) -> bool {
        forall|i: int| 0 <= i < self.awaiting.len() ==> self.awaiting[i] is None
    }

    /// Whether every call was handed out and every request has its answer.
    pub open spec fn complete(self) -> bool {
        self.queued.len() == 0 && self.all_answered()
    }

    /// Whether the message is complete and has nothing to reply.
    pub open spec fn spent(self) -> bool {
        self.complete() && self.responses.len() == 0
    }

    /// Whether `response` is the reply of this message: the gathered
    /// answers as a batch for a batch, the one answer for a single call.
    pub open spec fn is_reply(self, response: Response) -> bool {
        if self.is_batch {
            response matches Response::Batch(outputs) && outputs@ == self.responses
        } else {
            response matches Response::Single(output) && self.responses.len() == 1 && output
                == self.responses[0]
        }
    }

    /// Whether this is the state of `request` as it was taken in: the invalid
    /// calls answered with an invalid-request error, every other call
    /// queued, in order.
    pub open spec fn fresh_from(self, request: Request) -> bool {
        &&& self.wf()
        &&& self.queued == queued_of(calls_of(request))
        &&& self.awaiting.len() == 0
        &&& self.is_batch == (request is Batch)
        &&& self.responses.len() == invalid_ids(calls_of(request)).len()
        &&& forall|k: int|
            0 <= k < self.responses.len() ==> is_invalid_request(
                #[trigger] self.responses[k],
                invalid_ids(calls_of(request))[k],
            )
    }

    /// The state after the request `index` was answered with `response`.
    pub open spec fn answered(self, index: int, response: Result<Value, RpcError>) -> BatchView {
        BatchView {
            awaiting: self.awaiting.update(index, None),
            responses: self.responses.push(
                Output::spec_from(response, self.awaiting[index]->Some_0.id),
            ),
            ..self
        }
    }

    /// The state after the first queued call was handed out.
    pub open spec fn advanced(self) -> BatchView {
        match self.queued[0] {
            Queued::Notification(_) => BatchView { queued: self.queued.drop_first(), ..self },
            Queued::Request(call) => BatchView {
                queued: self.queued.drop_first(),
                awaiting: self.awaiting.push(Some(call)),
                ..self
            },
        }
    }

    /// The invariant of a message: each answer that the reply will hold is
    /// gathered already, or belongs to a request that waits, or to a
    /// request in the queue. A single call has at most one answer.
    pub open spec fn wf(self) -> bool {
        &&& self.responses.len() + unanswered(self.awaiting) + queued_requests(self.queued)
            == self.expected
        &&& !self.is_batch ==> self.expected <= 1
    }
}

/// No request waits exactly where every request handed out has its answer.
pub proof fn lemma_unanswered_zero(awaiting: Seq<Option<MethodCall>>)
    ensures
        unanswered(awaiting) == 0 <==> (forall|i: int|
            0 <= i < awaiting.len() ==> awaiting[i] is None),
    decreases awaiting.len(),
{
    if awaiting.len() > 0 {
        lemma_unanswered_zero(awaiting.drop_last());
        if unanswered(awaiting) == 0 {
            assert forall|i: int| 0 <= i < awaiting.len() implies awaiting[i] is None by {
                if i < awaiting.len() - 1 {
                    assert(awaiting.drop_last()[i] == awaiting[i]);
                }
            }
        } else if forall|i: int| 0 <= i < awaiting.len() ==> awaiting[i] is None {
            assert forall|i: int| 0 <= i < awaiting.drop_last().len() implies awaiting.drop_last()[i]
                is None by {
                assert(awaiting.drop_last()[i] == awaiting[i]);
            }
        }
    }
}

/// Answering a request that waits leaves one request fewer waiting.
pub proof fn lemma_unanswered_answer(awaiting: Seq<Option<MethodCall>>, index: int)
    requires
        0 <= index < awaiting.len(),
        awaiting[index] is Some,
    ensures
        unanswered(awaiting.update(index, None)) + 1 == unanswered(awaiting),
    decreases awaiting.len(),
{
    let after = awaiting.update(index, None);
    if index == awaiting.len() - 1 {
        assert(after.drop_last() =~= awaiting.drop_last());
    } else {
        lemma_unanswered_answer(awaiting.drop_last(), index);
        assert(after.drop_last() =~= awaiting.drop_last().update(index, None));
    }
}

/// Taking the first call off the queue takes one request off exactly where
/// that call is a request.
pub proof fn lemma_queued_drop_first(queued: Seq<Queued>)
    requires
        queued.len() > 0,
    ensures
        queued_requests(queued) == queued_requests(queued.drop_first()) + if queued[0]
            is Request {
            1nat
        } else {
            0nat
        },
    decreases queued.len(),
{
    if queued.len() == 1 {
        assert(queued.drop_last() =~= queued.drop_first());
        assert(queued_requests(queued.drop_last()) == 0);
    } else {
        lemma_queued_drop_first(queued.drop_last());
        assert(queued.drop_last().drop_first() =~= queued.drop_first().drop_last());
    }
}

/// Each call is either queued or invalid, and the queue holds no more
/// requests than calls.
pub proof fn lemma_queued_of_len(calls: Seq<Call>)
    ensures
        queued_of(calls).len() + invalid_ids(calls).len() == calls.len(),
        queued_requests(queued_of(calls)) <= queued_of(calls).len(),
    decreases calls.len(),
{
    if calls.len() > 0 {
        lemma_queued_of_len(calls.drop_last());
        let before = queued_of(calls.drop_last());
        match calls.last() {
            Call::MethodCall(call) => {
                assert(before.push(Queued::Request(call)).drop_last() =~= before);
            },
            Call::Notification(notification) => {
                assert(before.push(Queued::Notification(notification)).drop_last() =~= before);
            },
            Call::Invalid { .. } => {},
        }
    }
}

/// A message of a client while its calls are being answered.
pub struct BatchState {
    /// Calls not handed out yet, the next one last.
    to_yield: Vec<Queued>,
    /// Requests handed out; `None` once answered.
    requests: Vec<Option<MethodCall>>,
    /// Answers gathered so far.
    responses: Vec<Output>,
    /// Whether the message was a batch.
    is_batch: bool,
    /// Number of answers that the reply will hold.
    expected: Ghost<nat>,
}

impl View for BatchState {
    type V = BatchView;

    closed spec fn view(&self) -> BatchView {
        BatchView {
            queued: self.to_yield@.reverse(),
            awaiting: self.requests@,
            responses: self.responses@,
            is_batch: self.is_batch,
            expected: self.expected@,
        }
    }
}

impl BatchState {
    /// Takes in a message. Invalid calls are answered at once with an
    /// invalid-request error; every other call is queued, in order.
    pub fn from_request(request: Request) -> (batch: BatchState)
        ensures
            batch@.fresh_from(request),
    {
        let ghost all = calls_of(request);
        let (calls, is_batch) = match request {
            Request::Single(call) => {
                let mut one: Vec<Call> = Vec::new();
                one.push(call);
                assert(one@ =~= seq![call]);
                (one, false)
            },
            Request::Batch(calls) => (calls, true),
        };
        let mut in_order: Vec<Queued> = Vec::new();
        let mut responses: Vec<Output> = Vec::new();
        for call in it: calls.into_iter()
            invariant
                it.seq() == all,
                in_order@ == queued_of(all.take(it.index() as int)),
                responses@.len() == invalid_ids(all.take(it.index() as int)).len(),
                forall|k: int|
                    0 <= k < responses@.len() ==> is_invalid_request(
                        #[trigger] responses@[k],
                        invalid_ids(all.take(it.index() as int))[k],
                    ),
        {
            proof {
                let i = it.index() as int;
                assert(all.take(i + 1).drop_last() =~= all.take(i));
                assert(all.take(i + 1).last() == call);
            }
            match call {
                Call::MethodCall(call) => {
                    in_order.push(Queued::Request(call));
                },
                Call::Notification(notification) => {
                    in_order.push(Queued::Notification(notification));
                },
                Call::Invalid { id } => {
                    let error = RpcError::from_code(ErrorCode::InvalidRequest);
                    responses.push(Output::Failure { error, id });
                },
            }
        }
        assert(all.take(all.len() as int) =~= all);
        // The queue is kept with the next call last, so that handing one
        // out is a pop.
        let ghost queued = in_order@;
        let mut to_yield: Vec<Queued> = Vec::new();
        while in_order.len() > 0
            invariant
                in_order@ + to_yield@.reverse() == queued,
            decreases in_order@.len(),
        {
            let ghost before = in_order@;
            let ghost done = to_yield@;
            let item = in_order.pop().unwrap();
            to_yield.push(item);
            assert(in_order@ + to_yield@.reverse() =~= before + done.reverse()) by {
                assert(to_yield@.reverse() =~= seq![item] + done.reverse());
                assert(before =~= in_order@ + seq![item]);
            }
        }
        assert(to_yield@.reverse() =~= queued);
        proof {
            lemma_queued_of_len(all);
            if !is_batch {
                assert(all.len() == 1);
            }
        }
        let ghost expected: nat = responses@.len() + queued_requests(queued);
        BatchState {
            to_yield,
            requests: Vec::new(),
            responses,
            is_batch,
            expected: Ghost(expected),
        }
    }

    /// Hands out the next call of the message, or `None` when every call
    /// was handed out. A request gets the next free index.
    pub fn next(&mut self) -> (r: Option<BatchInc>)
        requires
            old(self)@.wf(),
        ensures
            final(self)@.wf(),
            match r {
                None => old(self)@.queued.len() == 0 && final(self)@ == old(self)@,
                Some(BatchInc::Notification(notification)) => {
                    &&& old(self)@.queued.len() > 0
                    &&& old(self)@.queued[0] == Queued::Notification(notification)
                    &&& final(self)@ == old(self)@.advanced()
                },
                Some(BatchInc::Request(index)) => {
                    &&& old(self)@.queued.len() > 0
                    &&& old(self)@.queued[0] is Request
                    &&& index == old(self)@.awaiting.len()
                    &&& final(self)@ == old(self)@.advanced()
                },
            },
    {
        let ghost before = self@;
        match self.to_yield.pop() {
            None => None,
            Some(item) => {
                proof {
                    assert(before.queued[0] == item);
                    assert(self.to_yield@.reverse() =~= before.queued.drop_first());
                    lemma_queued_drop_first(before.queued);
                }
                match item {
                    Queued::Notification(notification) => Some(
                        BatchInc::Notification(notification),
                    ),
                    Queued::Request(call) => {
                        let index = self.requests.len();
                        self.requests.push(Some(call));
                        proof {
                            assert(self.requests@.drop_last() =~= before.awaiting);
                        }
                        Some(BatchInc::Request(index))
                    },
                }
            },
        }
    }

    /// Returns whether a call is still to be handed out.
    pub fn has_queued(&self) -> (r: bool)
        ensures
            r == (self@.queued.len() > 0),
    {
        self.to_yield.len() > 0
    }

    /// Returns whether every call was handed out and every request has its
    /// answer.
    pub fn is_ready_to_respond(&self) -> (r: bool)
        ensures
            r == self@.complete(),
    {
        if self.to_yield.len() > 0 {
            return false;
        }
        let mut i: usize = 0;
        while i < self.requests.len()
            invariant
                i <= self.requests@.len(),
                forall|j: int| 0 <= j < i ==> self.requests@[j] is None,
            decreases self.requests@.len() - i,
        {
            if self.requests[i].is_some() {
                return false;
            }
            i = i + 1;
        }
        true
    }

    /// Returns whether the message is complete and has nothing to reply.
    pub fn is_spent(&self) -> (r: bool)
        ensures
            r == self@.spent(),
    {
        self.responses.len() == 0 && self.is_ready_to_respond()
    }

    /// Returns the request `index` while it waits for its answer.
    pub fn request(&self, index: usize) -> (r: Option<&MethodCall>)
        ensures
            match r {
                Some(call) => self@.awaits(index as int) && self@.awaiting[index as int] == Some(
                    *call,
                ),
                None => !self@.awaits(index as int),
            },
    {
        if index < self.requests.len() {
            self.requests[index].as_ref()
        } else {
            None
        }
    }

    /// Gives the request `index` its answer.
    pub fn set_response(&mut self, index: usize, response: Result<Value, RpcError>)
        requires
            old(self)@.wf(),
            old(self)@.awaits(index as int),
        ensures
            final(self)@.wf(),
            final(self)@ == old(self)@.answered(index as int, response),
    {
        let ghost before = self@;
        let taken = self.requests[index].take();
        match taken {
            Some(call) => {
                self.responses.push(Output::from(response, call.id));
                proof {
                    assert(self.requests@ =~= before.awaiting.update(index as int, None));
                    lemma_unanswered_answer(before.awaiting, index as int);
                }
            },
            None => {},
        }
    }

    /// Takes the reply of a complete message: `None` where nothing was to
    /// be answered, else one answer for each request and each invalid call,
    /// in the order in which they were given.
    pub fn into_response(self) -> (r: Option<Response>)
        requires
            self@.wf(),
            self@.complete(),
        ensures
            match r {
                None => self@.spent(),
                Some(response) => !self@.spent() && self@.is_reply(response),
            },
            self@.responses.len() == self@.expected,
    {
        proof {
            lemma_unanswered_zero(self@.awaiting);
            assert(self@.queued =~= Seq::<Queued>::empty());
        }
        let mut responses = self.responses;
        if responses.len() == 0 {
            None
        } else if self.is_batch {
            Some(Response::Batch(responses))
        } else {
            let output = responses.remove(0);
            Some(Response::Single(output))
        }
    }
}

} // verus!
