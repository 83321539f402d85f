//! The batch tracker.

use serde_json::Value;
use ws_server::batch::{BatchInc, BatchState};
use ws_server::batches::{BatchesElemId, BatchesEvent, BatchesState};
use ws_server::jsonrpc::{
    Call, ErrorCode, Id, MethodCall, Notification, Output, Params, Request, Response, RpcError,
};

fn method_call(method: &str, id: u64) -> Call {
    Call::MethodCall(MethodCall { method: method.to_owned(), params: Params::Absent, id: Id::Num(id) })
}

fn notification(method: &str) -> Call {
    Call::Notification(Notification { method: method.to_owned(), params: Params::Absent })
}

fn success(text: &str, id: u64) -> Output {
    Output::Success { result: Value::String(text.to_owned()), id: Id::Num(id) }
}

fn invalid_request(id: Id) -> Output {
    Output::Failure {
        error: RpcError {
            code: ErrorCode::InvalidRequest,
            message: "Invalid request".to_owned(),
            data: None,
        },
        id,
    }
}

#[test]
fn single_request_is_replied_once_answered() {
    let mut batches = BatchesState::new();
    batches.inject(Request::Single(method_call("a", 7)), Some(3));
    let id = match batches.next_event() {
        Some(BatchesEvent::Request(id)) => id,
        other => panic!("unexpected {:?}", other),
    };
    assert_eq!(id, BatchesElemId { outer: 0, inner: 0 });
    assert_eq!(batches.next_event(), None);
    {
        let (call, connection) = batches.request_by_id(id).unwrap();
        assert_eq!(call.method, "a");
        assert_eq!(call.id, Id::Num(7));
        assert_eq!(connection, Some(3));
    }
    batches.set_response(id, Ok(Value::String("r".to_owned())));
    assert!(batches.request_by_id(id).is_none());
    assert_eq!(
        batches.next_event(),
        Some(BatchesEvent::ReadyToSend {
            response: Response::Single(success("r", 7)),
            connection: Some(3)
        })
    );
    assert_eq!(batches.next_event(), None);
}

#[test]
fn batch_reply_waits_for_every_request() {
    let mut batches = BatchesState::new();
    batches.inject(
        Request::Batch(vec![method_call("a", 1), notification("n"), method_call("b", 2)]),
        Some(9),
    );
    let first = match batches.next_event() {
        Some(BatchesEvent::Request(id)) => id,
        other => panic!("unexpected {:?}", other),
    };
    assert_eq!(
        batches.next_event(),
        Some(BatchesEvent::Notification {
            notification: Notification { method: "n".to_owned(), params: Params::Absent },
            connection: Some(9)
        })
    );
    let second = match batches.next_event() {
        Some(BatchesEvent::Request(id)) => id,
        other => panic!("unexpected {:?}", other),
    };
    assert_eq!(first, BatchesElemId { outer: 0, inner: 0 });
    assert_eq!(second, BatchesElemId { outer: 0, inner: 1 });
    assert_eq!(batches.next_event(), None);
    // The answers are gathered in the order in which they are given.
    batches.set_response(second, Ok(Value::String("two".to_owned())));
    assert_eq!(batches.next_event(), None);
    batches.set_response(first, Ok(Value::String("one".to_owned())));
    assert_eq!(
        batches.next_event(),
        Some(BatchesEvent::ReadyToSend {
            response: Response::Batch(vec![success("two", 2), success("one", 1)]),
            connection: Some(9)
        })
    );
    // The reply is given once.
    assert_eq!(batches.next_event(), None);
    assert!(batches.request_by_id(first).is_none());
}

#[test]
fn invalid_calls_are_answered_at_once() {
    let mut batches = BatchesState::new();
    batches.inject(Request::Single(Call::Invalid { id: Id::Num(1) }), Some(1));
    assert_eq!(
        batches.next_event(),
        Some(BatchesEvent::ReadyToSend {
            response: Response::Single(invalid_request(Id::Num(1))),
            connection: Some(1)
        })
    );
    assert_eq!(batches.next_event(), None);
}

#[test]
fn batch_with_invalid_calls_keeps_their_order() {
    let mut batches = BatchesState::new();
    batches.inject(
        Request::Batch(vec![
            Call::Invalid { id: Id::Null },
            method_call("a", 5),
            Call::Invalid { id: Id::Str("x".to_owned()) },
        ]),
        None,
    );
    let id = match batches.next_event() {
        Some(BatchesEvent::Request(id)) => id,
        other => panic!("unexpected {:?}", other),
    };
    batches.set_response(id, Err(RpcError::from_code(ErrorCode::InternalError)));
    assert_eq!(
        batches.next_event(),
        Some(BatchesEvent::ReadyToSend {
            response: Response::Batch(vec![
                invalid_request(Id::Null),
                invalid_request(Id::Str("x".to_owned())),
                Output::Failure {
                    error: RpcError {
                        code: ErrorCode::InternalError,
                        message: "Internal error".to_owned(),
                        data: None
                    },
                    id: Id::Num(5)
                },
            ]),
            connection: None
        })
    );
}

#[test]
fn notifications_alone_give_no_reply() {
    let mut batches = BatchesState::new();
    batches.inject(Request::Batch(vec![notification("a"), notification("b")]), Some(1));
    assert!(matches!(batches.next_event(), Some(BatchesEvent::Notification { .. })));
    assert!(matches!(batches.next_event(), Some(BatchesEvent::Notification { .. })));
    assert_eq!(batches.next_event(), None);
    // The slot is free again.
    batches.inject(Request::Single(method_call("c", 1)), Some(2));
    assert_eq!(
        batches.next_event(),
        Some(BatchesEvent::Request(BatchesElemId { outer: 0, inner: 0 }))
    );
}

#[test]
fn empty_batch_is_not_kept() {
    let mut batches = BatchesState::new();
    batches.inject(Request::Batch(Vec::new()), Some(1));
    assert_eq!(batches.next_event(), None);
    batches.inject(Request::Single(method_call("c", 1)), Some(2));
    assert_eq!(
        batches.next_event(),
        Some(BatchesEvent::Request(BatchesElemId { outer: 0, inner: 0 }))
    );
}

#[test]
fn messages_take_the_first_free_slot() {
    let mut batches = BatchesState::new();
    batches.inject(Request::Single(method_call("a", 1)), Some(1));
    batches.inject(Request::Single(method_call("b", 2)), Some(2));
    let a = match batches.next_event() {
        Some(BatchesEvent::Request(id)) => id,
        other => panic!("unexpected {:?}", other),
    };
    let b = match batches.next_event() {
        Some(BatchesEvent::Request(id)) => id,
        other => panic!("unexpected {:?}", other),
    };
    assert_eq!((a.outer, b.outer), (0, 1));
    batches.set_response(a, Ok(Value::Null));
    assert!(matches!(batches.next_event(), Some(BatchesEvent::ReadyToSend { .. })));
    batches.inject(Request::Single(method_call("c", 3)), Some(3));
    assert_eq!(
        batches.next_event(),
        Some(BatchesEvent::Request(BatchesElemId { outer: 0, inner: 0 }))
    );
}

#[test]
fn forgotten_connection_leaves_the_reply_without_one() {
    let mut batches = BatchesState::new();
    batches.inject(Request::Single(method_call("a", 1)), Some(4));
    batches.inject(Request::Single(method_call("b", 2)), Some(5));
    let a = match batches.next_event() {
        Some(BatchesEvent::Request(id)) => id,
        other => panic!("unexpected {:?}", other),
    };
    let b = match batches.next_event() {
        Some(BatchesEvent::Request(id)) => id,
        other => panic!("unexpected {:?}", other),
    };
    batches.forget_connection(4);
    assert_eq!(batches.request_by_id(a).unwrap().1, None);
    assert_eq!(batches.request_by_id(b).unwrap().1, Some(5));
    batches.set_response(a, Ok(Value::Null));
    batches.set_response(b, Ok(Value::Null));
    assert!(matches!(
        batches.next_event(),
        Some(BatchesEvent::ReadyToSend { connection: None, .. })
    ));
    assert!(matches!(
        batches.next_event(),
        Some(BatchesEvent::ReadyToSend { connection: Some(5), .. })
    ));
}

#[test]
fn unknown_ids_name_no_request() {
    let mut batches = BatchesState::new();
    assert!(batches.request_by_id(BatchesElemId { outer: 0, inner: 0 }).is_none());
    batches.inject(Request::Single(method_call("a", 1)), Some(4));
    // Not handed out yet.
    assert!(batches.request_by_id(BatchesElemId { outer: 0, inner: 0 }).is_none());
    let _ = batches.next_event();
    assert!(batches.request_by_id(BatchesElemId { outer: 0, inner: 0 }).is_some());
    assert!(batches.request_by_id(BatchesElemId { outer: 0, inner: 1 }).is_none());
    assert!(batches.request_by_id(BatchesElemId { outer: 1, inner: 0 }).is_none());
}

#[test]
fn one_message_step_by_step() {
    let mut batch = BatchState::from_request(Request::Batch(vec![
        notification("n"),
        method_call("a", 1),
    ]));
    assert!(batch.has_queued());
    assert!(!batch.is_ready_to_respond());
    assert_eq!(
        batch.next(),
        Some(BatchInc::Notification(Notification {
            method: "n".to_owned(),
            params: Params::Absent
        }))
    );
    assert_eq!(batch.next(), Some(BatchInc::Request(0)));
    assert_eq!(batch.next(), None);
    assert!(!batch.has_queued());
    assert!(!batch.is_ready_to_respond());
    assert_eq!(batch.request(0).unwrap().method, "a");
    assert!(batch.request(1).is_none());
    batch.set_response(0, Ok(Value::Bool(true)));
    assert!(batch.request(0).is_none());
    assert!(batch.is_ready_to_respond());
    assert!(!batch.is_spent());
    assert_eq!(
        batch.into_response(),
        Some(Response::Batch(vec![Output::Success { result: Value::Bool(true), id: Id::Num(1) }]))
    );
}

#[test]
fn spent_message_has_no_reply() {
    let mut batch = BatchState::from_request(Request::Single(notification("n")));
    assert!(!batch.is_spent());
    let _ = batch.next();
    assert!(batch.is_spent());
    assert_eq!(batch.into_response(), None);
}

#[test]
fn error_codes_and_messages() {
    assert_eq!(ErrorCode::ParseError.code(), -32700);
    assert_eq!(ErrorCode::InvalidRequest.code(), -32600);
    assert_eq!(ErrorCode::MethodNotFound.code(), -32601);
    assert_eq!(ErrorCode::InvalidParams.code(), -32602);
    assert_eq!(ErrorCode::InternalError.code(), -32603);
    assert_eq!(ErrorCode::ServerError(0).code(), 0);
    assert_eq!(ErrorCode::ServerError(-5).code(), -5);
    assert_eq!(ErrorCode::ParseError.description(), "Parse error");
    assert_eq!(ErrorCode::InvalidRequest.description(), "Invalid request");
    assert_eq!(ErrorCode::MethodNotFound.description(), "Method not found");
    assert_eq!(ErrorCode::InvalidParams.description(), "Invalid params");
    assert_eq!(ErrorCode::InternalError.description(), "Internal error");
    assert_eq!(ErrorCode::ServerError(3).description(), "Server error");
    let error = RpcError::from_code(ErrorCode::MethodNotFound);
    assert_eq!(error.code, ErrorCode::MethodNotFound);
    assert_eq!(error.message, "Method not found");
    assert_eq!(error.data, None);
    assert_eq!(
        Output::from(Ok(Value::Null), Id::Null),
        Output::Success { result: Value::Null, id: Id::Null }
    );
    assert_eq!(
        Output::from(Err(error.clone()), Id::Num(2)),
        Output::Failure { error, id: Id::Num(2) }
    );
}
