//! The registered-handler server, driven like a transport and an
//! application would drive it.

use serde_json::Value;
use ws_server::jsonrpc::{
    Call, ErrorCode, Id, MethodCall, Notification, Output, Params, Request, Response, RpcError,
    SubscriptionNotif,
};
use ws_server::raw::RawServerRequestId;
use ws_server::server::{
    Action, BackgroundTask, Delivery, FrontToBack, IncomingRequest, RegisterError, Server,
};
use ws_server::subscription_id::RawServerSubscriptionId;
use ws_server::transport::{TransportCommand, TransportServerEvent};

fn call(method: &str, params: Params, id: Id) -> Request {
    Request::Single(Call::MethodCall(MethodCall { method: method.to_owned(), params, id }))
}

fn idle() -> Action {
    Action { write: None, delivery: None, idle: true }
}

/// A server with the methods `say_hello` and `add` and the notification
/// `notif` registered. Returns the two halves and the three handlers.
fn server() -> (Server, BackgroundTask, usize, usize, usize) {
    let mut front = Server::new();
    let mut back = BackgroundTask::new();
    let mut handlers = Vec::new();
    for message in [
        front.register_method("say_hello".to_owned()).unwrap(),
        front.register_method("add".to_owned()).unwrap(),
        front.register_notification("notif".to_owned(), false).unwrap(),
    ] {
        match &message {
            FrontToBack::RegisterMethod { handler, .. } => handlers.push(*handler),
            FrontToBack::RegisterNotifications { handler, .. } => handlers.push(*handler),
            other => panic!("unexpected {:?}", other),
        }
        assert_eq!(back.handle_message(message), Vec::new());
    }
    (front, back, handlers[0], handlers[1], handlers[2])
}

/// Sends a request on `connection` and returns the delivery that it leads
/// to.
fn send(back: &mut BackgroundTask, connection: u64, request: Request) -> Option<Delivery> {
    back.transport_event(TransportServerEvent::Request { id: connection, request });
    let action = back.next_action();
    assert_eq!(action.write, None);
    assert!(!action.idle);
    action.delivery
}

/// Expects the reply `output` to finish `connection`, and nothing after it.
fn expect_reply(back: &mut BackgroundTask, connection: u64, output: Output) {
    assert_eq!(
        back.next_action(),
        Action {
            write: Some(TransportCommand::Finish {
                id: connection,
                response: Some(Response::Single(output))
            }),
            delivery: None,
            idle: false
        }
    );
    assert_eq!(back.next_action(), idle());
}

/// Plays the handler of a method: answers the delivered request.
fn answer(back: &mut BackgroundTask, delivery: Option<Delivery>, handler: usize, result: Value) {
    match delivery {
        Some(Delivery::Request { handler: to, request_id, params }) => {
            assert_eq!(to, handler);
            let incoming = IncomingRequest::new(request_id, params);
            assert_eq!(back.handle_message(incoming.respond(Ok(result))), Vec::new());
        }
        other => panic!("unexpected {:?}", other),
    }
}

fn method_not_found(id: Id) -> Output {
    Output::Failure {
        error: RpcError {
            code: ErrorCode::MethodNotFound,
            message: "Method not found".to_owned(),
            data: None,
        },
        id,
    }
}

fn invalid_request(id: Id) -> Output {
    Output::Failure {
        error: RpcError {
            code: ErrorCode::InvalidRequest,
            message: "Invalid request".to_owned(),
            data: None,
        },
        id,
    }
}

/// Registers the subscription `subscribe_x` / `unsubscribe_x`.
fn with_subscription(front: &mut Server, back: &mut BackgroundTask) -> usize {
    let (_, message) = front
        .register_subscription("subscribe_x".to_owned(), "unsubscribe_x".to_owned())
        .unwrap();
    let unique_id = match &message {
        FrontToBack::RegisterSubscription { unique_id, .. } => *unique_id,
        other => panic!("unexpected {:?}", other),
    };
    assert_eq!(back.handle_message(message), Vec::new());
    unique_id
}

/// Lets a client on `connection` subscribe; returns the id, with the
/// subscribe reply still to leave.
fn subscribe(
    back: &mut BackgroundTask,
    connection: u64,
    id: u64,
    unique_id: usize,
) -> RawServerSubscriptionId {
    match send(back, connection, call("subscribe_x", Params::Absent, Id::Num(id))) {
        Some(Delivery::Subscribe { request_id, unique_id: to, connection: on }) => {
            assert_eq!(to, unique_id);
            assert_eq!(on, Some(connection));
            back.complete_subscription(request_id, unique_id, true).unwrap()
        }
        other => panic!("unexpected {:?}", other),
    }
}

/// Lets a client subscribe on each connection, all of them before any
/// subscribe reply leaves. The request on a connection has the number of
/// the connection as its id.
fn subscribe_all(
    back: &mut BackgroundTask,
    connections: &[u64],
    unique_id: usize,
) -> Vec<RawServerSubscriptionId> {
    for connection in connections {
        back.transport_event(TransportServerEvent::Request {
            id: *connection,
            request: call("subscribe_x", Params::Absent, Id::Num(*connection)),
        });
    }
    let mut requests = Vec::new();
    for connection in connections {
        match back.next_action() {
            Action {
                write: None,
                delivery: Some(Delivery::Subscribe { request_id, unique_id: to, connection: on }),
                idle: false,
            } => {
                assert_eq!(to, unique_id);
                assert_eq!(on, Some(*connection));
                requests.push(request_id);
            }
            other => panic!("unexpected {:?}", other),
        }
    }
    requests
        .into_iter()
        .map(|request_id| back.complete_subscription(request_id, unique_id, true).unwrap())
        .collect()
}

fn push(connection: u64, subscription: RawServerSubscriptionId, value: Value) -> TransportCommand {
    TransportCommand::Send {
        id: connection,
        response: Response::Notif(SubscriptionNotif {
            method: "subscribe_x".to_owned(),
            subscription: subscription.to_wire_string(),
            result: value,
        }),
    }
}

#[test]
fn single_method_call_works() {
    let (_, mut back, hello, _, _) = server();
    for i in 0..10 {
        let delivery = send(&mut back, 1, call("say_hello", Params::Absent, Id::Num(i)));
        answer(&mut back, delivery, hello, Value::String("hello".to_owned()));
        expect_reply(
            &mut back,
            1,
            Output::Success { result: Value::String("hello".to_owned()), id: Id::Num(i) },
        );
    }
}

#[test]
fn single_method_call_with_params_works() {
    let (_, mut back, _, add, _) = server();
    let params = Params::Array(vec![Value::from(1u64), Value::from(2u64)]);
    let delivery = send(&mut back, 1, call("add", params.clone(), Id::Num(1)));
    let sum: u64 = match &delivery {
        Some(Delivery::Request { params: delivered, .. }) => {
            assert_eq!(delivered, &params);
            match delivered {
                Params::Array(items) => items.iter().map(|v| v.as_u64().unwrap()).sum(),
                other => panic!("unexpected {:?}", other),
            }
        }
        other => panic!("unexpected {:?}", other),
    };
    answer(&mut back, delivery, add, Value::from(sum));
    expect_reply(&mut back, 1, Output::Success { result: Value::from(3u64), id: Id::Num(1) });
}

#[test]
fn should_return_method_not_found() {
    let (_, mut back, _, _, _) = server();
    assert_eq!(send(&mut back, 1, call("bar", Params::Absent, Id::Str("foo".into()))), None);
    expect_reply(&mut back, 1, method_not_found(Id::Str("foo".into())));
}

#[test]
fn invalid_request_object() {
    let (_, mut back, _, _, _) = server();
    back.transport_event(TransportServerEvent::Request {
        id: 1,
        request: Request::Single(Call::Invalid { id: Id::Num(1) }),
    });
    expect_reply(&mut back, 1, invalid_request(Id::Num(1)));
}

#[test]
fn invalid_request_should_not_close_connection() {
    let (_, mut back, hello, _, _) = server();
    back.transport_event(TransportServerEvent::Request {
        id: 1,
        request: Request::Single(Call::Invalid { id: Id::Num(1) }),
    });
    expect_reply(&mut back, 1, invalid_request(Id::Num(1)));
    let delivery = send(&mut back, 1, call("say_hello", Params::Absent, Id::Num(33)));
    answer(&mut back, delivery, hello, Value::String("hello".to_owned()));
    expect_reply(
        &mut back,
        1,
        Output::Success { result: Value::String("hello".to_owned()), id: Id::Num(33) },
    );
}

#[test]
fn register_methods_works() {
    let mut server = Server::new();
    assert!(server.register_method("say_hello".to_owned()).is_ok());
    assert!(server.register_method("say_hello".to_owned()).is_err());
    assert!(server.register_notification("notif".to_owned(), false).is_ok());
    assert!(server.register_notification("notif".to_owned(), false).is_err());
    assert!(server
        .register_subscription("subscribe_hello".to_owned(), "unsubscribe_hello".to_owned())
        .is_ok());
    assert!(server
        .register_subscription("subscribe_hello_again".to_owned(), "notif".to_owned())
        .is_err());
    assert!(
        server.register_method("subscribe_hello_again".to_owned()).is_ok(),
        "Failed register_subscription should not have side-effects"
    );
}

#[test]
fn register_same_subscribe_unsubscribe_is_err() {
    let mut server = Server::new();
    assert!(matches!(
        server.register_subscription("subscribe_hello".to_owned(), "subscribe_hello".to_owned()),
        Err(RegisterError::MethodAlreadyRegistered(_))
    ));
    assert!(!server.is_registered("subscribe_hello"));
}

#[test]
fn registration_errors_name_the_method() {
    let mut server = Server::new();
    assert!(server.register_method("m".to_owned()).is_ok());
    assert_eq!(
        server.register_method("m".to_owned()),
        Err(RegisterError::MethodAlreadyRegistered("m".to_owned()))
    );
    assert_eq!(
        server.register_notification("m".to_owned(), true),
        Err(RegisterError::MethodAlreadyRegistered("m".to_owned()))
    );
    assert_eq!(
        server.register_subscription("m".to_owned(), "u".to_owned()).map(|_| ()),
        Err(RegisterError::MethodAlreadyRegistered("m".to_owned()))
    );
    assert_eq!(
        server.register_subscription("s".to_owned(), "m".to_owned()).map(|_| ()),
        Err(RegisterError::MethodAlreadyRegistered("m".to_owned()))
    );
    assert!(!server.is_registered("s"));
    assert!(!server.is_registered("u"));
    assert!(server.is_registered("m"));
}

#[test]
fn registrations_number_handlers_and_subscriptions() {
    let mut server = Server::new();
    assert_eq!(
        server.register_method("a".to_owned()),
        Ok(FrontToBack::RegisterMethod { name: "a".to_owned(), handler: 0 })
    );
    assert_eq!(
        server.register_notification("b".to_owned(), true),
        Ok(FrontToBack::RegisterNotifications {
            name: "b".to_owned(),
            handler: 1,
            allow_losses: true
        })
    );
    let (first, message) = server.register_subscription("s1".to_owned(), "u1".to_owned()).unwrap();
    assert_eq!(
        message,
        FrontToBack::RegisterSubscription {
            unique_id: 0,
            subscribe_method: "s1".to_owned(),
            unsubscribe_method: "u1".to_owned()
        }
    );
    let (second, message) =
        server.register_subscription("s2".to_owned(), "u2".to_owned()).unwrap();
    assert!(matches!(message, FrontToBack::RegisterSubscription { unique_id: 1, .. }));
    assert_eq!(
        first.send(Value::Bool(true)),
        FrontToBack::SendOutNotif { unique_id: 0, notification: Value::Bool(true) }
    );
    assert_eq!(
        second.send(Value::Null),
        FrontToBack::SendOutNotif { unique_id: 1, notification: Value::Null }
    );
    assert_eq!(
        server.register_method("c".to_owned()),
        Ok(FrontToBack::RegisterMethod { name: "c".to_owned(), handler: 2 })
    );
}

#[test]
fn incoming_request_builds_the_answer() {
    let request_id = RawServerRequestId {
        inner: ws_server::batches::BatchesElemId { outer: 3, inner: 4 },
    };
    let incoming = IncomingRequest::new(request_id, Params::Array(vec![Value::Null]));
    assert_eq!(incoming.params(), &Params::Array(vec![Value::Null]));
    assert_eq!(
        incoming.respond(Err(RpcError::from_code(ErrorCode::InvalidParams))),
        FrontToBack::AnswerRequest {
            request_id,
            answer: Err(RpcError::from_code(ErrorCode::InvalidParams))
        }
    );
}

#[test]
fn notification_goes_to_its_handler() {
    let (mut front, mut back, _, _, notif) = server();
    let lossy = match front.register_notification("lossy".to_owned(), true).unwrap() {
        FrontToBack::RegisterNotifications { name, handler, allow_losses } => {
            let _ = back.handle_message(FrontToBack::RegisterNotifications {
                name,
                handler,
                allow_losses,
            });
            handler
        }
        other => panic!("unexpected {:?}", other),
    };
    let params = Params::Array(vec![Value::from(5u64)]);
    let notify = |method: &str| {
        Request::Single(Call::Notification(Notification {
            method: method.to_owned(),
            params: params.clone(),
        }))
    };
    assert_eq!(
        send(&mut back, 1, notify("notif")),
        Some(Delivery::Notification { handler: notif, params: params.clone(), allow_losses: false })
    );
    assert_eq!(
        send(&mut back, 1, notify("lossy")),
        Some(Delivery::Notification { handler: lossy, params: params.clone(), allow_losses: true })
    );
    // A notification that nobody registered is dropped.
    assert_eq!(send(&mut back, 1, notify("unknown")), None);
    // A notification for the name of a method is dropped too.
    assert_eq!(send(&mut back, 1, notify("say_hello")), None);
    assert_eq!(back.next_action(), idle());
}

#[test]
fn refused_request_is_answered_with_server_error_zero() {
    let (_, mut back, hello, _, _) = server();
    match send(&mut back, 4, call("say_hello", Params::Absent, Id::Num(2))) {
        Some(Delivery::Request { handler, request_id, .. }) => {
            assert_eq!(handler, hello);
            back.refuse_request(request_id);
            // Refusing twice changes nothing.
            back.refuse_request(request_id);
        }
        other => panic!("unexpected {:?}", other),
    }
    expect_reply(
        &mut back,
        4,
        Output::Failure {
            error: RpcError {
                code: ErrorCode::ServerError(0),
                message: "Server error".to_owned(),
                data: None,
            },
            id: Id::Num(2),
        },
    );
}

#[test]
fn answer_to_an_unknown_request_is_dropped() {
    let (_, mut back, hello, _, _) = server();
    let delivery = send(&mut back, 1, call("say_hello", Params::Absent, Id::Num(1)));
    let request_id = match &delivery {
        Some(Delivery::Request { request_id, .. }) => *request_id,
        other => panic!("unexpected {:?}", other),
    };
    answer(&mut back, delivery, hello, Value::from(1u64));
    // A second answer to the same request.
    assert_eq!(
        back.handle_message(FrontToBack::AnswerRequest { request_id, answer: Ok(Value::Null) }),
        Vec::new()
    );
    expect_reply(&mut back, 1, Output::Success { result: Value::from(1u64), id: Id::Num(1) });
}

#[test]
fn batch_is_answered_in_one_reply() {
    let (_, mut back, hello, add, _) = server();
    back.transport_event(TransportServerEvent::Request {
        id: 1,
        request: Request::Batch(vec![
            Call::MethodCall(MethodCall {
                method: "say_hello".to_owned(),
                params: Params::Absent,
                id: Id::Num(1),
            }),
            Call::MethodCall(MethodCall {
                method: "add".to_owned(),
                params: Params::Array(vec![Value::from(1u64), Value::from(2u64)]),
                id: Id::Num(2),
            }),
            Call::MethodCall(MethodCall {
                method: "bar".to_owned(),
                params: Params::Absent,
                id: Id::Num(3),
            }),
        ]),
    });
    let first = back.next_action();
    assert_eq!(first.write, None);
    let second = back.next_action();
    assert_eq!(second.write, None);
    let third = back.next_action();
    assert_eq!(third, Action { write: None, delivery: None, idle: false });
    // Nothing leaves before every request has its answer.
    assert_eq!(back.next_action(), idle());
    answer(&mut back, second.delivery, add, Value::from(3u64));
    assert_eq!(back.next_action(), idle());
    answer(&mut back, first.delivery, hello, Value::String("hello".to_owned()));
    assert_eq!(
        back.next_action(),
        Action {
            write: Some(TransportCommand::Finish {
                id: 1,
                response: Some(Response::Batch(vec![
                    method_not_found(Id::Num(3)),
                    Output::Success { result: Value::from(3u64), id: Id::Num(2) },
                    Output::Success { result: Value::String("hello".to_owned()), id: Id::Num(1) },
                ]))
            }),
            delivery: None,
            idle: false
        }
    );
    assert_eq!(back.next_action(), idle());
}

#[test]
fn subscription_is_pushed_to_only_after_its_reply() {
    let (mut front, mut back, _, _, _) = server();
    let unique_id = with_subscription(&mut front, &mut back);
    let subscription = subscribe(&mut back, 7, 1, unique_id);
    assert_eq!(back.subscribed_clients(unique_id), vec![subscription]);
    let broadcast = |value: u64| FrontToBack::SendOutNotif {
        unique_id,
        notification: Value::from(value),
    };
    // Before the reply: nothing is written.
    assert_eq!(back.handle_message(broadcast(1)), Vec::new());
    // The reply carries the wire form of the id.
    assert_eq!(
        back.next_action(),
        Action {
            write: Some(TransportCommand::Send {
                id: 7,
                response: Response::Single(Output::Success {
                    result: Value::String(subscription.to_wire_string()),
                    id: Id::Num(1)
                })
            }),
            delivery: None,
            idle: false
        }
    );
    assert_eq!(back.next_action(), idle());
    // After the reply: one notification, with the id of the subscription.
    assert_eq!(
        back.handle_message(broadcast(2)),
        vec![push(7, subscription, Value::from(2u64))]
    );
}

#[test]
fn broadcast_reaches_every_ready_subscriber_in_order() {
    let (mut front, mut back, _, _, _) = server();
    let unique_id = with_subscription(&mut front, &mut back);
    let (_, message) =
        front.register_subscription("subscribe_y".to_owned(), "unsubscribe_y".to_owned()).unwrap();
    let _ = back.handle_message(message);
    let ids = subscribe_all(&mut back, &[1, 2, 3], unique_id);
    let (a, b, c) = (ids[0], ids[1], ids[2]);
    // The replies of connections 1 and 2 leave, that of 3 not yet.
    assert!(matches!(back.next_action().write, Some(TransportCommand::Send { id: 1, .. })));
    assert!(matches!(back.next_action().write, Some(TransportCommand::Send { id: 2, .. })));
    assert_eq!(back.subscribed_clients(unique_id), vec![a, b, c]);
    assert_eq!(
        back.handle_message(FrontToBack::SendOutNotif {
            unique_id,
            notification: Value::String("v".to_owned())
        }),
        vec![
            push(1, a, Value::String("v".to_owned())),
            push(2, b, Value::String("v".to_owned()))
        ]
    );
    // The other registered subscription has no subscriber.
    assert_eq!(
        back.handle_message(FrontToBack::SendOutNotif {
            unique_id: unique_id + 1,
            notification: Value::Null
        }),
        Vec::new()
    );
    // Nor has one that was never registered.
    assert_eq!(
        back.handle_message(FrontToBack::SendOutNotif { unique_id: 99, notification: Value::Null }),
        Vec::new()
    );
}

#[test]
fn lost_connection_takes_its_subscribers_off_the_list() {
    let (mut front, mut back, _, _, _) = server();
    let unique_id = with_subscription(&mut front, &mut back);
    let ids = subscribe_all(&mut back, &[1, 2], unique_id);
    let (lost, kept) = (ids[0], ids[1]);
    assert!(matches!(back.next_action().write, Some(TransportCommand::Send { id: 1, .. })));
    assert!(matches!(back.next_action().write, Some(TransportCommand::Send { id: 2, .. })));
    let broadcast = || FrontToBack::SendOutNotif { unique_id, notification: Value::Bool(true) };
    assert_eq!(
        back.handle_message(broadcast()),
        vec![push(1, lost, Value::Bool(true)), push(2, kept, Value::Bool(true))]
    );
    back.transport_event(TransportServerEvent::Closed(1));
    assert_eq!(back.subscribed_clients(unique_id), vec![kept]);
    assert_eq!(back.handle_message(broadcast()), vec![push(2, kept, Value::Bool(true))]);
    assert_eq!(back.next_action(), idle());
}

#[test]
fn unsubscribe_takes_the_subscriber_off_the_list() {
    let (mut front, mut back, _, _, _) = server();
    let unique_id = with_subscription(&mut front, &mut back);
    let ids = subscribe_all(&mut back, &[1, 1], unique_id);
    let (a, b) = (ids[0], ids[1]);
    assert!(matches!(back.next_action().write, Some(TransportCommand::Send { id: 1, .. })));
    assert!(matches!(back.next_action().write, Some(TransportCommand::Send { id: 1, .. })));
    let unsubscribe = |params: Params| call("unsubscribe_x", params, Id::Num(9));
    // By position.
    assert_eq!(
        send(
            &mut back,
            1,
            unsubscribe(Params::Array(vec![Value::String(a.to_wire_string())]))
        ),
        None
    );
    assert_eq!(back.subscribed_clients(unique_id), vec![b]);
    // An id that is not on the list changes nothing.
    assert_eq!(
        send(
            &mut back,
            1,
            unsubscribe(Params::Array(vec![Value::String(a.to_wire_string())]))
        ),
        None
    );
    // Nor do parameters that hold no id.
    assert_eq!(send(&mut back, 1, unsubscribe(Params::Absent)), None);
    assert_eq!(back.subscribed_clients(unique_id), vec![b]);
    // By name.
    assert_eq!(
        send(
            &mut back,
            1,
            unsubscribe(Params::Object(vec![(
                "subscription".to_owned(),
                Value::String(b.to_wire_string())
            )]))
        ),
        None
    );
    assert_eq!(back.subscribed_clients(unique_id), Vec::new());
}

#[test]
fn subscription_fails_silently_without_a_resuming_transport() {
    let (mut front, mut back, _, _, _) = server();
    let unique_id = with_subscription(&mut front, &mut back);
    match send(&mut back, 1, call("subscribe_x", Params::Absent, Id::Num(1))) {
        Some(Delivery::Subscribe { request_id, unique_id: to, connection }) => {
            assert_eq!(connection, Some(1));
            assert_eq!(back.complete_subscription(request_id, to, false), None);
            assert_eq!(back.complete_subscription(request_id, 77, true), None);
        }
        other => panic!("unexpected {:?}", other),
    }
    assert_eq!(back.subscribed_clients(unique_id), Vec::new());
    assert_eq!(back.next_action(), idle());
}

#[test]
fn subscription_on_a_closed_connection_fails_silently() {
    let (mut front, mut back, _, _, _) = server();
    let unique_id = with_subscription(&mut front, &mut back);
    back.transport_event(TransportServerEvent::Request {
        id: 1,
        request: call("subscribe_x", Params::Absent, Id::Num(1)),
    });
    back.transport_event(TransportServerEvent::Closed(1));
    match back.next_action().delivery {
        Some(Delivery::Subscribe { request_id, connection, .. }) => {
            assert_eq!(connection, None);
            assert_eq!(back.complete_subscription(request_id, unique_id, true), None);
        }
        other => panic!("unexpected {:?}", other),
    }
    assert_eq!(back.subscribed_clients(unique_id), Vec::new());
}
