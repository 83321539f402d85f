//! The JSON-RPC 2.0 messages that pass through the dispatcher, as plain data.
//!
//! Parsing and serialising are done outside this crate; these types hold a
//! message after it was parsed and before it is serialised.

use serde_json::Value;
use vstd::prelude::*;

verus! {

/// A JSON value.
pub type JsonValue = Value;

/// The identifier that a client gave to a request.
#[derive(Debug, Clone, PartialEq, Eq)]
pub enum Id {
    /// No identifier.
    Null,
    /// A numeric identifier.
    Num(u64),
    /// A string identifier.
    Str(String),
}

/// The parameters of a call.
#[derive(Debug, Clone, PartialEq)]
pub enum Params {
    /// No parameters.
    Absent,
    /// Positional parameters.
    Array(Vec<Value>),
    /// Named parameters, in the order in which the message gave them.
    Object(Vec<(String, Value)>),
}

/// The value of the first entry named `key`, if there is one.
pub open spec fn first_named(entries: Seq<(String, Value)>, key: Seq<char>) -> Option<Value>
    decreases entries.len(),
{
    if entries.len() == 0 {
        None
    } else if entries[0].0@ == key {
        Some(entries[0].1)
    } else {
        first_named(entries.drop_first(), key)
    }
}

impl Params {
    /// The positional parameter at `index`.
    pub open spec fn spec_get_index(&self, index: int) -> Option<Value> {
        match self {
            Params::Array(items) => if 0 <= index < items@.len() {
                Some(items@[index])
            } else {
                None
            },
            _ => None,
        }
    }

    /// The named parameter `key`.
    pub open spec fn spec_get_named(&self, key: Seq<char>) -> Option<Value> {
        match self {
            Params::Object(entries) => first_named(entries@, key),
            _ => None,
        }
    }

    /// Whether `self` and `other` hold the same parameters.
    pub open spec fn same_as(self, other: Params) -> bool {
        match (self, other) {
            (Params::Absent, Params::Absent) => true,
            (Params::Array(a), Params::Array(b)) => a@ == b@,
            (Params::Object(a), Params::Object(b)) => {
                &&& a@.len() == b@.len()
                &&& forall|i: int|
                    0 <= i < a@.len() ==> (#[trigger] a@[i]).0@ == b@[i].0@ && a@[i].1 == b@[i].1
            },
            _ => false,
        }
    }

    /// Returns a copy of the parameters.
    pub fn duplicate(&self) -> (copy: Params)
        ensures
            copy.same_as(*self),
    {
        match self {
            Params::Absent => Params::Absent,
            Params::Array(items) => {
                let mut copy: Vec<Value> = Vec::new();
                let mut i: usize = 0;
                while i < items.len()
                    invariant
                        i <= items@.len(),
                        copy@ == items@.take(i as int),
                    decreases items@.len() - i,
                {
                    copy.push(items[i].clone());
                    assert(copy@ =~= items@.take(i + 1));
                    i = i + 1;
                }
                assert(copy@ =~= items@);
                Params::Array(copy)
            },
            Params::Object(entries) => {
                let mut copy: Vec<(String, Value)> = Vec::new();
                let mut i: usize = 0;
                while i < entries.len()
                    invariant
                        i <= entries@.len(),
                        copy@.len() == i,
                        forall|j: int|
                            0 <= j < i ==> (#[trigger] copy@[j]).0@ == entries@[j].0@ && copy@[j].1
                                == entries@[j].1,
                    decreases entries@.len() - i,
                {
                    copy.push((entries[i].0.clone(), entries[i].1.clone()));
                    i = i + 1;
                }
                Params::Object(copy)
            },
        }
    }

    /// Returns the positional parameter at `index`. Named parameters have no
    /// positions.
    pub fn get_index(&self, index: usize) -> (r: Option<&Value>)
        ensures
            match r {
                Some(value) => self.spec_get_index(index as int) == Some(*value),
                None => self.spec_get_index(index as int) is None,
            },
    {
        match self {
            Params::Array(items) => {
                if index < items.len() {
                    Some(&items[index])
                } else {
                    None
                }
            },
            _ => None,
        }
    }

    /// Returns the named parameter `key`: the value of the first entry with
    /// that name. Positional parameters have no names.
    pub fn get_named(&self, key: &String) -> (r: Option<&Value>)
        ensures
            match r {
                Some(value) => self.spec_get_named(key@) == Some(*value),
                None => self.spec_get_named(key@) is None,
            },
    {
        match self {
            Params::Object(entries) => {
                let mut i: usize = 0;
                assert(entries@.skip(0) =~= entries@);
                while i < entries.len()
                    invariant
                        i <= entries@.len(),
                        self.spec_get_named(key@) == first_named(entries@, key@),
                        first_named(entries@, key@) == first_named(entries@.skip(i as int), key@),
                    decreases entries@.len() - i,
                {
                    assert(entries@.skip(i as int).drop_first() =~= entries@.skip(i + 1));
                    assert(entries@.skip(i as int)[0] == entries@[i as int]);
                    if entries[i].0 == *key {
                        return Some(&entries[i].1);
                    }
                    i = i + 1;
                }
                None
            },
            _ => None,
        }
    }
}

/// A call that expects no answer.
#[derive(Debug, Clone, PartialEq)]
pub struct Notification {
    /// Name of the method.
    pub method: String,
    /// Parameters of the call.
    pub params: Params,
}

/// A call that expects an answer.
#[derive(Debug, Clone, PartialEq)]
pub struct MethodCall {
    /// Name of the method.
    pub method: String,
    /// Parameters of the call.
    pub params: Params,
    /// Identifier to repeat in the answer.
    pub id: Id,
}

/// One element of a message.
#[derive(Debug, Clone, PartialEq)]
pub enum Call {
    /// A call that expects an answer.
    MethodCall(MethodCall),
    /// A call that expects no answer.
    Notification(Notification),
    /// An element that is not a call. It is answered with an
    /// invalid-request error that repeats `id`.
    Invalid {
        /// Identifier found in the element, `Id::Null` if none was.
        id: Id,
    },
}

/// A message of a client: one call, or a batch of calls.
#[derive(Debug, Clone, PartialEq)]
pub enum Request {
    /// A single call.
    Single(Call),
    /// A batch of calls, answered by one batch of outputs.
    Batch(Vec<Call>),
}

/// The kind of an error.
#[derive(Debug, Clone, Copy, PartialEq, Eq)]
pub enum ErrorCode {
    /// The message was not JSON.
    ParseError,
    /// The JSON was not a request.
    InvalidRequest,
    /// No such method.
    MethodNotFound,
    /// The parameters did not fit the method.
    InvalidParams,
    /// Internal error.
    InternalError,
    /// An error that the server defines, with its code.
    ServerError(i64),
}

impl ErrorCode {
    /// The number that stands for this kind on the wire.
    pub open spec fn spec_code(&self) -> int {
        match self {
            ErrorCode::ParseError => -32700,
            ErrorCode::InvalidRequest => -32600,
            ErrorCode::MethodNotFound => -32601,
            ErrorCode::InvalidParams => -32602,
            ErrorCode::InternalError => -32603,
            ErrorCode::ServerError(code) => *code as int,
        }
    }

    /// The standard message of this kind.
    pub open spec fn spec_description(&self) -> Seq<char> {
        match self {
            ErrorCode::ParseError => "Parse error"@,
            ErrorCode::InvalidRequest => "Invalid request"@,
            ErrorCode::MethodNotFound => "Method not found"@,
            ErrorCode::InvalidParams => "Invalid params"@,
            ErrorCode::InternalError => "Internal error"@,
            ErrorCode::ServerError(_) => "Server error"@,
        }
    }

    /// Returns the number that stands for this kind on the wire.
    pub fn code(&self) -> (r: i64)
        ensures
            r == self.spec_code(),
    {
        match self {
            ErrorCode::ParseError => -32700,
            ErrorCode::InvalidRequest => -32600,
            ErrorCode::MethodNotFound => -32601,
            ErrorCode::InvalidParams => -32602,
            ErrorCode::InternalError => -32603,
            ErrorCode::ServerError(code) => *code,
        }
    }

    /// Returns the standard message of this kind.
    pub fn description(&self) -> (r: String)
        ensures
            r@ == self.spec_description(),
    {
        match self {
            ErrorCode::ParseError => "Parse error".to_owned(),
            ErrorCode::InvalidRequest => "Invalid request".to_owned(),
            ErrorCode::MethodNotFound => "Method not found".to_owned(),
            ErrorCode::InvalidParams => "Invalid params".to_owned(),
            ErrorCode::InternalError => "Internal error".to_owned(),
            ErrorCode::ServerError(_) => "Server error".to_owned(),
        }
    }
}

/// An error answer.
#[derive(Debug, Clone, PartialEq)]
pub struct RpcError {
    /// Kind of the error.
    pub code: ErrorCode,
    /// Message for a human reader.
    pub message: String,
    /// Further data.
    pub data: Option<Value>,
}

impl RpcError {
    /// Returns the error of kind `code` with its standard message and no
    /// data.
    pub fn from_code(code: ErrorCode) -> (r: RpcError)
        ensures
            r.code == code,
            r.message@ == code.spec_description(),
            r.data is None,
    {
        RpcError { code, message: code.description(), data: None }
    }
}

/// The answer to one call.
#[derive(Debug, Clone, PartialEq)]
pub enum Output {
    /// The call succeeded.
    Success {
        /// What the method returned.
        result: Value,
        /// Identifier of the call.
        id: Id,
    },
    /// The call failed.
    Failure {
        /// Why it failed.
        error: RpcError,
        /// Identifier of the call.
        id: Id,
    },
}

impl Output {
    /// The answer that carries `response` for the call `id`.
    pub open spec fn spec_from(response: Result<Value, RpcError>, id: Id) -> Output {
        match response {
            Ok(result) => Output::Success { result, id },
            Err(error) => Output::Failure { error, id },
        }
    }

    /// Returns the answer that carries `response` for the call `id`.
    pub fn from(response: Result<Value, RpcError>, id: Id) -> (r: Output)
        ensures
            r == Output::spec_from(response, id),
    {
        match response {
            Ok(result) => Output::Success { result, id },
            Err(error) => Output::Failure { error, id },
        }
    }
}

/// A notification that the server pushes on a subscription.
#[derive(Debug, Clone, PartialEq)]
pub struct SubscriptionNotif {
    /// Name of the method that opened the subscription.
    pub method: String,
    /// Wire form of the subscription's identifier.
    pub subscription: String,
    /// The value pushed.
    pub result: Value,
}

/// What the server writes to a client.
#[derive(Debug, Clone, PartialEq)]
pub enum Response {
    /// The answer to a single call.
    Single(Output),
    /// The answers to a batch.
    Batch(Vec<Output>),
    /// A push on a subscription.
    Notif(SubscriptionNotif),
}

} // verus!
