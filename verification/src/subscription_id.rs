//! Identifiers of subscriptions and their wire form.
//!
//! An identifier is 32 bytes that the server chose. On the wire it is the
//! base58 text of those bytes, sent as a JSON string.

use crate::base58::{base58_decoded, base58_encoded, decode_text, encode_id_bytes};
use crate::json::{json_text, value_text};
use crate::jsonrpc::{JsonValue, Params};
use vstd::prelude::*;

verus! {

/// Identifier of a subscription within a [`RawServer`](crate::raw::RawServer).
#[derive(Debug, Copy, Clone, PartialEq, Eq, Hash)]
pub struct RawServerSubscriptionId(pub [u8; 32]);

impl View for RawServerSubscriptionId {
    type V = Seq<u8>;

    /// The 32 bytes of the identifier.
    open spec fn view(&self) -> Seq<u8> {
        self.0@
    }
}

/// `bytes` with as many zero bytes in front as it takes to make 32.
pub open spec fn left_padded(bytes: Seq<u8>) -> Seq<u8>
    recommends
        bytes.len() <= 32,
{
    Seq::new((32 - bytes.len()) as nat, |i: int| 0u8) + bytes
}

/// The identifier that decoded bytes stand for: none where nothing was
/// decoded or where more than 32 bytes were.
pub open spec fn id_bytes_of_decoded(decoded: Option<Seq<u8>>) -> Option<Seq<u8>> {
    match decoded {
        Some(bytes) => if bytes.len() <= 32 {
            Some(left_padded(bytes))
        } else {
            None
        },
        None => None,
    }
}

/// The identifier that a wire text stands for.
pub open spec fn id_bytes_of_text(text: Seq<char>) -> Option<Seq<u8>> {
    id_bytes_of_decoded(base58_decoded(text))
}

/// The identifier that a JSON value stands for: that of its text where the
/// value is a JSON string, none otherwise.
pub open spec fn id_bytes_of_json(text: Option<Seq<char>>) -> Option<Seq<u8>> {
    match text {
        Some(text) => id_bytes_of_text(text),
        None => None,
    }
}

/// The text of the JSON value in which parameters carry an identifier: the
/// first positional parameter where there is one, else the parameter named
/// `subscription`.
pub open spec fn id_text_in_params(params: Params) -> Option<Option<Seq<char>>> {
    match params.spec_get_index(0) {
        Some(value) => Some(json_text(value)),
        None => match params.spec_get_named("subscription"@) {
            Some(value) => Some(json_text(value)),
            None => None,
        },
    }
}

/// The identifier that parameters carry.
pub open spec fn id_bytes_of_params(params: Params) -> Option<Seq<u8>> {
    match id_text_in_params(params) {
        Some(text) => id_bytes_of_json(text),
        None => None,
    }
}

/// Two identifiers with the same bytes are the same identifier.
pub proof fn lemma_id_by_bytes(a: RawServerSubscriptionId, b: RawServerSubscriptionId)
    requires
        a@ == b@,
    ensures
        a == b,
{
    assert(a.0 =~= b.0);
}

impl RawServerSubscriptionId {
    /// Returns the identifier made of `bytes`.
    pub fn from_bytes(bytes: [u8; 32]) -> (id: Self)
        ensures
            id@ == bytes@,
    {
        RawServerSubscriptionId(bytes)
    }

    /// Returns whether `self` and `other` are the same identifier.
    pub fn same(&self, other: &RawServerSubscriptionId) -> (r: bool)
        ensures
            r == (self@ == other@),
            r == (*self == *other),
    {
        let mut i: usize = 0;
        while i < 32
            invariant
                i <= 32,
                forall|j: int| 0 <= j < i ==> self.0@[j] == other.0@[j],
            decreases 32 - i,
        {
            if self.0[i] != other.0[i] {
                return false;
            }
            i = i + 1;
        }
        assert(self.0@ =~= other.0@);
        assert(self.0 =~= other.0);
        true
    }

    /// Returns the wire form of the identifier: the base58 text of its
    /// bytes. Parsing that text gives the identifier back.
    pub fn to_wire_string(&self) -> (text: String)
        ensures
            text@ == base58_encoded(self@),
            id_bytes_of_text(text@) == Some(self@),
    {
        let text = encode_id_bytes(&self.0);
        proof {
            assert(left_padded(self@) =~= self@);
        }
        text
    }

    /// Returns the identifier that decoded bytes stand for. Fewer than 32
    /// bytes are padded on the left with zero bytes; more than 32 are
    /// rejected.
    pub fn from_decoded(decoded: &Vec<u8>) -> (r: Result<Self, ()>)
        ensures
            match r {
                Ok(id) => id_bytes_of_decoded(Some(decoded@)) == Some(id@),
                Err(_) => id_bytes_of_decoded(Some(decoded@)) is None,
            },
    {
        let n: usize = decoded.len();
        if n > 32 {
            return Err(());
        }
        let offset: usize = 32 - n;
        let mut out: [u8; 32] = [0u8; 32];
        let mut i: usize = 0;
        while i < n
            invariant
                i <= n,
                n == decoded@.len(),
                offset == 32 - n,
                forall|j: int| 0 <= j < offset ==> out@[j] == 0u8,
                forall|j: int| 0 <= j < i ==> out@[offset + j] == decoded@[j],
            decreases n - i,
        {
            out[offset + i] = decoded[i];
            i = i + 1;
        }
        assert(out@ =~= left_padded(decoded@));
        Ok(RawServerSubscriptionId(out))
    }

    /// Parses the wire form of an identifier.
    ///
    /// Succeeds exactly where `text` is the base58 text of at most 32 bytes.
    pub fn from_wire_text(text: &str) -> (r: Result<Self, ()>)
        ensures
            match r {
                Ok(id) => id_bytes_of_text(text@) == Some(id@),
                Err(_) => id_bytes_of_text(text@) is None,
            },
    {
        match decode_text(text) {
            Ok(decoded) => Self::from_decoded(&decoded),
            Err(_) => Err(()),
        }
    }

    /// When the client sends a message that names a subscription, this
    /// function parses the JSON value that holds the identifier.
    ///
    /// Succeeds exactly where `params` is a JSON string whose text is the
    /// wire form of an identifier.
    pub fn from_wire_message(params: &JsonValue) -> (r: Result<Self, ()>)
        ensures
            match r {
                Ok(id) => id_bytes_of_json(json_text(*params)) == Some(id@),
                Err(_) => id_bytes_of_json(json_text(*params)) is None,
            },
    {
        match value_text(params) {
            Some(text) => Self::from_wire_text(text.as_str()),
            None => Err(()),
        }
    }

    /// Parses the identifier out of the parameters of a call: from the first
    /// positional parameter where the parameters have one, else from the
    /// parameter named `subscription`.
    pub fn from_params(params: &Params) -> (r: Result<Self, ()>)
        ensures
            match r {
                Ok(id) => id_bytes_of_params(*params) == Some(id@),
                Err(_) => id_bytes_of_params(*params) is None,
            },
    {
        match params.get_index(0) {
            Some(value) => Self::from_wire_message(value),
            None => {
                let key = "subscription".to_owned();
                match params.get_named(&key) {
                    Some(value) => Self::from_wire_message(value),
                    None => Err(()),
                }
            },
        }
    }
}

} // verus!
