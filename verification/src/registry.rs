//! The subscription registry.
//!
//! The registry holds the state of every live subscription under its
//! identifier, and for each connection the number of subscriptions that use
//! it. The two tables are hash maps of the `hashbrown` crate. Verification
//! sees a table only through the map of its entries and trusts the small
//! functions below that read and change it.

use crate::subscription_id::RawServerSubscriptionId;
use crate::transport::ConnectionId;
use fnv::FnvBuildHasher;
use hashbrown::hash_map::DefaultHashBuilder;
use hashbrown::HashMap;
use vstd::bytes::{lemma_auto_spec_u64_to_from_le_bytes, spec_u64_to_le_bytes, u64_to_le_bytes};
use vstd::prelude::*;
use vstd::set_lib::lemma_len_subset;

verus! {

/// The hash map of `hashbrown`, opaque to verification.
#[verifier::external_type_specification]
#[verifier::external_body]
#[verifier::reject_recursive_types(K)]
#[verifier::reject_recursive_types(V)]
#[verifier::reject_recursive_types(S)]
pub struct ExHashMap<K, V, S>(hashbrown::HashMap<K, V, S>);

/// The hasher of `fnv`, opaque to verification.
#[verifier::external_type_specification]
#[verifier::external_body]
pub struct ExFnvHasher(fnv::FnvHasher);

/// The default hasher builder of `hashbrown`, opaque to verification.
#[verifier::external_type_specification]
#[verifier::external_body]
pub struct ExDefaultHashBuilder(hashbrown::hash_map::DefaultHashBuilder);

/// `BuildHasherDefault` of the standard library, opaque to verification.
#[verifier::external_type_specification]
#[verifier::external_body]
#[verifier::reject_recursive_types(H)]
pub struct ExBuildHasherDefault<H>(core::hash::BuildHasherDefault<H>);

/// What the registry knows of one subscription.
#[derive(Debug, Clone, PartialEq, Eq)]
pub struct SubscriptionState {
    /// Connection of the client that subscribed.
    pub raw_id: ConnectionId,
    /// Method that opened the subscription. It is named in every
    /// notification pushed to the client.
    pub method: String,
    /// Whether the reply to the subscribe request has yet to leave. Nothing
    /// is pushed while this holds. Once `false` it stays `false`.
    pub pending: bool,
}

/// The entries of a table of subscriptions, each key by its bytes.
pub uninterp spec fn subscription_entries(
    table: HashMap<[u8; 32], SubscriptionState, FnvBuildHasher>,
) -> Map<Seq<u8>, SubscriptionState>;

/// The entries of a table of counts.
pub uninterp spec fn count_entries(table: HashMap<ConnectionId, usize, DefaultHashBuilder>) -> Map<
    ConnectionId,
    usize,
>;

/// Whether `ids` lists the keys of `keys`: each key once, and nothing else.
pub open spec fn lists(ids: Seq<RawServerSubscriptionId>, keys: Set<Seq<u8>>) -> bool {
    &&& forall|i: int, j: int|
        0 <= i < j < ids.len() ==> (#[trigger] ids[i])@ != (#[trigger] ids[j])@
    &&& forall|i: int| 0 <= i < ids.len() ==> keys.contains((#[trigger] ids[i])@)
    &&& forall|k: Seq<u8>| #[trigger]
        keys.contains(k) ==> exists|i: int| 0 <= i < ids.len() && (#[trigger] ids[i])@ == k
}

/// `HashMap::with_capacity_and_hasher` with the default `fnv` hasher.
///
/// Trusted: the new table has no entry.
#[verifier::external_body]
fn new_subscription_table() -> (r: HashMap<[u8; 32], SubscriptionState, FnvBuildHasher>)
    ensures
        subscription_entries(r).dom() == Set::<Seq<u8>>::empty(),
{
    HashMap::with_capacity_and_hasher(8, FnvBuildHasher::default())
}

/// `HashMap::get`.
///
/// Trusted: the result is the entry under `key`, if there is one.
#[verifier::external_body]
fn subscription_get<'a>(
    table: &'a HashMap<[u8; 32], SubscriptionState, FnvBuildHasher>,
    key: &[u8; 32],
) -> (r: Option<&'a SubscriptionState>)
    ensures
        match r {
            Some(state) => subscription_entries(*table).dom().contains(key@)
                && *state == subscription_entries(*table)[key@],
            None => !subscription_entries(*table).dom().contains(key@),
        },
{
    table.get(key)
}

/// `HashMap::get_mut`.
///
/// Trusted: the result is the entry under `key`, if there is one, and what
/// is written through it is what the table holds under `key` afterwards.
/// No other entry changes.
#[verifier::external_body]
fn subscription_get_mut<'a>(
    table: &'a mut HashMap<[u8; 32], SubscriptionState, FnvBuildHasher>,
    key: &[u8; 32],
) -> (r: Option<&'a mut SubscriptionState>)
    ensures
        match r {
            Some(state) => {
                &&& subscription_entries(*old(table)).dom().contains(key@)
                &&& *state == subscription_entries(*old(table))[key@]
                &&& subscription_entries(*final(table)) == subscription_entries(
                    *old(table),
                ).insert(key@, *final(state))
            },
            None => {
                &&& !subscription_entries(*old(table)).dom().contains(key@)
                &&& subscription_entries(*final(table)) == subscription_entries(*old(table))
            },
        },
{
    table.get_mut(key)
}

/// `HashMap::insert`.
///
/// Trusted: afterwards the table holds `state` under `key` and every other
/// entry as before; the result is the entry that `key` had. The number of
/// entries of a table is finite and fits a `usize`.
#[verifier::external_body]
fn subscription_insert(
    table: &mut HashMap<[u8; 32], SubscriptionState, FnvBuildHasher>,
    key: [u8; 32],
    state: SubscriptionState,
) -> (r: Option<SubscriptionState>)
    ensures
        subscription_entries(*final(table)) == subscription_entries(*old(table)).insert(
            key@,
            state,
        ),
        r == if subscription_entries(*old(table)).dom().contains(key@) {
            Some(subscription_entries(*old(table))[key@])
        } else {
            None
        },
        subscription_entries(*final(table)).dom().finite(),
        subscription_entries(*final(table)).dom().len() <= usize::MAX,
{
    table.insert(key, state)
}

/// `HashMap::remove`.
///
/// Trusted: afterwards the table has no entry under `key` and every other
/// entry as before; the result is the entry that `key` had.
#[verifier::external_body]
fn subscription_remove(
    table: &mut HashMap<[u8; 32], SubscriptionState, FnvBuildHasher>,
    key: &[u8; 32],
) -> (r: Option<SubscriptionState>)
    ensures
        subscription_entries(*final(table)) == subscription_entries(*old(table)).remove(key@),
        r == if subscription_entries(*old(table)).dom().contains(key@) {
            Some(subscription_entries(*old(table))[key@])
        } else {
            None
        },
{
    table.remove(key)
}

/// `HashMap::keys`, gathered into a vector of identifiers.
///
/// Trusted: the result holds each key of the table once, in no stated
/// order.
#[verifier::external_body]
fn subscription_keys(table: &HashMap<[u8; 32], SubscriptionState, FnvBuildHasher>) -> (r: Vec<
    RawServerSubscriptionId,
>)
    ensures
        lists(r@, subscription_entries(*table).dom()),
{
    table.keys().map(|key| RawServerSubscriptionId::from_bytes(*key)).collect()
}

/// `HashMap::with_capacity_and_hasher` with the default hasher of
/// `hashbrown`.
///
/// Trusted: the new table has no entry.
#[verifier::external_body]
fn new_count_table() -> (r: HashMap<ConnectionId, usize, DefaultHashBuilder>)
    ensures
        count_entries(r).dom() == Set::<ConnectionId>::empty(),
{
    HashMap::with_capacity_and_hasher(8, DefaultHashBuilder::default())
}

/// `HashMap::get`, with the count copied out.
///
/// Trusted: the result is the count under `key`, if there is one.
#[verifier::external_body]
fn count_get(table: &HashMap<ConnectionId, usize, DefaultHashBuilder>, key: ConnectionId) -> (r:
    Option<usize>)
    ensures
        r == if count_entries(*table).dom().contains(key) {
            Some(count_entries(*table)[key])
        } else {
            None
        },
{
    table.get(&key).copied()
}

/// `HashMap::insert`.
///
/// Trusted: afterwards the table holds `count` under `key` and every other
/// entry as before; the result is the count that `key` had.
#[verifier::external_body]
fn count_insert(
    table: &mut HashMap<ConnectionId, usize, DefaultHashBuilder>,
    key: ConnectionId,
    count: usize,
) -> (r: Option<usize>)
    ensures
        count_entries(*final(table)) == count_entries(*old(table)).insert(key, count),
        r == if count_entries(*old(table)).dom().contains(key) {
            Some(count_entries(*old(table))[key])
        } else {
            None
        },
{
    table.insert(key, count)
}

/// `HashMap::remove`.
///
/// Trusted: afterwards the table has no entry under `key` and every other
/// entry as before; the result is the count that `key` had.
#[verifier::external_body]
fn count_remove(
    table: &mut HashMap<ConnectionId, usize, DefaultHashBuilder>,
    key: ConnectionId,
) -> (r: Option<usize>)
    ensures
        count_entries(*final(table)) == count_entries(*old(table)).remove(key),
        r == if count_entries(*old(table)).dom().contains(key) {
            Some(count_entries(*old(table))[key])
        } else {
            None
        },
{
    table.remove(&key)
}

/// `rand::random` for 32 bytes.
///
/// Trusted without a promise: the bytes may be any.
#[verifier::external_body]
fn random_bytes() -> (bytes: [u8; 32]) {
    rand::random()
}

/// The bytes of the `n`-th identifier of the fallback sequence: `n` in its
/// first eight bytes, low byte first, and zero in the others.
pub open spec fn numbered(n: u64) -> Seq<u8> {
    spec_u64_to_le_bytes(n) + Seq::new(24, |i: int| 0u8)
}

/// Different numbers give different identifiers.
pub proof fn lemma_numbered_differ(a: u64, b: u64)
    requires
        a != b,
    ensures
        numbered(a) != numbered(b),
{
    lemma_auto_spec_u64_to_from_le_bytes();
    if numbered(a) == numbered(b) {
        assert(numbered(a).subrange(0, 8) =~= spec_u64_to_le_bytes(a));
        assert(numbered(b).subrange(0, 8) =~= spec_u64_to_le_bytes(b));
    }
}

/// Returns the `n`-th identifier of the fallback sequence.
fn numbered_id(n: u64) -> (id: RawServerSubscriptionId)
    ensures
        id@ == numbered(n),
{
    let low = u64_to_le_bytes(n);
    proof {
        lemma_auto_spec_u64_to_from_le_bytes();
    }
    let mut bytes: [u8; 32] = [0u8; 32];
    let mut i: usize = 0;
    while i < 8
        invariant
            i <= 8,
            low@.len() == 8,
            forall|j: int| 0 <= j < i ==> bytes@[j] == low@[j],
            forall|j: int| i <= j < 32 ==> bytes@[j] == 0u8,
        decreases 8 - i,
    {
        bytes[i] = low[i];
        i = i + 1;
    }
    assert(bytes@ =~= numbered(n));
    RawServerSubscriptionId(bytes)
}

/// The identifiers of the subscriptions that use `connection`.
pub open spec fn on_connection(
    subscriptions: Map<Seq<u8>, SubscriptionState>,
    connection: ConnectionId,
) -> Set<Seq<u8>> {
    Set::new(
        |key: Seq<u8>|
            subscriptions.dom().contains(key) && subscriptions[key].raw_id == connection,
    )
}

/// The identifiers of the subscriptions that use `connection` and whose
/// subscribe reply has yet to leave.
pub open spec fn pending_on(
    subscriptions: Map<Seq<u8>, SubscriptionState>,
    connection: ConnectionId,
) -> Set<Seq<u8>> {
    Set::new(
        |key: Seq<u8>|
            subscriptions.dom().contains(key) && subscriptions[key].raw_id == connection
                && subscriptions[key].pending,
    )
}

/// A subscription after the reply on `connection` has left.
pub open spec fn made_ready(state: SubscriptionState, connection: ConnectionId) -> SubscriptionState {
    if state.raw_id == connection {
        SubscriptionState { pending: false, ..state }
    } else {
        state
    }
}

/// The subscriptions after the reply on `connection` has left: every
/// subscription on that connection is ready.
pub open spec fn readied(
    subscriptions: Map<Seq<u8>, SubscriptionState>,
    connection: ConnectionId,
) -> Map<Seq<u8>, SubscriptionState> {
    Map::new(
        |key: Seq<u8>| subscriptions.dom().contains(key),
        |key: Seq<u8>| made_ready(subscriptions[key], connection),
    )
}

/// The registry, as contracts see it.
pub struct RegistryView {
    /// The state of each live subscription, by the bytes of its identifier.
    pub subscriptions: Map<Seq<u8>, SubscriptionState>,
    /// For each connection that has subscriptions, how many.
    pub counts: Map<ConnectionId, usize>,
}

impl RegistryView {
    /// The invariant of the registry: a connection has a count exactly
    /// where some subscription uses it, and the count is the number of
    /// subscriptions that do.
    pub open spec fn wf(self) -> bool {
        &&& self.subscriptions.dom().finite()
        &&& self.subscriptions.dom().len() <= usize::MAX
        &&& forall|connection: ConnectionId| #[trigger]
            self.counts.dom().contains(connection) <==> on_connection(
                self.subscriptions,
                connection,
            ).len() > 0
        &&& forall|connection: ConnectionId| #[trigger]
            self.counts.dom().contains(connection) ==> self.counts[connection] == on_connection(
                self.subscriptions,
                connection,
            ).len()
    }

    /// Whether some subscription uses `connection`.
    pub open spec fn references(self, connection: ConnectionId) -> bool {
        self.counts.dom().contains(connection)
    }
}

/// The subscriptions on one connection are finitely many, no more than all
/// subscriptions.
pub proof fn lemma_on_connection_finite(
    subscriptions: Map<Seq<u8>, SubscriptionState>,
    connection: ConnectionId,
)
    requires
        subscriptions.dom().finite(),
    ensures
        on_connection(subscriptions, connection).finite(),
        on_connection(subscriptions, connection).len() <= subscriptions.dom().len(),
{
    lemma_len_subset(on_connection(subscriptions, connection), subscriptions.dom());
}

/// In a well-formed registry the count of a connection is the number of
/// live subscriptions on it, and a connection without a count has none.
pub proof fn lemma_count_is_number_of_subscriptions(registry: RegistryView, connection: ConnectionId)
    requires
        registry.wf(),
    ensures
        registry.counts.dom().contains(connection) ==> registry.counts[connection] > 0
            && registry.counts[connection] == on_connection(
            registry.subscriptions,
            connection,
        ).len(),
        !registry.counts.dom().contains(connection) ==> forall|key: Seq<u8>|
            registry.subscriptions.dom().contains(key) ==> (
            #[trigger] registry.subscriptions[key]).raw_id != connection,
{
    lemma_on_connection_finite(registry.subscriptions, connection);
    if !registry.counts.dom().contains(connection) {
        let on = on_connection(registry.subscriptions, connection);
        assert(on.len() == 0);
        assert forall|key: Seq<u8>| registry.subscriptions.dom().contains(key) implies (
        #[trigger] registry.subscriptions[key]).raw_id != connection by {
            if registry.subscriptions[key].raw_id == connection {
                assert(on.contains(key));
            }
        }
    }
}

/// The subscription registry.
pub struct SubscriptionRegistry {
    /// State of each live subscription.
    subscriptions: HashMap<[u8; 32], SubscriptionState, FnvBuildHasher>,
    /// For each connection, the number of live subscriptions on it.
    num_subscriptions: HashMap<ConnectionId, usize, DefaultHashBuilder>,
}

impl View for SubscriptionRegistry {
    type V = RegistryView;

    closed spec fn view(&self) -> RegistryView {
        RegistryView {
            subscriptions: subscription_entries(self.subscriptions),
            counts: count_entries(self.num_subscriptions),
        }
    }
}

impl SubscriptionRegistry {
    /// Returns a registry without subscriptions.
    pub fn new() -> (registry: SubscriptionRegistry)
        ensures
            registry@.wf(),
            registry@.subscriptions == Map::<Seq<u8>, SubscriptionState>::empty(),
            registry@.counts == Map::<ConnectionId, usize>::empty(),
    {
        let registry = SubscriptionRegistry {
            subscriptions: new_subscription_table(),
            num_subscriptions: new_count_table(),
        };
        proof {
            assert(registry@.subscriptions =~= Map::<Seq<u8>, SubscriptionState>::empty());
            assert(registry@.counts =~= Map::<ConnectionId, usize>::empty());
            assert forall|connection: ConnectionId|
                on_connection(registry@.subscriptions, connection).len() == 0 by {
                assert(on_connection(registry@.subscriptions, connection) =~= Set::<
                    Seq<u8>,
                >::empty());
            }
        }
        registry
    }

    /// Returns the state of the subscription `id`, if it is live.
    pub fn get(&self, id: &RawServerSubscriptionId) -> (r: Option<&SubscriptionState>)
        ensures
            match r {
                Some(state) => self@.subscriptions.dom().contains(id@) && *state
                    == self@.subscriptions[id@],
                None => !self@.subscriptions.dom().contains(id@),
            },
    {
        subscription_get(&self.subscriptions, &id.0)
    }

    /// Returns whether the subscription `id` is live.
    pub fn contains(&self, id: &RawServerSubscriptionId) -> (r: bool)
        ensures
            r == self@.subscriptions.dom().contains(id@),
    {
        subscription_get(&self.subscriptions, &id.0).is_some()
    }

    /// Returns whether some subscription uses `connection`.
    pub fn has_connection(&self, connection: ConnectionId) -> (r: bool)
        ensures
            r == self@.references(connection),
    {
        count_get(&self.num_subscriptions, connection).is_some()
    }

    /// Returns an identifier that no live subscription has.
    ///
    /// The identifier is 32 random bytes. Where those are taken already,
    /// new ones are drawn, a few times over. Should every draw be taken,
    /// the first free identifier of a fixed sequence is returned; the
    /// sequence has more members than a registry has room for entries, so
    /// one of them is free.
    pub fn fresh_id(&self) -> (id: RawServerSubscriptionId)
        requires
            self@.wf(),
        ensures
            !self@.subscriptions.dom().contains(id@),
    {
        let mut attempts: u8 = 0;
        while attempts < 8
            invariant
                attempts <= 8,
            decreases 8 - attempts,
        {
            let id = RawServerSubscriptionId(random_bytes());
            if !self.contains(&id) {
                return id;
            }
            attempts = attempts + 1;
        }
        let mut n: u64 = 0;
        let ghost mut seen: Set<Seq<u8>> = Set::empty();
        loop
            invariant
                self@.wf(),
                seen.finite(),
                seen.len() == n,
                seen.subset_of(self@.subscriptions.dom()),
                forall|key: Seq<u8>| #[trigger]
                    seen.contains(key) ==> exists|j: u64| j < n && key == #[trigger] numbered(j),
            decreases u64::MAX - n,
        {
            let id = numbered_id(n);
            if !self.contains(&id) {
                return id;
            }
            proof {
                if seen.contains(id@) {
                    let j = choose|j: u64| j < n && id@ == #[trigger] numbered(j);
                    lemma_numbered_differ(j, n);
                }
                let grown = seen.insert(id@);
                lemma_len_subset(grown, self@.subscriptions.dom());
                assert forall|key: Seq<u8>| #[trigger] grown.contains(key) implies exists|j: u64|
                    j < n + 1 && key == #[trigger] numbered(j) by {
                    if key == id@ {
                        assert(n < n + 1 && key == numbered(n));
                    } else {
                        let j = choose|j: u64| j < n && key == #[trigger] numbered(j);
                        assert(j < n + 1 && key == numbered(j));
                    }
                }
                seen = grown;
            }
            n = n + 1;
        }
    }

    /// Records a new subscription on `connection`, opened by `method`, with
    /// its subscribe reply yet to leave. The count of the connection goes up
    /// by one; it starts at one.
    pub fn insert(&mut self, id: RawServerSubscriptionId, connection: ConnectionId, method: String)
        requires
            old(self)@.wf(),
            !old(self)@.subscriptions.dom().contains(id@),
        ensures
            final(self)@.wf(),
            final(self)@.subscriptions == old(self)@.subscriptions.insert(
                id@,
                SubscriptionState { raw_id: connection, method, pending: true },
            ),
            final(self)@.counts == old(self)@.counts.insert(
                connection,
                if old(self)@.counts.dom().contains(connection) {
                    (old(self)@.counts[connection] + 1) as usize
                } else {
                    1usize
                },
            ),
    {
        let ghost before = self@;
        let state = SubscriptionState { raw_id: connection, method, pending: true };
        let _ = subscription_insert(&mut self.subscriptions, id.0, state);
        let ghost after = subscription_entries(self.subscriptions);
        proof {
            assert forall|c: ConnectionId|
                on_connection(after, c) == if c == connection {
                    on_connection(before.subscriptions, c).insert(id@)
                } else {
                    on_connection(before.subscriptions, c)
                } by {
                assert(on_connection(after, c) =~= if c == connection {
                    on_connection(before.subscriptions, c).insert(id@)
                } else {
                    on_connection(before.subscriptions, c)
                });
            }
            lemma_on_connection_finite(before.subscriptions, connection);
            lemma_on_connection_finite(after, connection);
            let on_before = on_connection(before.subscriptions, connection);
            assert(on_connection(after, connection) == on_before.insert(id@));
            assert(!on_before.contains(id@));
            assert(on_connection(after, connection).len() == on_before.len() + 1);
            if !before.counts.dom().contains(connection) {
                assert(on_before.len() == 0);
            }
        }
        let count = match count_get(&self.num_subscriptions, connection) {
            Some(count) => count + 1,
            None => 1,
        };
        let _ = count_insert(&mut self.num_subscriptions, connection, count);
        proof {
            assert(count == on_connection(after, connection).len());
            assert forall|c: ConnectionId| #[trigger]
                self@.counts.dom().contains(c) <==> on_connection(self@.subscriptions, c).len()
                    > 0 by {
                if c != connection {
                    assert(before.counts.dom().contains(c) <==> on_connection(
                        before.subscriptions,
                        c,
                    ).len() > 0);
                }
            }
            assert forall|c: ConnectionId| #[trigger]
                self@.counts.dom().contains(c) implies self@.counts[c] == on_connection(
                    self@.subscriptions,
                    c,
                ).len() by {
                if c != connection {
                    assert(before.counts.dom().contains(c));
                }
            }
        }
    }

    /// Removes the subscription `id`. The count of its connection goes down
    /// by one, and is dropped where it was one. Returns the state that the
    /// subscription had and whether it was the last on its connection.
    pub fn remove(&mut self, id: &RawServerSubscriptionId) -> (r: (SubscriptionState, bool))
        requires
            old(self)@.wf(),
            old(self)@.subscriptions.dom().contains(id@),
        ensures
            final(self)@.wf(),
            r.0 == old(self)@.subscriptions[id@],
            r.1 == (old(self)@.counts[r.0.raw_id] == 1),
            final(self)@.subscriptions == old(self)@.subscriptions.remove(id@),
            final(self)@.counts == if r.1 {
                old(self)@.counts.remove(r.0.raw_id)
            } else {
                old(self)@.counts.insert(
                    r.0.raw_id,
                    (old(self)@.counts[r.0.raw_id] - 1) as usize,
                )
            },
    {
        let ghost before = self@;
        let state = subscription_remove(&mut self.subscriptions, &id.0).unwrap();
        let connection = state.raw_id;
        let ghost after = subscription_entries(self.subscriptions);
        proof {
            assert forall|c: ConnectionId|
                on_connection(after, c) == if c == connection {
                    on_connection(before.subscriptions, c).remove(id@)
                } else {
                    on_connection(before.subscriptions, c)
                } by {
                assert(on_connection(after, c) =~= if c == connection {
                    on_connection(before.subscriptions, c).remove(id@)
                } else {
                    on_connection(before.subscriptions, c)
                });
            }
            lemma_on_connection_finite(before.subscriptions, connection);
            assert(on_connection(before.subscriptions, connection).contains(id@));
            assert(before.counts.dom().contains(connection));
            assert(after.dom() =~= before.subscriptions.dom().remove(id@));
        }
        let is_last = match count_get(&self.num_subscriptions, connection) {
            Some(count) => {
                if count >= 2 {
                    let _ = count_insert(&mut self.num_subscriptions, connection, count - 1);
                    false
                } else {
                    let _ = count_remove(&mut self.num_subscriptions, connection);
                    true
                }
            },
            None => {
                true
            },
        };
        proof {
            assert forall|c: ConnectionId| #[trigger]
                self@.counts.dom().contains(c) <==> on_connection(self@.subscriptions, c).len()
                    > 0 by {
                if c != connection {
                    assert(before.counts.dom().contains(c) <==> on_connection(
                        before.subscriptions,
                        c,
                    ).len() > 0);
                }
            }
        }
        (state, is_last)
    }

    /// Marks ready every subscription on `connection` whose subscribe reply
    /// had yet to leave, and returns their identifiers, each once.
    #[verifier::loop_isolation(false)]
    pub fn mark_ready(&mut self, connection: ConnectionId) -> (ready: Vec<RawServerSubscriptionId>)
        requires
            old(self)@.wf(),
        ensures
            final(self)@.wf(),
            lists(ready@, pending_on(old(self)@.subscriptions, connection)),
            final(self)@.counts == old(self)@.counts,
            final(self)@.subscriptions == readied(old(self)@.subscriptions, connection),
    {
        let ghost before = self@;
        let keys = subscription_keys(&self.subscriptions);
        let mut ready: Vec<RawServerSubscriptionId> = Vec::new();
        let mut i: usize = 0;
        while i < keys.len()
            invariant
                i <= keys@.len(),
                self@.counts == before.counts,
                self@.subscriptions.dom() == before.subscriptions.dom(),
                forall|j: int|
                    0 <= j < i ==> self@.subscriptions[(#[trigger] keys@[j])@] == made_ready(
                        before.subscriptions[keys@[j]@],
                        connection,
                    ),
                forall|j: int|
                    i <= j < keys@.len() ==> self@.subscriptions[(#[trigger] keys@[j])@]
                        == before.subscriptions[keys@[j]@],
                forall|a: int, b: int|
                    0 <= a < b < ready@.len() ==> (#[trigger] ready@[a])@ != (
                    #[trigger] ready@[b])@,
                forall|a: int|
                    0 <= a < ready@.len() ==> pending_on(before.subscriptions, connection).contains(
                        (#[trigger] ready@[a])@,
                    ) && exists|j: int| 0 <= j < i && (#[trigger] keys@[j])@ == ready@[a]@,
                forall|j: int|
                    0 <= j < i && pending_on(before.subscriptions, connection).contains(
                        (#[trigger] keys@[j])@,
                    ) ==> exists|a: int| 0 <= a < ready@.len() && (#[trigger] ready@[a])@ == keys@[j]@,
            decreases keys@.len() - i,
        {
            let id = keys[i];
            let ghost now = self@.subscriptions;
            let ghost listed = ready@;
            let mut flipped = false;
            match subscription_get_mut(&mut self.subscriptions, &id.0) {
                Some(state) => {
                    if state.raw_id == connection && state.pending {
                        state.pending = false;
                        flipped = true;
                    }
                },
                None => {},
            }
            if flipped {
                ready.push(id);
            }
            proof {
                assert(self@.subscriptions.dom() =~= now.dom());
                assert(self@.subscriptions[id@] == made_ready(before.subscriptions[id@], connection));
                assert forall|j: int| 0 <= j < i + 1 implies self@.subscriptions[(
                #[trigger] keys@[j])@] == made_ready(before.subscriptions[keys@[j]@], connection) by {
                    if j < i {
                        assert(keys@[j]@ != keys@[i as int]@);
                    }
                }
                assert forall|j: int| i + 1 <= j < keys@.len() implies self@.subscriptions[(
                #[trigger] keys@[j])@] == before.subscriptions[keys@[j]@] by {
                    assert(keys@[i as int]@ != keys@[j]@);
                }
                assert forall|a: int, b: int| 0 <= a < b < ready@.len() implies (
                #[trigger] ready@[a])@ != (#[trigger] ready@[b])@ by {
                    if b == listed.len() {
                        let j = choose|j: int| 0 <= j < i && (#[trigger] keys@[j])@ == listed[a]@;
                        assert(keys@[j]@ != keys@[i as int]@);
                    }
                }
                assert forall|a: int| 0 <= a < ready@.len() implies pending_on(
                    before.subscriptions,
                    connection,
                ).contains((#[trigger] ready@[a])@) && exists|j: int|
                    0 <= j < i + 1 && (#[trigger] keys@[j])@ == ready@[a]@ by {
                    if a < listed.len() {
                        let j = choose|j: int| 0 <= j < i && (#[trigger] keys@[j])@ == listed[a]@;
                        assert(0 <= j < i + 1 && keys@[j]@ == ready@[a]@);
                    } else {
                        assert(keys@[i as int]@ == ready@[a]@);
                    }
                }
                assert forall|j: int|
                    0 <= j < i + 1 && pending_on(before.subscriptions, connection).contains(
                        (#[trigger] keys@[j])@,
                    ) implies exists|a: int|
                    0 <= a < ready@.len() && (#[trigger] ready@[a])@ == keys@[j]@ by {
                    if j < i {
                        let a = choose|a: int|
                            0 <= a < listed.len() && (#[trigger] listed[a])@ == keys@[j]@;
                        assert(ready@[a] == listed[a]);
                    } else {
                        assert(ready@[listed.len() as int]@ == keys@[j]@);
                    }
                }
            }
            i = i + 1;
        }
        proof {
            assert forall|key: Seq<u8>| before.subscriptions.dom().contains(key) implies #[trigger]
                self@.subscriptions[key] == made_ready(before.subscriptions[key], connection) by {
                let j = choose|j: int| 0 <= j < keys@.len() && (#[trigger] keys@[j])@ == key;
                assert(self@.subscriptions[keys@[j]@] == made_ready(
                    before.subscriptions[keys@[j]@],
                    connection,
                ));
            }
            assert forall|key: Seq<u8>| #[trigger]
                pending_on(before.subscriptions, connection).contains(key) implies exists|a: int|
                0 <= a < ready@.len() && (#[trigger] ready@[a])@ == key by {
                let j = choose|j: int| 0 <= j < keys@.len() && (#[trigger] keys@[j])@ == key;
                assert(pending_on(before.subscriptions, connection).contains(keys@[j]@));
            }
            assert(self@.subscriptions =~= readied(before.subscriptions, connection));
            assert forall|c: ConnectionId|
                on_connection(self@.subscriptions, c) == on_connection(
                    before.subscriptions,
                    c,
                ) by {
                assert(on_connection(self@.subscriptions, c) =~= on_connection(
                    before.subscriptions,
                    c,
                ));
            }
        }
        ready
    }

    /// Drops everything that uses `connection`: its count and every
    /// subscription on it. Returns the identifiers of those subscriptions,
    /// each once.
    #[verifier::loop_isolation(false)]
    pub fn drop_connection(&mut self, connection: ConnectionId) -> (closed: Vec<
        RawServerSubscriptionId,
    >)
        requires
            old(self)@.wf(),
        ensures
            final(self)@.wf(),
            lists(closed@, on_connection(old(self)@.subscriptions, connection)),
            final(self)@.counts == old(self)@.counts.remove(connection),
            final(self)@.subscriptions == old(self)@.subscriptions.remove_keys(
                on_connection(old(self)@.subscriptions, connection),
            ),
            !final(self)@.references(connection),
    {
        let ghost before = self@;
        let mut closed: Vec<RawServerSubscriptionId> = Vec::new();
        if count_remove(&mut self.num_subscriptions, connection).is_none() {
            proof {
                lemma_count_is_number_of_subscriptions(before, connection);
                assert(on_connection(before.subscriptions, connection) =~= Set::<
                    Seq<u8>,
                >::empty());
                assert(self@.subscriptions =~= before.subscriptions.remove_keys(
                    on_connection(before.subscriptions, connection),
                ));
                assert(self@.counts =~= before.counts.remove(connection));
            }
            return closed;
        }
        let keys = subscription_keys(&self.subscriptions);
        let ghost gone = on_connection(before.subscriptions, connection);
        let mut i: usize = 0;
        while i < keys.len()
            invariant
                i <= keys@.len(),
                self@.counts == before.counts.remove(connection),
                self@.subscriptions.dom().subset_of(before.subscriptions.dom()),
                forall|key: Seq<u8>|
                    self@.subscriptions.dom().contains(key) ==> #[trigger] self@.subscriptions[key]
                        == before.subscriptions[key],
                forall|j: int|
                    0 <= j < i ==> (self@.subscriptions.dom().contains((#[trigger] keys@[j])@)
                        <==> !gone.contains(keys@[j]@)),
                forall|j: int|
                    i <= j < keys@.len() ==> self@.subscriptions.dom().contains(
                        (#[trigger] keys@[j])@,
                    ),
                forall|a: int, b: int|
                    0 <= a < b < closed@.len() ==> (#[trigger] closed@[a])@ != (
                    #[trigger] closed@[b])@,
                forall|a: int|
                    0 <= a < closed@.len() ==> gone.contains((#[trigger] closed@[a])@)
                        && exists|j: int| 0 <= j < i && (#[trigger] keys@[j])@ == closed@[a]@,
                forall|j: int|
                    0 <= j < i && gone.contains((#[trigger] keys@[j])@) ==> exists|a: int|
                        0 <= a < closed@.len() && (#[trigger] closed@[a])@ == keys@[j]@,
            decreases keys@.len() - i,
        {
            let id = keys[i];
            let ghost now = self@.subscriptions;
            let ghost listed = closed@;
            let on_it = match subscription_get(&self.subscriptions, &id.0) {
                Some(state) => state.raw_id == connection,
                None => false,
            };
            if on_it {
                let _ = subscription_remove(&mut self.subscriptions, &id.0);
                closed.push(id);
            }
            proof {
                assert(self@.subscriptions.dom() =~= if on_it {
                    now.dom().remove(id@)
                } else {
                    now.dom()
                });
                assert forall|j: int| 0 <= j < i + 1 implies (self@.subscriptions.dom().contains(
                    (#[trigger] keys@[j])@,
                ) <==> !gone.contains(keys@[j]@)) by {
                    if j < i {
                        assert(keys@[j]@ != keys@[i as int]@);
                    }
                }
                assert forall|j: int| i + 1 <= j < keys@.len() implies self@.subscriptions.dom().contains(
                (#[trigger] keys@[j])@) by {
                    assert(keys@[i as int]@ != keys@[j]@);
                }
                assert forall|a: int, b: int| 0 <= a < b < closed@.len() implies (
                #[trigger] closed@[a])@ != (#[trigger] closed@[b])@ by {
                    if b == listed.len() {
                        let j = choose|j: int| 0 <= j < i && (#[trigger] keys@[j])@ == listed[a]@;
                        assert(keys@[j]@ != keys@[i as int]@);
                    }
                }
                assert forall|a: int| 0 <= a < closed@.len() implies gone.contains(
                    (#[trigger] closed@[a])@,
                ) && exists|j: int| 0 <= j < i + 1 && (#[trigger] keys@[j])@ == closed@[a]@ by {
                    if a < listed.len() {
                        let j = choose|j: int| 0 <= j < i && (#[trigger] keys@[j])@ == listed[a]@;
                        assert(0 <= j < i + 1 && keys@[j]@ == closed@[a]@);
                    } else {
                        assert(keys@[i as int]@ == closed@[a]@);
                    }
                }
                assert forall|j: int| 0 <= j < i + 1 && gone.contains((#[trigger] keys@[j])@) implies exists|
                    a: int,
                | 0 <= a < closed@.len() && (#[trigger] closed@[a])@ == keys@[j]@ by {
                    if j < i {
                        let a = choose|a: int|
                            0 <= a < listed.len() && (#[trigger] listed[a])@ == keys@[j]@;
                        assert(closed@[a] == listed[a]);
                    } else {
                        assert(closed@[listed.len() as int]@ == keys@[j]@);
                    }
                }
            }
            i = i + 1;
        }
        proof {
            assert forall|key: Seq<u8>| #[trigger] gone.contains(key) implies exists|a: int|
                0 <= a < closed@.len() && (#[trigger] closed@[a])@ == key by {
                let j = choose|j: int| 0 <= j < keys@.len() && (#[trigger] keys@[j])@ == key;
                assert(gone.contains(keys@[j]@));
            }
            assert forall|key: Seq<u8>|
                self@.subscriptions.dom().contains(key) <==> (before.subscriptions.dom().contains(
                    key,
                ) && !gone.contains(key)) by {
                if before.subscriptions.dom().contains(key) {
                    let j = choose|j: int| 0 <= j < keys@.len() && (#[trigger] keys@[j])@ == key;
                    assert(self@.subscriptions.dom().contains(keys@[j]@) <==> !gone.contains(
                        keys@[j]@,
                    ));
                }
            }
            assert(self@.subscriptions =~= before.subscriptions.remove_keys(gone));
            lemma_len_subset(self@.subscriptions.dom(), before.subscriptions.dom());
            assert forall|c: ConnectionId|
                on_connection(self@.subscriptions, c) == if c == connection {
                    Set::<Seq<u8>>::empty()
                } else {
                    on_connection(before.subscriptions, c)
                } by {
                assert(on_connection(self@.subscriptions, c) =~= if c == connection {
                    Set::<Seq<u8>>::empty()
                } else {
                    on_connection(before.subscriptions, c)
                });
            }
            assert forall|c: ConnectionId| #[trigger]
                self@.counts.dom().contains(c) <==> on_connection(self@.subscriptions, c).len()
                    > 0 by {
                if c != connection {
                    assert(before.counts.dom().contains(c) <==> on_connection(
                        before.subscriptions,
                        c,
                    ).len() > 0);
                }
            }
        }
        closed
    }
}

} // verus!
