//! Which clients subscribe to which registered subscription.
//!
//! A registered subscription is known by a unique id that the front end
//! chose. Each live subscription of a client belongs to one of them. The
//! list of subscribers of a registered subscription and the owner of a
//! subscriber are two readings of one list of pairs, so that the one is
//! always the inverse of the other.

use crate::subscription_id::RawServerSubscriptionId;
use vstd::prelude::*;

verus! {

/// The registered subscription that owns the subscriber `id`, if any does.
pub open spec fn owner_of(
    entries: Seq<(RawServerSubscriptionId, usize)>,
    id: RawServerSubscriptionId,
) -> Option<usize>
    decreases entries.len(),
{
    if entries.len() == 0 {
        None
    } else if entries.last().0 == id {
        Some(entries.last().1)
    } else {
        owner_of(entries.drop_last(), id)
    }
}

/// The subscribers of the registered subscription `unique_id`, oldest
/// first.
pub open spec fn clients_of(
    entries: Seq<(RawServerSubscriptionId, usize)>,
    unique_id: usize,
) -> Seq<RawServerSubscriptionId>
    decreases entries.len(),
{
    if entries.len() == 0 {
        Seq::empty()
    } else if entries.last().1 == unique_id {
        clients_of(entries.drop_last(), unique_id).push(entries.last().0)
    } else {
        clients_of(entries.drop_last(), unique_id)
    }
}

/// Whether no subscriber is listed twice.
pub open spec fn distinct_ids(entries: Seq<(RawServerSubscriptionId, usize)>) -> bool {
    forall|i: int, j: int|
        0 <= i < j < entries.len() ==> (#[trigger] entries[i]).0 != (#[trigger] entries[j]).0
}

/// A subscriber has an owner exactly where it is listed, and the owner is
/// the one it is listed with.
pub proof fn lemma_owner(entries: Seq<(RawServerSubscriptionId, usize)>, id: RawServerSubscriptionId)
    requires
        distinct_ids(entries),
    ensures
        owner_of(entries, id) is None <==> forall|i: int|
            0 <= i < entries.len() ==> (#[trigger] entries[i]).0 != id,
        forall|i: int|
            0 <= i < entries.len() && (#[trigger] entries[i]).0 == id ==> owner_of(entries, id)
                == Some(entries[i].1),
    decreases entries.len(),
{
    if entries.len() > 0 {
        let before = entries.drop_last();
        lemma_owner(before, id);
        if entries.last().0 == id {
            assert forall|i: int| 0 <= i < entries.len() && (#[trigger] entries[i]).0
                == id implies owner_of(entries, id) == Some(entries[i].1) by {
                if i < entries.len() - 1 {
                    assert(entries[i].0 != entries[entries.len() - 1].0);
                }
            }
        } else {
            assert forall|i: int| 0 <= i < entries.len() && (#[trigger] entries[i]).0
                == id implies owner_of(entries, id) == Some(entries[i].1) by {
                assert(before[i] == entries[i]);
            }
            if owner_of(entries, id) is None {
                assert forall|i: int| 0 <= i < entries.len() implies (#[trigger] entries[i]).0
                    != id by {
                    if i < entries.len() - 1 {
                        assert(before[i] == entries[i]);
                    }
                }
            } else {
                let i = choose|i: int| 0 <= i < before.len() && (#[trigger] before[i]).0 == id;
                assert(entries[i].0 == id);
            }
        }
    }
}

/// A subscriber is in the list of a registered subscription exactly where
/// it is listed with it.
pub proof fn lemma_clients(
    entries: Seq<(RawServerSubscriptionId, usize)>,
    unique_id: usize,
    id: RawServerSubscriptionId,
)
    ensures
        clients_of(entries, unique_id).contains(id) <==> exists|i: int|
            0 <= i < entries.len() && #[trigger] entries[i] == (id, unique_id),
    decreases entries.len(),
{
    if entries.len() > 0 {
        let before = entries.drop_last();
        lemma_clients(before, unique_id, id);
        let list = clients_of(entries, unique_id);
        let list_before = clients_of(before, unique_id);
        if clients_of(entries, unique_id).contains(id) {
            let k = choose|k: int| 0 <= k < list.len() && list[k] == id;
            if entries.last().1 == unique_id && k == list.len() - 1 {
                assert(entries[entries.len() - 1] == (id, unique_id));
            } else {
                assert(list_before[k] == id);
                assert(list_before.contains(id));
                let i = choose|i: int| 0 <= i < before.len() && #[trigger] before[i] == (
                    id,
                    unique_id,
                );
                assert(entries[i] == (id, unique_id));
            }
        }
        if exists|i: int| 0 <= i < entries.len() && #[trigger] entries[i] == (id, unique_id) {
            let i = choose|i: int| 0 <= i < entries.len() && #[trigger] entries[i] == (
                id,
                unique_id,
            );
            if i == entries.len() - 1 {
                assert(list[list.len() - 1] == id);
            } else {
                assert(before[i] == (id, unique_id));
                assert(list_before.contains(id));
                let k = choose|k: int| 0 <= k < list_before.len() && list_before[k] == id;
                assert(list[k] == id);
            }
        }
    }
}

/// The list of subscribers and the owner of a subscriber are inverses of
/// each other: a subscriber is in the list of a registered subscription
/// exactly where that is its owner.
pub proof fn lemma_lists_are_inverse(
    entries: Seq<(RawServerSubscriptionId, usize)>,
    unique_id: usize,
    id: RawServerSubscriptionId,
)
    requires
        distinct_ids(entries),
    ensures
        clients_of(entries, unique_id).contains(id) <==> owner_of(entries, id) == Some(unique_id),
{
    lemma_owner(entries, id);
    lemma_clients(entries, unique_id, id);
    if owner_of(entries, id) == Some(unique_id) {
        let i = choose|i: int| 0 <= i < entries.len() && (#[trigger] entries[i]).0 == id;
        assert(entries[i] == (id, unique_id));
    }
}

/// The list without the subscribers in `gone`, in the same order.
pub open spec fn without_ids(
    entries: Seq<(RawServerSubscriptionId, usize)>,
    gone: Seq<RawServerSubscriptionId>,
) -> Seq<(RawServerSubscriptionId, usize)>
    decreases entries.len(),
{
    if entries.len() == 0 {
        Seq::empty()
    } else if gone.contains(entries.last().0) {
        without_ids(entries.drop_last(), gone)
    } else {
        without_ids(entries.drop_last(), gone).push(entries.last())
    }
}

/// What is left of a list was in the list and is not in `gone`; and what was
/// in the list and is not in `gone` is left. No subscriber is left twice if
/// none was listed twice.
pub proof fn lemma_without_ids(
    entries: Seq<(RawServerSubscriptionId, usize)>,
    gone: Seq<RawServerSubscriptionId>,
)
    ensures
        forall|k: int|
            0 <= k < without_ids(entries, gone).len() ==> !gone.contains(
                (#[trigger] without_ids(entries, gone)[k]).0,
            ) && entries.contains(without_ids(entries, gone)[k]),
        forall|i: int|
            0 <= i < entries.len() && !gone.contains((#[trigger] entries[i]).0) ==> without_ids(
                entries,
                gone,
            ).contains(entries[i]),
        distinct_ids(entries) ==> distinct_ids(without_ids(entries, gone)),
    decreases entries.len(),
{
    if entries.len() > 0 {
        let before = entries.drop_last();
        let left = without_ids(entries, gone);
        let left_before = without_ids(before, gone);
        lemma_without_ids(before, gone);
        assert forall|k: int| 0 <= k < left.len() implies !gone.contains((#[trigger] left[k]).0)
            && entries.contains(left[k]) by {
            if k < left_before.len() {
                assert(left[k] == left_before[k]);
                let i = choose|i: int| 0 <= i < before.len() && before[i] == left_before[k];
                assert(entries[i] == left[k]);
            } else {
                assert(entries[entries.len() - 1] == left[k]);
            }
        }
        assert forall|i: int|
            0 <= i < entries.len() && !gone.contains((#[trigger] entries[i]).0) implies left.contains(
            entries[i],
        ) by {
            if i < before.len() {
                assert(before[i] == entries[i]);
                let k = choose|k: int| 0 <= k < left_before.len() && left_before[k] == before[i];
                assert(left[k] == entries[i]);
            } else {
                assert(left[left.len() - 1] == entries[i]);
            }
        }
        if distinct_ids(entries) {
            assert(distinct_ids(before)) by {
                assert forall|a: int, b: int| 0 <= a < b < before.len() implies (
                #[trigger] before[a]).0 != (#[trigger] before[b]).0 by {
                    assert(entries[a].0 != entries[b].0);
                }
            }
            assert forall|a: int, b: int| 0 <= a < b < left.len() implies (#[trigger] left[a]).0
                != (#[trigger] left[b]).0 by {
                if b < left_before.len() {
                    assert(left_before[a].0 != left_before[b].0);
                } else {
                    let i = choose|i: int| 0 <= i < before.len() && before[i] == left_before[a];
                    assert(entries[i].0 != entries[entries.len() - 1].0);
                }
            }
        }
    }
}

/// The subscribers, as contracts see them.
pub struct SubscribersView {
    /// The unique ids of the registered subscriptions.
    pub registered: Set<usize>,
    /// Each subscriber with the registered subscription that owns it,
    /// oldest first.
    pub entries: Seq<(RawServerSubscriptionId, usize)>,
}

impl SubscribersView {
    /// The invariant: no subscriber is listed twice, and the owner of each
    /// is registered.
    pub open spec fn wf(self) -> bool {
        &&& distinct_ids(self.entries)
        &&& forall|i: int|
            0 <= i < self.entries.len() ==> self.registered.contains((#[trigger] self.entries[i]).1)
    }
}

/// The subscribers of every registered subscription.
pub struct Subscribers {
    registered: Vec<usize>,
    entries: Vec<(RawServerSubscriptionId, usize)>,
}

impl View for Subscribers {
    type V = SubscribersView;

    closed spec fn view(&self) -> SubscribersView {
        SubscribersView { registered: self.registered@.to_set(), entries: self.entries@ }
    }
}

impl Subscribers {
    /// Returns the state in which nothing is registered.
    pub fn new() -> (subscribers: Subscribers)
        ensures
            subscribers@.wf(),
            subscribers@.registered == Set::<usize>::empty(),
            subscribers@.entries.len() == 0,
    {
        let subscribers = Subscribers { registered: Vec::new(), entries: Vec::new() };
        assert(subscribers@.registered =~= Set::<usize>::empty());
        subscribers
    }

    /// Returns whether `unique_id` is registered.
    pub fn is_registered(&self, unique_id: usize) -> (r: bool)
        ensures
            r == self@.registered.contains(unique_id),
    {
        let mut i: usize = 0;
        while i < self.registered.len()
            invariant
                i <= self.registered@.len(),
                forall|j: int| 0 <= j < i ==> self.registered@[j] != unique_id,
            decreases self.registered@.len() - i,
        {
            if self.registered[i] == unique_id {
                assert(self.registered@.contains(unique_id));
                return true;
            }
            i = i + 1;
        }
        assert(!self.registered@.contains(unique_id));
        false
    }

    /// Registers `unique_id`, with no subscriber yet. The subscribers of a
    /// unique id that is registered already stay.
    pub fn register(&mut self, unique_id: usize)
        requires
            old(self)@.wf(),
        ensures
            final(self)@.wf(),
            final(self)@.registered == old(self)@.registered.insert(unique_id),
            final(self)@.entries == old(self)@.entries,
    {
        if !self.is_registered(unique_id) {
            self.registered.push(unique_id);
            proof {
                let before = old(self).registered@;
                assert forall|u: usize| #[trigger]
                    self.registered@.contains(u) <==> (u == unique_id || before.contains(u)) by {
                    if before.contains(u) {
                        let j = choose|j: int| 0 <= j < before.len() && before[j] == u;
                        assert(self.registered@[j] == u);
                    }
                    if u == unique_id {
                        assert(self.registered@[before.len() as int] == u);
                    }
                }
            }
        }
        assert(self@.registered =~= old(self)@.registered.insert(unique_id));
    }

    /// Returns how many subscribers there are, over all registered
    /// subscriptions.
    pub fn len(&self) -> (n: usize)
        ensures
            n == self@.entries.len(),
    {
        self.entries.len()
    }

    /// Returns the subscriber at `index`, counted from the oldest, with its
    /// owner.
    pub fn entry(&self, index: usize) -> (r: (RawServerSubscriptionId, usize))
        requires
            index < self@.entries.len(),
        ensures
            r == self@.entries[index as int],
    {
        self.entries[index]
    }

    /// Returns where `id` is listed, or the number of subscribers if it is
    /// not.
    fn position(&self, id: &RawServerSubscriptionId) -> (i: usize)
        ensures
            i <= self.entries@.len(),
            i < self.entries@.len() ==> self.entries@[i as int].0 == *id,
            forall|j: int| 0 <= j < i ==> (#[trigger] self.entries@[j]).0 != *id,
    {
        let mut i: usize = 0;
        while i < self.entries.len()
            invariant
                i <= self.entries@.len(),
                forall|j: int| 0 <= j < i ==> (#[trigger] self.entries@[j]).0 != *id,
            decreases self.entries@.len() - i,
        {
            if self.entries[i].0.same(id) {
                return i;
            }
            i = i + 1;
        }
        i
    }

    /// Returns the registered subscription that owns `id`, if any does.
    pub fn owner(&self, id: &RawServerSubscriptionId) -> (r: Option<usize>)
        requires
            self@.wf(),
        ensures
            r == owner_of(self@.entries, *id),
    {
        let i = self.position(id);
        proof {
            lemma_owner(self@.entries, *id);
        }
        if i < self.entries.len() {
            Some(self.entries[i].1)
        } else {
            None
        }
    }

    /// Returns the subscribers of `unique_id`, oldest first.
    pub fn clients(&self, unique_id: usize) -> (list: Vec<RawServerSubscriptionId>)
        ensures
            list@ == clients_of(self@.entries, unique_id),
    {
        let mut list: Vec<RawServerSubscriptionId> = Vec::new();
        let mut i: usize = 0;
        assert(self.entries@.take(0) =~= Seq::empty());
        while i < self.entries.len()
            invariant
                i <= self.entries@.len(),
                list@ == clients_of(self.entries@.take(i as int), unique_id),
            decreases self.entries@.len() - i,
        {
            assert(self.entries@.take(i + 1).drop_last() =~= self.entries@.take(i as int));
            if self.entries[i].1 == unique_id {
                list.push(self.entries[i].0);
            }
            i = i + 1;
        }
        assert(self.entries@.take(self.entries@.len() as int) =~= self.entries@);
        list
    }

    /// Lists `id` as the newest subscriber of `unique_id`.
    pub fn attach(&mut self, id: RawServerSubscriptionId, unique_id: usize)
        requires
            old(self)@.wf(),
            old(self)@.registered.contains(unique_id),
            owner_of(old(self)@.entries, id) is None,
        ensures
            final(self)@.wf(),
            final(self)@.registered == old(self)@.registered,
            final(self)@.entries == old(self)@.entries.push((id, unique_id)),
    {
        proof {
            lemma_owner(self@.entries, id);
        }
        self.entries.push((id, unique_id));
    }

    /// Takes `id` off the list, if it is listed with `unique_id`. Returns
    /// whether it was.
    pub fn detach_from(&mut self, id: &RawServerSubscriptionId, unique_id: usize) -> (found: bool)
        requires
            old(self)@.wf(),
        ensures
            final(self)@.wf(),
            final(self)@.registered == old(self)@.registered,
            found == (owner_of(old(self)@.entries, *id) == Some(unique_id)),
            found ==> exists|i: int|
                0 <= i < old(self)@.entries.len() && #[trigger] old(self)@.entries[i] == (
                    *id,
                    unique_id,
                ) && final(self)@.entries == old(self)@.entries.remove(i),
            !found ==> final(self)@.entries == old(self)@.entries,
    {
        let ghost before = self@.entries;
        let i = self.position(id);
        proof {
            lemma_owner(before, *id);
        }
        if i < self.entries.len() && self.entries[i].1 == unique_id {
            let _ = self.entries.remove(i);
            proof {
                assert(before[i as int] == (*id, unique_id));
                assert forall|a: int, b: int| 0 <= a < b < self@.entries.len() implies (
                #[trigger] self@.entries[a]).0 != (#[trigger] self@.entries[b]).0 by {
                    let a0 = if a < i { a } else { a + 1 };
                    let b0 = if b < i { b } else { b + 1 };
                    assert(before[a0].0 != before[b0].0);
                }
                assert forall|a: int| 0 <= a < self@.entries.len() implies self@.registered.contains(
                    (#[trigger] self@.entries[a]).1,
                ) by {
                    let a0 = if a < i { a } else { a + 1 };
                    assert(self@.registered.contains(before[a0].1));
                }
            }
            true
        } else {
            false
        }
    }

    /// Takes every subscriber in `closed` off the list.
    pub fn drop_closed(&mut self, closed: &Vec<RawServerSubscriptionId>)
        requires
            old(self)@.wf(),
        ensures
            final(self)@.wf(),
            final(self)@.registered == old(self)@.registered,
            final(self)@.entries == without_ids(old(self)@.entries, closed@),
    {
        let ghost before = self@.entries;
        let mut kept: Vec<(RawServerSubscriptionId, usize)> = Vec::new();
        let mut i: usize = 0;
        assert(before.take(0) =~= Seq::empty());
        while i < self.entries.len()
            invariant
                i <= self.entries@.len(),
                self.entries@ == before,
                kept@ == without_ids(before.take(i as int), closed@),
            decreases self.entries@.len() - i,
        {
            let entry = self.entries[i];
            let mut found = false;
            let mut k: usize = 0;
            while k < closed.len() && !found
                invariant
                    k <= closed@.len(),
                    found ==> closed@.contains(entry.0),
                    !found ==> forall|j: int| 0 <= j < k ==> closed@[j] != entry.0,
                decreases closed@.len() - k + if found { 0int } else { 1int },
            {
                if closed[k].same(&entry.0) {
                    found = true;
                } else {
                    k = k + 1;
                }
            }
            assert(before.take(i + 1).drop_last() =~= before.take(i as int));
            if !found {
                kept.push(entry);
            }
            i = i + 1;
        }
        assert(before.take(before.len() as int) =~= before);
        proof {
            lemma_without_ids(before, closed@);
            assert forall|a: int| 0 <= a < kept@.len() implies self@.registered.contains(
                (#[trigger] kept@[a]).1,
            ) by {
                let j = choose|j: int| 0 <= j < before.len() && before[j] == kept@[a];
                assert(self@.registered.contains(before[j].1));
            }
        }
        self.entries = kept;
    }
}

} // verus!
