//! Tables keyed by the name of a method.

use vstd::prelude::*;

verus! {

/// `==` of `str`.
///
/// Trusted: two string slices are equal exactly where their characters
/// are.
#[verifier::external_body]
pub(crate) fn same_text(a: &str, b: &str) -> (r: bool)
    ensures
        r == (a@ == b@),
{
    a == b
}

/// The map that a list of entries with distinct names stands for.
pub open spec fn entries_map<V>(entries: Seq<(String, V)>) -> Map<Seq<char>, V> {
    Map::new(
        |name: Seq<char>| exists|i: int| 0 <= i < entries.len() && (#[trigger] entries[i]).0@ == name,
        |name: Seq<char>|
            entries[choose|i: int| 0 <= i < entries.len() && (#[trigger] entries[i]).0@ == name].1,
    )
}

/// Whether no two entries have the same name.
pub open spec fn distinct_names<V>(entries: Seq<(String, V)>) -> bool {
    forall|i: int, j: int|
        0 <= i < j < entries.len() ==> (#[trigger] entries[i]).0@ != (#[trigger] entries[j]).0@
}

/// With distinct names, each entry is what the map holds under its name.
pub proof fn lemma_entry<V>(entries: Seq<(String, V)>, i: int)
    requires
        distinct_names(entries),
        0 <= i < entries.len(),
    ensures
        entries_map(entries).dom().contains(entries[i].0@),
        entries_map(entries)[entries[i].0@] == entries[i].1,
{
    let name = entries[i].0@;
    let j = choose|j: int| 0 <= j < entries.len() && (#[trigger] entries[j]).0@ == name;
    if j < i {
        assert(entries[j].0@ != entries[i].0@);
    } else if i < j {
        assert(entries[i].0@ != entries[j].0@);
    }
}

/// A table from method names to values. A name has at most one value.
pub struct NameTable<V> {
    entries: Vec<(String, V)>,
}

impl<V> View for NameTable<V> {
    type V = Map<Seq<char>, V>;

    closed spec fn view(&self) -> Map<Seq<char>, V> {
        entries_map(self.entries@)
    }
}

impl<V> NameTable<V> {
    /// The invariant of the table: no two entries have the same name.
    pub closed spec fn wf(&self) -> bool {
        distinct_names(self.entries@)
    }

    /// Returns a table without entries.
    pub fn new() -> (table: Self)
        ensures
            table.wf(),
            table@ == Map::<Seq<char>, V>::empty(),
    {
        let table = NameTable { entries: Vec::new() };
        assert(table@ =~= Map::<Seq<char>, V>::empty());
        table
    }

    /// Returns where the entry named `name` is, or the number of entries if
    /// there is none.
    fn position(&self, name: &str) -> (i: usize)
        ensures
            i <= self.entries@.len(),
            i < self.entries@.len() ==> self.entries@[i as int].0@ == name@,
            i == self.entries@.len() ==> !self@.dom().contains(name@),
    {
        let mut i: usize = 0;
        while i < self.entries.len()
            invariant
                i <= self.entries@.len(),
                forall|j: int| 0 <= j < i ==> (#[trigger] self.entries@[j]).0@ != name@,
            decreases self.entries@.len() - i,
        {
            if same_text(self.entries[i].0.as_str(), name) {
                return i;
            }
            i = i + 1;
        }
        i
    }

    /// Returns the value under `name`, if there is one.
    pub fn get(&self, name: &str) -> (r: Option<&V>)
        requires
            self.wf(),
        ensures
            match r {
                Some(value) => self@.dom().contains(name@) && *value == self@[name@],
                None => !self@.dom().contains(name@),
            },
    {
        let i = self.position(name);
        if i < self.entries.len() {
            proof {
                lemma_entry(self.entries@, i as int);
            }
            Some(&self.entries[i].1)
        } else {
            None
        }
    }

    /// Returns whether `name` has a value.
    pub fn contains(&self, name: &str) -> (r: bool)
        ensures
            r == self@.dom().contains(name@),
    {
        let i = self.position(name);
        i < self.entries.len()
    }

    /// Puts `value` under `name`, in place of the value that `name` had, if
    /// any. Returns whether `name` is new to the table.
    pub fn insert(&mut self, name: String, value: V) -> (fresh: bool)
        requires
            old(self).wf(),
        ensures
            final(self).wf(),
            final(self)@ == old(self)@.insert(name@, value),
            fresh == !old(self)@.dom().contains(name@),
    {
        let ghost before = self.entries@;
        let i = self.position(name.as_str());
        let fresh = i == self.entries.len();
        if !fresh {
            let _ = self.entries.remove(i);
        }
        let ghost kept = self.entries@;
        assert(distinct_names(kept) && forall|j: int|
            0 <= j < kept.len() ==> (#[trigger] kept[j]).0@ != name@) by {
            if i < before.len() {
                assert forall|j: int| 0 <= j < kept.len() implies (#[trigger] kept[j]).0@
                    != name@ by {
                    if j < i {
                        assert(before[j].0@ != before[i as int].0@);
                    } else {
                        assert(before[i as int].0@ != before[j + 1].0@);
                    }
                }
                assert forall|a: int, b: int| 0 <= a < b < kept.len() implies (
                #[trigger] kept[a]).0@ != (#[trigger] kept[b]).0@ by {
                    let a0 = if a < i { a } else { a + 1 };
                    let b0 = if b < i { b } else { b + 1 };
                    assert(before[a0].0@ != before[b0].0@);
                }
            } else {
                assert forall|j: int| 0 <= j < kept.len() implies (#[trigger] kept[j]).0@
                    != name@ by {
                    if kept[j].0@ == name@ {
                        assert(entries_map(before).dom().contains(name@));
                    }
                }
            }
        }
        self.entries.push((name, value));
        proof {
            let now = self.entries@;
            assert(distinct_names(now));
            assert forall|key: Seq<char>|
                entries_map(now).dom().contains(key) <==> (key == name@ || entries_map(
                    before,
                ).dom().contains(key)) by {
                if entries_map(now).dom().contains(key) {
                    let j = choose|j: int| 0 <= j < now.len() && (#[trigger] now[j]).0@ == key;
                    if j < kept.len() {
                        let j0 = if i < before.len() && j >= i { j + 1 } else { j };
                        assert(before[j0].0@ == key);
                    }
                }
                if key != name@ && entries_map(before).dom().contains(key) {
                    let j = choose|j: int| 0 <= j < before.len() && (#[trigger] before[j]).0@ == key;
                    let j1 = if i < before.len() && j > i { j - 1 } else { j };
                    assert(now[j1].0@ == key);
                }
                if key == name@ {
                    assert(now[now.len() - 1].0@ == key);
                }
            }
            assert forall|key: Seq<char>| entries_map(now).dom().contains(key) implies entries_map(
                now,
            )[key] == old(self)@.insert(name@, value)[key] by {
                if key == name@ {
                    lemma_entry(now, now.len() - 1);
                } else {
                    let j = choose|j: int| 0 <= j < before.len() && (#[trigger] before[j]).0@ == key;
                    let j1 = if i < before.len() && j > i { j - 1 } else { j };
                    lemma_entry(before, j);
                    assert(now[j1] == before[j]);
                    lemma_entry(now, j1);
                }
            }
            assert(self@ =~= old(self)@.insert(name@, value));
        }
        fresh
    }

    /// Takes away the value under `name`. Returns whether there was one.
    pub fn remove(&mut self, name: &str) -> (found: bool)
        requires
            old(self).wf(),
        ensures
            final(self).wf(),
            final(self)@ == old(self)@.remove(name@),
            found == old(self)@.dom().contains(name@),
    {
        let ghost before = self.entries@;
        let i = self.position(name);
        if i < self.entries.len() {
            let _ = self.entries.remove(i);
            proof {
                let now = self.entries@;
                assert forall|a: int, b: int| 0 <= a < b < now.len() implies (#[trigger] now[a]).0@
                    != (#[trigger] now[b]).0@ by {
                    let a0 = if a < i { a } else { a + 1 };
                    let b0 = if b < i { b } else { b + 1 };
                    assert(before[a0].0@ != before[b0].0@);
                }
                assert forall|key: Seq<char>|
                    entries_map(now).dom().contains(key) <==> (key != name@ && entries_map(
                        before,
                    ).dom().contains(key)) by {
                    if entries_map(now).dom().contains(key) {
                        let j = choose|j: int| 0 <= j < now.len() && (#[trigger] now[j]).0@ == key;
                        let j0 = if j < i { j } else { j + 1 };
                        assert(before[j0].0@ == key);
                        if j0 < i {
                            assert(before[j0].0@ != before[i as int].0@);
                        } else {
                            assert(before[i as int].0@ != before[j0].0@);
                        }
                    }
                    if key != name@ && entries_map(before).dom().contains(key) {
                        let j = choose|j: int|
                            0 <= j < before.len() && (#[trigger] before[j]).0@ == key;
                        let j1 = if j > i { j - 1 } else { j };
                        assert(now[j1].0@ == key);
                    }
                }
                assert forall|key: Seq<char>|
                    entries_map(now).dom().contains(key) implies entries_map(now)[key]
                    == entries_map(before)[key] by {
                    let j = choose|j: int| 0 <= j < before.len() && (#[trigger] before[j]).0@ == key;
                    let j1 = if j > i { j - 1 } else { j };
                    lemma_entry(before, j);
                    assert(now[j1] == before[j]);
                    lemma_entry(now, j1);
                }
                assert(self@ =~= old(self)@.remove(name@));
            }
            true
        } else {
            assert(self@ =~= old(self)@.remove(name@));
            false
        }
    }
}

} // verus!
