//! An ordered name/value table with overwrite semantics, used for request
//! headers, query parameters and response headers.
//!
//! Names are case-sensitive. Setting a name that is already present replaces
//! its value in place; a new name goes to the end. No name occurs twice.

use vstd::prelude::*;
use crate::text::str_eq;

verus! {

/// The mathematical content of a table: its entries in order.
pub type Entries = Seq<(Seq<char>, Seq<char>)>;

/// Index of the first entry named `name` at or after `from`, or the length
/// when there is none.
pub open spec fn spec_position(entries: Entries, name: Seq<char>, from: int) -> int
    decreases entries.len() - from,
{
    if from < 0 || from >= entries.len() {
        entries.len() as int
    } else if entries[from].0 == name {
        from
    } else {
        spec_position(entries, name, from + 1)
    }
}

/// The value stored under `name`, if any.
pub open spec fn spec_lookup(entries: Entries, name: Seq<char>) -> Option<Seq<char>> {
    let i = spec_position(entries, name, 0);
    if 0 <= i < entries.len() {
        Some(entries[i].1)
    } else {
        None
    }
}

/// The table after `name` has been set to `value`.
pub open spec fn spec_assign(entries: Entries, name: Seq<char>, value: Seq<char>) -> Entries {
    let i = spec_position(entries, name, 0);
    if 0 <= i < entries.len() {
        entries.update(i, (name, value))
    } else {
        entries.push((name, value))
    }
}

/// No name occurs twice.
pub open spec fn spec_distinct(entries: Entries) -> bool {
    forall|i: int, j: int|
        0 <= i < j < entries.len() ==> (#[trigger] entries[i]).0 != (#[trigger] entries[j]).0
}

/// `spec_position` returns the least index in range that carries the name.
pub proof fn lemma_position(entries: Entries, name: Seq<char>, from: int)
    requires
        0 <= from <= entries.len(),
    ensures
        from <= spec_position(entries, name, from) <= entries.len(),
        spec_position(entries, name, from) < entries.len() ==> entries[spec_position(
            entries,
            name,
            from,
        )].0 == name,
        forall|j: int|
            from <= j < spec_position(entries, name, from) ==> (#[trigger] entries[j]).0 != name,
    decreases entries.len() - from,
{
    if from < entries.len() && entries[from].0 != name {
        lemma_position(entries, name, from + 1);
    }
}

/// An index that carries the name, with none before it, is the position.
pub proof fn lemma_position_unique(entries: Entries, name: Seq<char>, from: int, i: int)
    requires
        0 <= from <= i <= entries.len(),
        i < entries.len() ==> entries[i].0 == name,
        forall|j: int| from <= j < i ==> (#[trigger] entries[j]).0 != name,
    ensures
        spec_position(entries, name, from) == i,
    decreases i - from,
{
    if from < i {
        lemma_position_unique(entries, name, from + 1, i);
    }
}

/// Setting a name makes it readable with the new value, leaves every other
/// name as it was, and keeps names distinct.
pub proof fn lemma_assign(entries: Entries, name: Seq<char>, value: Seq<char>)
    ensures
        spec_distinct(entries) ==> spec_distinct(spec_assign(entries, name, value)),
        spec_lookup(spec_assign(entries, name, value), name) == Some(value),
        forall|other: Seq<char>|
            other != name ==> spec_lookup(spec_assign(entries, name, value), other) == spec_lookup(
                entries,
                other,
            ),
{
    let after = spec_assign(entries, name, value);
    let i = spec_position(entries, name, 0);
    lemma_position(entries, name, 0);
    assert forall|j: int| 0 <= j < i implies (#[trigger] after[j]).0 != name by {
        assert(after[j] == entries[j]);
    }
    lemma_position_unique(after, name, 0, i);
    assert forall|other: Seq<char>| other != name implies spec_lookup(after, other)
        == spec_lookup(entries, other) by {
        let k = spec_position(entries, other, 0);
        lemma_position(entries, other, 0);
        assert forall|j: int| 0 <= j < k implies (#[trigger] after[j]).0 != other by {
            if j < entries.len() {
                if j != i {
                    assert(after[j] == entries[j]);
                }
            }
        }
        if k < entries.len() {
            assert(k != i);
            assert(after[k] == entries[k]);
            lemma_position_unique(after, other, 0, k);
        } else {
            lemma_position_unique(after, other, 0, after.len() as int);
        }
    }
    assert forall|a: int, b: int|
        spec_distinct(entries) && 0 <= a < b < after.len() implies (#[trigger] after[a]).0 != (
    #[trigger] after[b]).0 by {
        if i < entries.len() {
            if a != i && b != i {
                assert(after[a] == entries[a] && after[b] == entries[b]);
            } else if a == i {
                assert(after[b] == entries[b]);
                assert(entries[a].0 == name);
            } else {
                assert(after[a] == entries[a]);
                assert(entries[b].0 == name);
            }
        } else {
            assert(after[a] == entries[a]);
            if b < entries.len() {
                assert(after[b] == entries[b]);
            }
        }
    }
}

/// The table.
#[derive(Clone, Debug)]
pub struct FieldMap {
    entries: Vec<(String, String)>,
}

impl View for FieldMap {
    type V = Entries;

    closed spec fn view(&self) -> Entries {
        Seq::new(self.entries@.len(), |i: int| (self.entries@[i].0@, self.entries@[i].1@))
    }
}

impl FieldMap {
    /// The table's invariant: no name occurs twice.
    pub open spec fn wf(&self) -> bool {
        spec_distinct(self@)
    }

    pub fn new() -> (m: FieldMap)
        ensures
            m@ == Seq::<(Seq<char>, Seq<char>)>::empty(),
            m.wf(),
    {
        let m = FieldMap { entries: Vec::new() };
        assert(m@ =~= Seq::<(Seq<char>, Seq<char>)>::empty());
        m
    }

    pub fn len(&self) -> (n: usize)
        ensures
            n == self@.len(),
    {
        self.entries.len()
    }

    fn position(&self, name: &str) -> (i: usize)
        ensures
            i == spec_position(self@, name@, 0),
            i <= self@.len(),
    {
        let mut i: usize = 0;
        while i < self.entries.len()
            invariant
                i <= self.entries@.len(),
                self@.len() == self.entries@.len(),
                forall|j: int| 0 <= j < i ==> (#[trigger] self@[j]).0 != name@,
            decreases self.entries@.len() - i,
        {
            if str_eq(self.entries[i].0.as_str(), name) {
                proof {
                    lemma_position_unique(self@, name@, 0, i as int);
                }
                return i;
            }
            i += 1;
        }
        proof {
            lemma_position_unique(self@, name@, 0, i as int);
        }
        i
    }

    /// Sets `name` to `value`, replacing an earlier value of the same name.
    pub fn set(&mut self, name: &str, value: &str)
        ensures
            final(self)@ == spec_assign(old(self)@, name@, value@),
            old(self).wf() ==> final(self).wf(),
            spec_lookup(final(self)@, name@) == Some(value@),
    {
        let i = self.position(name);
        let entry = (name.to_owned(), value.to_owned());
        proof {
            lemma_assign(self@, name@, value@);
        }
        if i < self.entries.len() {
            self.entries.set(i, entry);
        } else {
            self.entries.push(entry);
        }
        assert(self@ =~= spec_assign(old(self)@, name@, value@));
    }

    /// The value stored under `name`.
    pub fn get(&self, name: &str) -> (r: Option<&str>)
        ensures
            r is Some <==> spec_lookup(self@, name@) is Some,
            r matches Some(v) ==> Some(v@) == spec_lookup(self@, name@),
    {
        let i = self.position(name);
        if i < self.entries.len() {
            Some(self.entries[i].1.as_str())
        } else {
            None
        }
    }

    /// The name of the entry at `i`, in insertion order.
    pub fn name_at(&self, i: usize) -> (r: &str)
        requires
            i < self@.len(),
        ensures
            r@ == self@[i as int].0,
    {
        self.entries[i].0.as_str()
    }

    /// The value of the entry at `i`, in insertion order.
    pub fn value_at(&self, i: usize) -> (r: &str)
        requires
            i < self@.len(),
        ensures
            r@ == self@[i as int].1,
    {
        self.entries[i].1.as_str()
    }

    /// Removes every entry.
    pub fn clear(&mut self)
        ensures
            final(self)@ == Seq::<(Seq<char>, Seq<char>)>::empty(),
            final(self).wf(),
    {
        self.entries.clear();
        assert(self@ =~= Seq::<(Seq<char>, Seq<char>)>::empty());
    }
}

} // verus!
