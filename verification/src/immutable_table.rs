//! A string-keyed table that does not allow a key to be rebound.

use vstd::prelude::*;

use crate::table::assoc_map;
use crate::table::lemma_assoc_map_contains;
use crate::table::lemma_assoc_map_last_match;
use crate::table::Table;

verus! {

/// A table which refuses to overwrite an existing binding.
/// Useful for a language's constants, and for the assembler's labels.
///
/// The refusal is `insert`'s precondition — the verified form of a
/// run-time overwrite guard. A caller outside verification that rebinds a
/// name anyway does not fail at once; the table then answers lookups with
/// the latest binding.
pub struct ImmutableTable<T> {
    entries: Vec<(String, T)>,
}

impl<T> ImmutableTable<T> {
    /// Return a new, empty `ImmutableTable`.
    pub fn new() -> (r: ImmutableTable<T>)
        ensures
            r.table_view() == Map::<Seq<char>, T>::empty(),
            r.entries_view() == Seq::<(String, T)>::empty(),
    {
        ImmutableTable { entries: Vec::new() }
    }

    /// The bindings in the order they were made.
    pub closed spec fn entries_view(&self) -> Seq<(String, T)> {
        self.entries@
    }

    /// How many bindings the table holds.
    pub(crate) fn entry_len(&self) -> (r: usize)
        ensures
            r == self.entries_view().len(),
    {
        self.entries.len()
    }

    /// Borrow one binding by its place in binding order.
    pub(crate) fn entry_at<'x>(&'x self, i: usize) -> (r: &'x (String, T))
        requires
            i < self.entries_view().len(),
        ensures
            *r == self.entries_view()[i as int],
    {
        &self.entries[i]
    }

    /// Take the table apart into its entries, in binding order.
    pub(crate) fn into_entries(self) -> (r: Vec<(String, T)>)
        ensures
            r@ == self.entries_view(),
    {
        self.entries
    }

    /// The names bound in this table, in the order they were bound.
    pub fn keys(&self) -> (r: Vec<String>)
        ensures
            r@.len() == self.entries_view().len(),
            forall|i: int| 0 <= i < r@.len() ==> #[trigger] r@[i] == self.entries_view()[i].0,
    {
        let mut result: Vec<String> = Vec::new();
        let n = self.entries.len();
        let mut i: usize = 0;
        while i < n
            invariant
                n == self.entries@.len(),
                i <= n,
                result@.len() == i,
                forall|j: int| 0 <= j < i ==> #[trigger] result@[j] == self.entries@[j].0,
            decreases n - i,
        {
            result.push(self.entries[i].0.clone());
            i = i + 1;
        }
        result
    }
}

impl<T> Table for ImmutableTable<T> {
    type Item = T;

    closed spec fn table_view(&self) -> Map<Seq<char>, T> {
        assoc_map(self.entries@)
    }

    open spec fn insert_allowed(&self, name: Seq<char>) -> bool {
        !self.table_view().dom().contains(name)
    }

    fn insert(&mut self, name: &str, value: T)
        ensures
            final(self).entries_view().len() == old(self).entries_view().len() + 1,
            final(self).entries_view().drop_last() == old(self).entries_view(),
            final(self).entries_view().last().0@ == name@,
            final(self).entries_view().last().1 == value,
    {
        let key = String::from_str(name);
        self.entries.push((key, value));
        proof {
            assert(self.entries@.drop_last() =~= old(self).entries@);
        }
    }

    fn is_empty(&self) -> (r: bool) {
        proof {
            if self.entries@.len() > 0 {
                lemma_assoc_map_last_match(self.entries@, self.entries@.len() - 1);
            }
        }
        self.entries.is_empty()
    }

    fn contains_key(&self, name: &str) -> (r: bool) {
        let key = String::from_str(name);
        let n = self.entries.len();
        let mut i: usize = 0;
        while i < n
            invariant
                n == self.entries@.len(),
                i <= n,
                key@ == name@,
                forall|j: int| 0 <= j < i ==> #[trigger] self.entries@[j].0@ != name@,
            decreases n - i,
        {
            if self.entries[i].0 == key {
                proof {
                    assert(self.entries@[i as int].0@ == name@);
                    lemma_assoc_map_contains(self.entries@, name@);
                }
                return true;
            }
            i = i + 1;
        }
        proof {
            lemma_assoc_map_contains(self.entries@, name@);
        }
        false
    }

    fn get<'a>(&'a self, name: &str) -> (r: Option<&'a T>) {
        let key = String::from_str(name);
        let n = self.entries.len();
        let mut i: usize = n;
        while i > 0
            invariant
                n == self.entries@.len(),
                i <= n,
                key@ == name@,
                forall|j: int| i <= j < n ==> #[trigger] self.entries@[j].0@ != name@,
            decreases i,
        {
            i = i - 1;
            if self.entries[i].0 == key {
                proof {
                    lemma_assoc_map_last_match(self.entries@, i as int);
                }
                return Some(&self.entries[i].1);
            }
        }
        proof {
            lemma_assoc_map_contains(self.entries@, name@);
        }
        None
    }
}

} // verus!
