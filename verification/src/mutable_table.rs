//! A string-keyed table that allows rebinding a key.

use vstd::prelude::*;

use crate::table::assoc_map;
use crate::table::lemma_assoc_map_contains;
use crate::table::lemma_assoc_map_last_match;
use crate::table::Table;

verus! {

/// A table in which a later `insert` under the same key wins.
/// Useful for a language's local variables.
pub struct MutableTable<T> {
    entries: Vec<(String, T)>,
}

impl<T> MutableTable<T> {
    /// Return a new, empty `MutableTable`.
    pub fn new() -> (r: MutableTable<T>)
        ensures
            r.table_view() == Map::<Seq<char>, T>::empty(),
    {
        MutableTable { entries: Vec::new() }
    }
}

impl<T> Table for MutableTable<T> {
    type Item = T;

    closed spec fn table_view(&self) -> Map<Seq<char>, T> {
        assoc_map(self.entries@)
    }

    open spec fn insert_allowed(&self, name: Seq<char>) -> bool {
        true
    }

    fn insert(&mut self, name: &str, value: T) {
        let key = String::from_str(name);
        self.entries.push((key, value));
        proof {
            assert(self.entries@.drop_last() =~= old(self).entries@);
        }
    }

    fn is_empty(&self) -> (r: bool) {
        proof {
            if self.entries@.len() > 0 {
                lemma_assoc_map_last_match(self.entries@, self.entries@.len() - 1);
            }
        }
        self.entries.is_empty()
    }

    fn contains_key(&self, name: &str) -> (r: bool) {
        let key = String::from_str(name);
        let n = self.entries.len();
        let mut i: usize = 0;
        while i < n
            invariant
                n == self.entries@.len(),
                i <= n,
                key@ == name@,
                forall|j: int| 0 <= j < i ==> #[trigger] self.entries@[j].0@ != name@,
            decreases n - i,
        {
            if self.entries[i].0 == key {
                proof {
                    assert(self.entries@[i as int].0@ == name@);
                    lemma_assoc_map_contains(self.entries@, name@);
                }
                return true;
            }
            i = i + 1;
        }
        proof {
            lemma_assoc_map_contains(self.entries@, name@);
        }
        false
    }

    fn get<'a>(&'a self, name: &str) -> (r: Option<&'a T>) {
        let key = String::from_str(name);
        let n = self.entries.len();
        let mut i: usize = n;
        while i > 0
            invariant
                n == self.entries@.len(),
                i <= n,
                key@ == name@,
                forall|j: int| i <= j < n ==> #[trigger] self.entries@[j].0@ != name@,
            decreases i,
        {
            i = i - 1;
            if self.entries[i].0 == key {
                proof {
                    lemma_assoc_map_last_match(self.entries@, i as int);
                }
                return Some(&self.entries[i].1);
            }
        }
        proof {
            lemma_assoc_map_contains(self.entries@, name@);
        }
        None
    }
}

} // verus!
