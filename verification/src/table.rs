//! A trait for the string-keyed tables used for labels, locals and constants.

use vstd::prelude::*;

verus! {

/// The mathematical content of an association list: later entries win.
pub open spec fn assoc_map<T>(l: Seq<(String, T)>) -> Map<Seq<char>, T>
    decreases l.len(),
{
    if l.len() == 0 {
        Map::empty()
    } else {
        assoc_map(l.drop_last()).insert(l.last().0@, l.last().1)
    }
}

/// A key is in the map exactly when some entry carries it.
pub proof fn lemma_assoc_map_contains<T>(l: Seq<(String, T)>, key: Seq<char>)
    ensures
        assoc_map(l).dom().contains(key) <==> exists|i: int|
            0 <= i < l.len() && #[trigger] l[i].0@ == key,
    decreases l.len(),
{
    if l.len() > 0 {
        lemma_assoc_map_contains(l.drop_last(), key);
        if l.last().0@ == key {
            assert(l[l.len() - 1].0@ == key);
        } else {
            if exists|i: int| 0 <= i < l.len() && #[trigger] l[i].0@ == key {
                let i = choose|i: int| 0 <= i < l.len() && #[trigger] l[i].0@ == key;
                assert(i < l.len() - 1);
                assert(l.drop_last()[i].0@ == key);
            }
        }
    }
}

/// The value under a key is the one of the last entry that carries the key.
pub proof fn lemma_assoc_map_last_match<T>(l: Seq<(String, T)>, i: int)
    requires
        0 <= i < l.len(),
        forall|j: int| i < j < l.len() ==> #[trigger] l[j].0@ != l[i].0@,
    ensures
        assoc_map(l).dom().contains(l[i].0@),
        assoc_map(l)[l[i].0@] == l[i].1,
    decreases l.len(),
{
    if i == l.len() - 1 {
    } else {
        assert(l.drop_last()[i] == l[i]);
        lemma_assoc_map_last_match(l.drop_last(), i);
        assert(l.last().0@ != l[i].0@);
    }
}

/// A string-keyed table.
///
/// `table_view` is the mapping a table stands for; `insert_allowed` says on
/// which keys `insert` may be called (a table variant may forbid overwriting).
pub trait Table: Sized {
    type Item;

    spec fn table_view(&self) -> Map<Seq<char>, Self::Item>;

    spec fn insert_allowed(&self, name: Seq<char>) -> bool;

    /// Bind `name` to `value`.
    fn insert(&mut self, name: &str, value: Self::Item)
        requires
            old(self).insert_allowed(name@),
        ensures
            final(self).table_view() == old(self).table_view().insert(name@, value),
    ;

    /// True exactly when the table holds no bindings.
    fn is_empty(&self) -> (r: bool)
        ensures
            r <==> self.table_view().dom() =~= Set::<Seq<char>>::empty(),
    ;

    /// True exactly when `name` is bound.
    fn contains_key(&self, name: &str) -> (r: bool)
        ensures
            r <==> self.table_view().dom().contains(name@),
    ;

    /// Borrow the value bound to `name`, if any.
    fn get<'a>(&'a self, name: &str) -> (r: Option<&'a Self::Item>)
        ensures
            match r {
                Some(v) => self.table_view().dom().contains(name@) && *v
                    == self.table_view()[name@],
                None => !self.table_view().dom().contains(name@),
            },
    ;
}

} // verus!
