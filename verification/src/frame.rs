//! A call frame: a return address paired with a scoped set of locals.

use vstd::prelude::*;

use crate::mutable_table::MutableTable;
use crate::table::Table;

verus! {

/// One entry of the call stack.
///
/// A frame is created on every `jump` and destroyed on every `ret`; it pairs
/// the instruction-stream position to resume at with a fresh local scope.
pub struct Frame<T> {
    locals: MutableTable<T>,
    return_address: usize,
}

impl<T> Frame<T> {
    /// The mapping of local names to values held by this frame.
    pub closed spec fn locals_view(&self) -> Map<Seq<char>, T> {
        self.locals.table_view()
    }

    /// The instruction-stream position execution resumes at when this frame
    /// is popped.
    pub closed spec fn spec_return_address(&self) -> usize {
        self.return_address
    }

    /// Read this frame's return address.
    pub fn return_address(&self) -> (r: usize)
        ensures
            r == self.spec_return_address(),
    {
        self.return_address
    }

    /// Create a new frame with the given return address and no locals.
    pub fn new(return_address: usize) -> (r: Frame<T>)
        ensures
            r.spec_return_address() == return_address,
            r.locals_view() == Map::<Seq<char>, T>::empty(),
    {
        Frame { locals: MutableTable::new(), return_address }
    }

    /// Borrow this frame's table of locals.
    pub fn locals(&self) -> (r: &MutableTable<T>)
        ensures
            r.table_view() == self.locals_view(),
    {
        &self.locals
    }

    /// Look up a local in this frame.
    pub fn get_local<'a>(&'a self, name: &str) -> (r: Option<&'a T>)
        ensures
            match r {
                Some(v) => self.locals_view().dom().contains(name@)
                    && *v == self.locals_view()[name@],
                None => !self.locals_view().dom().contains(name@),
            },
    {
        self.locals.get(name)
    }

    /// Bind a local in this frame, replacing any earlier binding.
    pub fn set_local(&mut self, name: &str, value: T)
        ensures
            final(self).locals_view() == old(self).locals_view().insert(name@, value),
            final(self).spec_return_address() == old(self).spec_return_address(),
    {
        self.locals.insert(name, value);
    }
}

} // verus!
