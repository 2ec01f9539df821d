//! A reference to a label by its index.

use vstd::prelude::*;

verus! {

/// A reference to a label, by the label's index in a label list.
pub struct LabelRef(usize);

impl LabelRef {
    /// The index this reference carries.
    pub closed spec fn spec_idx(&self) -> usize {
        self.0
    }

    /// Create a reference to the label at `idx`.
    pub fn new(idx: usize) -> (r: LabelRef)
        ensures
            r.spec_idx() == idx,
    {
        LabelRef(idx)
    }

    /// The index of the referenced label.
    pub fn idx(&self) -> (r: usize)
        ensures
            r == self.spec_idx(),
    {
        self.0
    }
}

} // verus!
