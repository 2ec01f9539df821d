//! A named position in an instruction stream, bound in two steps.

use vstd::prelude::*;

verus! {

/// A label under construction: a name, and the instruction-stream position
/// it refers to once that position is known.
pub struct Label {
    name: String,
    ip: Option<usize>,
}

impl Label {
    /// The label's name.
    pub closed spec fn spec_name(&self) -> Seq<char> {
        self.name@
    }

    /// The position the label is bound to, if it is bound.
    pub closed spec fn spec_ip(&self) -> Option<usize> {
        self.ip
    }

    /// Create a new, unbound `Label` with a name.
    pub fn new(name: &str) -> (r: Label)
        ensures
            r.spec_name() == name@,
            r.spec_ip() is None,
    {
        Label { name: String::from_str(name), ip: None }
    }

    /// The name of this label.
    pub fn name<'a>(&'a self) -> (r: &'a str)
        ensures
            r@ == self.spec_name(),
    {
        self.name.as_str()
    }

    /// The instruction pointer of this label.
    pub fn ip(&self) -> (r: Option<usize>)
        ensures
            r == self.spec_ip(),
    {
        self.ip
    }

    /// Bind this label to an instruction pointer.
    pub fn set_ip(&mut self, ip: usize)
        ensures
            final(self).spec_ip() == Some(ip),
            final(self).spec_name() == old(self).spec_name(),
    {
        self.ip = Some(ip)
    }

    /// Has an instruction pointer been bound to this label?
    pub fn has_ip(&self) -> (r: bool)
        ensures
            r <==> self.spec_ip() is Some,
    {
        self.ip.is_some()
    }
}

} // verus!
