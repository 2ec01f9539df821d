//! The instruction registry: op code to instruction, with mnemonic lookup.

use vstd::prelude::*;

use crate::instruction::Instruction;

verus! {

/// The instruction registered under `op` — the first entry that carries it.
pub open spec fn spec_by_op_code<H>(s: Seq<Instruction<H>>, op: usize) -> Option<
    Instruction<H>,
>
    decreases s.len(),
{
    if s.len() == 0 {
        None
    } else if s[0].op_code == op {
        Some(s[0])
    } else {
        spec_by_op_code(s.skip(1), op)
    }
}

/// The instruction registered under the mnemonic `name` — the first entry
/// that carries it.
pub open spec fn spec_by_name<H>(s: Seq<Instruction<H>>, name: Seq<char>) -> Option<
    Instruction<H>,
>
    decreases s.len(),
{
    if s.len() == 0 {
        None
    } else if s[0].name@ == name {
        Some(s[0])
    } else {
        spec_by_name(s.skip(1), name)
    }
}

/// `s` with the first entry registered under `op` removed, if one is.
pub open spec fn spec_remove_op_code<H>(s: Seq<Instruction<H>>, op: usize) -> Seq<
    Instruction<H>,
>
    decreases s.len(),
{
    if s.len() == 0 {
        s
    } else if s[0].op_code == op {
        s.skip(1)
    } else {
        seq![s[0]] + spec_remove_op_code(s.skip(1), op)
    }
}

/// At most one entry per op code.
pub open spec fn ops_unique<H>(s: Seq<Instruction<H>>) -> bool {
    forall|i: int, j: int|
        0 <= i < j < s.len() ==> (#[trigger] s[i]).op_code != (#[trigger] s[j]).op_code
}

/// Removing the entry under `op` from a duplicate-free list leaves a
/// duplicate-free list with no entry under `op`, made of entries of the
/// original.
proof fn lemma_remove_op_code_unique<H>(s: Seq<Instruction<H>>, op: usize)
    requires
        ops_unique(s),
    ensures
        ops_unique(spec_remove_op_code(s, op)),
        forall|k: int|
            0 <= k < spec_remove_op_code(s, op).len() ==> (#[trigger] spec_remove_op_code(
                s,
                op,
            )[k]).op_code != op,
        forall|k: int|
            0 <= k < spec_remove_op_code(s, op).len() ==> exists|j: int|
                0 <= j < s.len() && #[trigger] spec_remove_op_code(s, op)[k] == s[j],
    decreases s.len(),
{
    let r = spec_remove_op_code(s, op);
    if s.len() == 0 {
    } else if s[0].op_code == op {
        assert(r == s.skip(1));
        assert forall|k: int| 0 <= k < r.len() implies (#[trigger] r[k]).op_code != op by {
            assert(r[k] == s[k + 1]);
        }
        assert forall|k: int| 0 <= k < r.len() implies exists|j: int|
            0 <= j < s.len() && #[trigger] r[k] == s[j] by {
            assert(r[k] == s[k + 1]);
        }
    } else {
        assert forall|i: int, j: int|
            0 <= i < j < s.skip(1).len() implies (#[trigger] s.skip(1)[i]).op_code
            != (#[trigger] s.skip(1)[j]).op_code by {
            assert(s.skip(1)[i] == s[i + 1]);
            assert(s.skip(1)[j] == s[j + 1]);
        }
        lemma_remove_op_code_unique(s.skip(1), op);
        let r2 = spec_remove_op_code(s.skip(1), op);
        assert(r == seq![s[0]] + r2);
        assert forall|k: int| 0 <= k < r.len() implies exists|j: int|
            0 <= j < s.len() && #[trigger] r[k] == s[j] by {
            if k == 0 {
                assert(r[0] == s[0]);
            } else {
                assert(r[k] == r2[k - 1]);
                let j2 = choose|j2: int| 0 <= j2 < s.skip(1).len() && r2[k - 1] == s.skip(1)[j2];
                assert(s.skip(1)[j2] == s[j2 + 1]);
            }
        }
        assert forall|k: int| 0 <= k < r.len() implies (#[trigger] r[k]).op_code != op by {
            if k == 0 {
                assert(r[0] == s[0]);
            } else {
                assert(r[k] == r2[k - 1]);
            }
        }
        assert forall|i: int, j: int| 0 <= i < j < r.len() implies (#[trigger] r[i]).op_code
            != (#[trigger] r[j]).op_code by {
            if i == 0 {
                assert(r[0] == s[0]);
                assert(r[j] == r2[j - 1]);
                let j2 = choose|j2: int| 0 <= j2 < s.skip(1).len() && r2[j - 1] == s.skip(1)[j2];
                assert(s.skip(1)[j2] == s[j2 + 1]);
                assert(s[0].op_code != s[j2 + 1].op_code);
            } else {
                assert(r[i] == r2[i - 1]);
                assert(r[j] == r2[j - 1]);
            }
        }
    }
}

/// Appending an entry under `op` to a list free of `op` makes the lookup
/// of `op` find exactly that entry.
proof fn lemma_by_op_code_push_found<H>(s: Seq<Instruction<H>>, instr: Instruction<H>)
    requires
        forall|k: int| 0 <= k < s.len() ==> (#[trigger] s[k]).op_code != instr.op_code,
    ensures
        spec_by_op_code(s.push(instr), instr.op_code) == Some(instr),
    decreases s.len(),
{
    if s.len() == 0 {
        assert(s.push(instr)[0] == instr);
    } else {
        assert(s.push(instr)[0] == s[0]);
        assert(s.push(instr).skip(1) =~= s.skip(1).push(instr));
        assert forall|k: int| 0 <= k < s.skip(1).len() implies (#[trigger] s.skip(1)[k]).op_code
            != instr.op_code by {
            assert(s.skip(1)[k] == s[k + 1]);
        }
        lemma_by_op_code_push_found(s.skip(1), instr);
    }
}

/// Appending an entry under another op code leaves a lookup unchanged.
proof fn lemma_by_op_code_push_other<H>(s: Seq<Instruction<H>>, instr: Instruction<H>, op: usize)
    requires
        instr.op_code != op,
    ensures
        spec_by_op_code(s.push(instr), op) == spec_by_op_code(s, op),
    decreases s.len(),
{
    if s.len() == 0 {
        assert(s.push(instr)[0] == instr);
        assert(s.push(instr).skip(1) =~= s);
    } else {
        assert(s.push(instr)[0] == s[0]);
        assert(s.push(instr).skip(1) =~= s.skip(1).push(instr));
        lemma_by_op_code_push_other(s.skip(1), instr, op);
    }
}

/// Removing the entry under one op code leaves the lookup of every other
/// op code unchanged.
proof fn lemma_remove_op_code_other<H>(s: Seq<Instruction<H>>, removed: usize, op: usize)
    requires
        removed != op,
    ensures
        spec_by_op_code(spec_remove_op_code(s, removed), op) == spec_by_op_code(s, op),
    decreases s.len(),
{
    if s.len() == 0 {
    } else if s[0].op_code == removed {
        assert(spec_remove_op_code(s, removed) == s.skip(1));
    } else {
        lemma_remove_op_code_other(s.skip(1), removed, op);
        let r2 = spec_remove_op_code(s.skip(1), removed);
        assert((seq![s[0]] + r2)[0] == s[0]);
        assert((seq![s[0]] + r2).skip(1) =~= r2);
    }
}

proof fn lemma_by_op_code_prefix<H>(s: Seq<Instruction<H>>, op: usize, i: int)
    requires
        0 <= i <= s.len(),
        forall|j: int| 0 <= j < i ==> (#[trigger] s[j]).op_code != op,
    ensures
        spec_by_op_code(s, op) == spec_by_op_code(s.skip(i), op),
    decreases i,
{
    if i > 0 {
        assert(s[0].op_code != op);
        assert forall|j: int| 0 <= j < i - 1 implies (#[trigger] s.skip(1)[j]).op_code != op by {
            assert(s.skip(1)[j] == s[j + 1]);
        }
        lemma_by_op_code_prefix(s.skip(1), op, i - 1);
        assert(s.skip(1).skip(i - 1) =~= s.skip(i));
    } else {
        assert(s.skip(0) =~= s);
    }
}

proof fn lemma_by_name_prefix<H>(s: Seq<Instruction<H>>, name: Seq<char>, i: int)
    requires
        0 <= i <= s.len(),
        forall|j: int| 0 <= j < i ==> (#[trigger] s[j]).name@ != name,
    ensures
        spec_by_name(s, name) == spec_by_name(s.skip(i), name),
    decreases i,
{
    if i > 0 {
        assert(s[0].name@ != name);
        assert forall|j: int| 0 <= j < i - 1 implies (#[trigger] s.skip(1)[j]).name@ != name by {
            assert(s.skip(1)[j] == s[j + 1]);
        }
        lemma_by_name_prefix(s.skip(1), name, i - 1);
        assert(s.skip(1).skip(i - 1) =~= s.skip(i));
    } else {
        assert(s.skip(0) =~= s);
    }
}

proof fn lemma_remove_op_code_at<H>(s: Seq<Instruction<H>>, op: usize, i: int)
    requires
        0 <= i < s.len(),
        forall|j: int| 0 <= j < i ==> (#[trigger] s[j]).op_code != op,
        s[i].op_code == op,
    ensures
        spec_remove_op_code(s, op) == s.subrange(0, i) + s.skip(i + 1),
    decreases i,
{
    if i == 0 {
        assert(spec_remove_op_code(s, op) == s.skip(1));
        assert(s.subrange(0, 0) + s.skip(1) =~= s.skip(1));
    } else {
        lemma_remove_op_code_at(s.skip(1), op, i - 1);
        assert(s.skip(1).subrange(0, i - 1) =~= s.subrange(1, i));
        assert(s.skip(1).skip(i) =~= s.skip(i + 1));
        assert(seq![s[0]] + (s.subrange(1, i) + s.skip(i + 1)) =~= s.subrange(0, i) + s.skip(
            i + 1,
        ));
    }
}

proof fn lemma_remove_op_code_absent<H>(s: Seq<Instruction<H>>, op: usize)
    requires
        forall|j: int| 0 <= j < s.len() ==> (#[trigger] s[j]).op_code != op,
    ensures
        spec_remove_op_code(s, op) == s,
    decreases s.len(),
{
    if s.len() > 0 {
        lemma_remove_op_code_absent(s.skip(1), op);
        assert(seq![s[0]] + s.skip(1) =~= s);
    }
}

/// The instruction registry.
///
/// Holds the instructions of a machine's instruction set; at most one
/// instruction per op code (a repeated `insert` replaces the earlier entry).
pub struct InstructionTable<H> {
    entries: Vec<Instruction<H>>,
}

impl<H> View for InstructionTable<H> {
    type V = Seq<Instruction<H>>;

    closed spec fn view(&self) -> Seq<Instruction<H>> {
        self.entries@
    }
}

impl<H> InstructionTable<H> {
    /// The table holds at most one instruction per op code. Every table
    /// reachable through this interface satisfies it: `new` establishes it
    /// and `insert` keeps it.
    pub open spec fn wf(&self) -> bool {
        ops_unique(self@)
    }

    /// Create a new, empty instruction table.
    pub fn new() -> (r: InstructionTable<H>)
        ensures
            r@ == Seq::<Instruction<H>>::empty(),
            r.wf(),
    {
        InstructionTable { entries: Vec::new() }
    }

    /// Retrieve an instruction by its op code.
    pub fn by_op_code<'a>(&'a self, op_code: usize) -> (r: Option<&'a Instruction<H>>)
        ensures
            match r {
                Some(i) => spec_by_op_code(self@, op_code) == Some(*i),
                None => spec_by_op_code(self@, op_code) is None,
            },
    {
        let n = self.entries.len();
        let mut i: usize = 0;
        while i < n
            invariant
                n == self.entries@.len(),
                i <= n,
                forall|j: int| 0 <= j < i ==> (#[trigger] self.entries@[j]).op_code != op_code,
            decreases n - i,
        {
            if self.entries[i].op_code == op_code {
                proof {
                    lemma_by_op_code_prefix(self.entries@, op_code, i as int);
                }
                return Some(&self.entries[i]);
            }
            i = i + 1;
        }
        proof {
            lemma_by_op_code_prefix(self.entries@, op_code, n as int);
        }
        None
    }

    /// Retrieve an instruction by its mnemonic.
    pub fn by_name<'a>(&'a self, name: &str) -> (r: Option<&'a Instruction<H>>)
        ensures
            match r {
                Some(i) => spec_by_name(self@, name@) == Some(*i),
                None => spec_by_name(self@, name@) is None,
            },
    {
        let key = String::from_str(name);
        let n = self.entries.len();
        let mut i: usize = 0;
        while i < n
            invariant
                n == self.entries@.len(),
                i <= n,
                key@ == name@,
                forall|j: int| 0 <= j < i ==> (#[trigger] self.entries@[j]).name@ != name@,
            decreases n - i,
        {
            if self.entries[i].name == key {
                proof {
                    lemma_by_name_prefix(self.entries@, name@, i as int);
                }
                return Some(&self.entries[i]);
            }
            i = i + 1;
        }
        proof {
            lemma_by_name_prefix(self.entries@, name@, n as int);
        }
        None
    }

    /// Register an instruction, replacing any earlier one with its op code.
    pub fn insert(&mut self, instr: Instruction<H>)
        ensures
            final(self)@ == spec_remove_op_code(old(self)@, instr.op_code).push(instr),
            old(self).wf() ==> final(self).wf(),
            old(self).wf() ==> spec_by_op_code(final(self)@, instr.op_code) == Some(instr),
            forall|op: usize|
                op != instr.op_code ==> #[trigger] spec_by_op_code(final(self)@, op)
                    == spec_by_op_code(old(self)@, op),
    {
        let op_code = instr.op_code;
        let n = self.entries.len();
        let mut i: usize = 0;
        let mut found = false;
        while i < n
            invariant
                n == self.entries@.len(),
                i <= n,
                !found ==> forall|j: int|
                    0 <= j < i ==> (#[trigger] self.entries@[j]).op_code != op_code,
                found ==> i < n && self.entries@[i as int].op_code == op_code && forall|j: int|
                    0 <= j < i ==> (#[trigger] self.entries@[j]).op_code != op_code,
            ensures
                found || i == n,
            decreases n - i,
        {
            if self.entries[i].op_code == op_code {
                found = true;
                break;
            }
            i = i + 1;
        }
        if found {
            proof {
                lemma_remove_op_code_at(self.entries@, op_code, i as int);
            }
            self.entries.remove(i);
        } else {
            proof {
                lemma_remove_op_code_absent(self.entries@, op_code);
            }
        }
        self.entries.push(instr);
        proof {
            assert(final(self)@ =~= spec_remove_op_code(old(self)@, instr.op_code).push(instr));
            let removed = spec_remove_op_code(old(self)@, instr.op_code);
            if old(self).wf() {
                lemma_remove_op_code_unique(old(self)@, instr.op_code);
                lemma_by_op_code_push_found(removed, instr);
                let fv = final(self)@;
                assert forall|a: int, b: int|
                    0 <= a < b < fv.len() implies (#[trigger] fv[a]).op_code
                    != (#[trigger] fv[b]).op_code by {
                    if b < removed.len() {
                    } else {
                        assert(fv[b] == instr);
                        assert(fv[a] == removed[a]);
                    }
                }
            }
            assert forall|op: usize| op != instr.op_code implies #[trigger] spec_by_op_code(
                final(self)@,
                op,
            ) == spec_by_op_code(old(self)@, op) by {
                lemma_by_op_code_push_other(removed, instr, op);
                lemma_remove_op_code_other(old(self)@, instr.op_code, op);
            }
        }
    }

    /// Returns `true` if the instruction table is empty.
    pub fn is_empty(&self) -> (r: bool)
        ensures
            r <==> self@.len() == 0,
    {
        self.entries.is_empty()
    }

    /// The op code and mnemonic of every registered instruction, in
    /// registration order.
    pub fn symbols(&self) -> (r: Vec<(usize, String)>)
        ensures
            r@.len() == self@.len(),
            forall|i: int| 0 <= i < r@.len() ==> #[trigger] r@[i] == (
                self@[i].op_code,
                self@[i].name,
            ),
    {
        let mut result: Vec<(usize, String)> = Vec::new();
        let n = self.entries.len();
        let mut i: usize = 0;
        while i < n
            invariant
                n == self.entries@.len(),
                i <= n,
                result@.len() == i,
                forall|j: int| 0 <= j < i ==> #[trigger] result@[j] == (
                    self.entries@[j].op_code,
                    self.entries@[j].name,
                ),
            decreases n - i,
        {
            result.push((self.entries[i].op_code, self.entries[i].name.clone()));
            i = i + 1;
        }
        result
    }
}

} // verus!
