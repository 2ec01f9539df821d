//! The execution engine.
//!
//! A `Machine` owns a compiled `Code`, a call stack of `Frame`s, a single
//! shared operand stack and an instruction pointer, and borrows the
//! instruction registry and an external constants table. `run` drives the
//! fetch-decode-execute loop until the instruction pointer reaches the end
//! of the stream.

use vstd::prelude::*;

use crate::code::spec_get_label_ip;
use crate::code::Code;
use crate::errors::MachineError;
use crate::frame::Frame;
use crate::instruction::Instruction;
use crate::instruction::InstructionHandler;
use crate::instruction_table::spec_by_op_code;
use crate::instruction_table::InstructionTable;
use crate::stack::Stack;

verus! {

/// The innermost-first search of the call stack for a local binding, as
/// lexical scoping across calls sees it.
pub open spec fn spec_deep_lookup<T>(frames: Seq<Frame<T>>, name: Seq<char>) -> Option<T>
    decreases frames.len(),
{
    if frames.len() == 0 {
        None
    } else if frames.last().locals_view().dom().contains(name) {
        Some(frames.last().locals_view()[name])
    } else {
        spec_deep_lookup(frames.drop_last(), name)
    }
}

proof fn lemma_deep_lookup_prefix<T>(frames: Seq<Frame<T>>, name: Seq<char>, i: int)
    requires
        0 <= i <= frames.len(),
        forall|j: int| i <= j < frames.len() ==> !(#[trigger] frames[j]).locals_view().dom()
            .contains(name),
    ensures
        spec_deep_lookup(frames, name) == spec_deep_lookup(frames.take(i), name),
    decreases frames.len() - i,
{
    if i < frames.len() {
        assert(!frames.last().locals_view().dom().contains(name));
        lemma_deep_lookup_prefix(frames.drop_last(), name, i);
        assert(frames.drop_last().take(i) =~= frames.take(i));
    } else {
        assert(frames.take(i) =~= frames);
    }
}

/// The executor.
///
/// Holds everything needed to run a compiled program: the program itself,
/// the instruction pointer, the call stack (created with exactly one
/// sentinel frame whose return address is the stream length), the shared
/// operand stack, and references to the instruction registry and to a
/// client-supplied constants table.
pub struct Machine<'a, T, H, C> {
    code: Code<T>,
    instruction_table: &'a InstructionTable<H>,
    ip: usize,
    constants: &'a C,
    call_stack: Stack<Frame<T>>,
    operand_stack: Stack<T>,
}

impl<'a, T, H, C> Machine<'a, T, H, C> {
    /// The instruction pointer: the stream index of the next op code.
    pub closed spec fn spec_ip(&self) -> usize {
        self.ip
    }

    /// The call stack, bottom first.
    pub closed spec fn frames(&self) -> Seq<Frame<T>> {
        self.call_stack@
    }

    /// The operand stack, bottom first.
    pub closed spec fn operands(&self) -> Seq<T> {
        self.operand_stack@
    }

    /// The program's instruction stream.
    pub closed spec fn stream(&self) -> Seq<usize> {
        self.code.stream()
    }

    /// The program's operand data section.
    pub closed spec fn data_view(&self) -> Seq<T> {
        self.code.data_view()
    }

    /// The program's label list.
    pub closed spec fn labels_view(&self) -> Seq<(usize, String)> {
        self.code.labels_view()
    }

    /// The instruction set the machine executes with.
    pub closed spec fn table_view(&self) -> Seq<Instruction<H>> {
        (*self.instruction_table)@
    }

    /// The constants table the machine carries for its handlers.
    pub closed spec fn constants_ref(&self) -> &'a C {
        self.constants
    }

    /// Create a machine ready to execute `code`.
    ///
    /// The call stack starts with exactly one sentinel frame whose return
    /// address is the length of the instruction stream: falling off the end
    /// of the stream is the natural termination signal.
    pub fn new(code: Code<T>, constants: &'a C, instruction_table: &'a InstructionTable<H>) -> (r:
        Machine<'a, T, H, C>)
        ensures
            r.spec_ip() == 0,
            r.stream() == code.stream(),
            r.data_view() == code.data_view(),
            r.labels_view() == code.labels_view(),
            r.table_view() == instruction_table@,
            r.constants_ref() == constants,
            r.frames().len() == 1,
            r.frames()[0].spec_return_address() == code.stream().len(),
            r.frames()[0].locals_view() == Map::<Seq<char>, T>::empty(),
            r.operands() == Seq::<T>::empty(),
    {
        let frame: Frame<T> = Frame::new(code.code().len());
        let mut call_stack = Stack::new();
        call_stack.push(frame);
        Machine {
            code,
            instruction_table,
            ip: 0,
            constants,
            call_stack,
            operand_stack: Stack::new(),
        }
    }

    /// Fetch and decode one instruction.
    ///
    /// Reads the op code at the instruction pointer, resolves it in the
    /// registry, advances the pointer past the op code and the
    /// instruction's arity of operand-slot cells, and hands back the
    /// handler together with exactly those raw cells. The cells are passed
    /// on unresolved: reading the data section is the handler's own
    /// responsibility. An unregistered op code or a stream that ends
    /// inside the operand slots is a fault that leaves the machine exactly
    /// as it was.
    pub fn fetch_decode(&mut self) -> (r: Result<(H, Vec<usize>), MachineError>)
        where H: Copy
        requires
            old(self).spec_ip() < old(self).stream().len(),
        ensures
            spec_by_op_code(
                old(self).table_view(),
                old(self).stream()[old(self).spec_ip() as int],
            ) is None ==> r == Err::<(H, Vec<usize>), MachineError>(MachineError::UnknownOpCode)
                && *final(self) == *old(self),
            spec_by_op_code(
                old(self).table_view(),
                old(self).stream()[old(self).spec_ip() as int],
            ) matches Some(i) ==> (old(self).spec_ip() + 1 + i.arity > old(self).stream().len()
                ==> r == Err::<(H, Vec<usize>), MachineError>(MachineError::TruncatedStream)
                && *final(self) == *old(self)),
            spec_by_op_code(
                old(self).table_view(),
                old(self).stream()[old(self).spec_ip() as int],
            ) matches Some(i) ==> (old(self).spec_ip() + 1 + i.arity <= old(self).stream().len()
                ==> {
                &&& (r matches Ok(p) && p.0 == i.fun && p.1@ == old(self).stream().subrange(
                    old(self).spec_ip() as int + 1,
                    old(self).spec_ip() as int + 1 + i.arity as int,
                ))
                &&& final(self).spec_ip() == old(self).spec_ip() + 1 + i.arity
                &&& final(self).frames() == old(self).frames()
                &&& final(self).operands() == old(self).operands()
                &&& final(self).stream() == old(self).stream()
                &&& final(self).data_view() == old(self).data_view()
                &&& final(self).labels_view() == old(self).labels_view()
                &&& final(self).table_view() == old(self).table_view()
                &&& final(self).constants_ref() == old(self).constants_ref()
            }),
    {
        let op_code = self.code.code()[self.ip];
        let (arity, fun): (usize, H) = match self.instruction_table.by_op_code(op_code) {
            None => {
                return Err(MachineError::UnknownOpCode);
            },
            Some(instr) => (instr.arity, instr.fun),
        };
        if arity > self.code.code().len() - self.ip - 1 {
            return Err(MachineError::TruncatedStream);
        }
        let ghost ip0 = self.spec_ip();
        let mut args: Vec<usize> = Vec::new();
        self.ip = self.ip + 1;
        let mut k: usize = 0;
        while k < arity
            invariant
                k <= arity,
                self.ip == ip0 + 1 + k,
                ip0 + 1 + arity <= self.code.stream().len(),
                self.code == old(self).code,
                self.instruction_table == old(self).instruction_table,
                self.constants == old(self).constants,
                self.call_stack == old(self).call_stack,
                self.operand_stack == old(self).operand_stack,
                args@ == self.code.stream().subrange(ip0 as int + 1, ip0 as int + 1 + k as int),
            decreases arity - k,
        {
            args.push(self.code.code()[self.ip]);
            proof {
                assert(args@ =~= self.code.stream().subrange(
                    ip0 as int + 1,
                    ip0 as int + 1 + k as int + 1,
                ));
            }
            self.ip = self.ip + 1;
            k = k + 1;
        }
        Ok((fun, args))
    }

    /// Run the machine until it halts.
    ///
    /// Repeats the fetch-decode step and invokes each decoded handler on
    /// the machine and the instruction's raw operand-slot cells, until the
    /// instruction pointer reaches the stream's end exactly. A pointer
    /// past the end, an unregistered op code or a stream ending inside an
    /// instruction's operand slots is a fault.
    ///
    /// Whether the loop halts is up to the instruction set: a handler that
    /// always jumps to itself loops. The loop carries a step budget of
    /// `u64::MAX`, which makes it provably total; a program still running
    /// after that many dispatch steps is abandoned with `StepLimit`, a
    /// bound no terminating instruction set can reach.
    pub fn run(machine: Machine<'a, T, H, C>) -> (r: Result<Machine<'a, T, H, C>, MachineError>)
        where H: InstructionHandler<Machine<'a, T, H, C>> + Copy
        ensures
            machine.spec_ip() == machine.stream().len() ==> (r matches Ok(m) && m == machine),
            r matches Ok(m) ==> m.spec_ip() == m.stream().len(),
            machine.spec_ip() > machine.stream().len() ==> r == Err::<
                Machine<'a, T, H, C>,
                MachineError,
            >(MachineError::TruncatedStream),
            (machine.spec_ip() < machine.stream().len() && spec_by_op_code(
                machine.table_view(),
                machine.stream()[machine.spec_ip() as int],
            ) is None) ==> r == Err::<Machine<'a, T, H, C>, MachineError>(
                MachineError::UnknownOpCode,
            ),
            machine.spec_ip() < machine.stream().len() ==> (spec_by_op_code(
                machine.table_view(),
                machine.stream()[machine.spec_ip() as int],
            ) matches Some(i) ==> (machine.spec_ip() + 1 + i.arity > machine.stream().len() ==> r
                == Err::<Machine<'a, T, H, C>, MachineError>(MachineError::TruncatedStream))),
    {
        let mut m = machine;
        let len = m.code.code().len();
        if m.ip == len {
            return Ok(m);
        }
        if m.ip > len {
            return Err(MachineError::TruncatedStream);
        }
        match m.fetch_decode() {
            Err(e) => {
                return Err(e);
            },
            Ok((fun, args)) => {
                fun.handle(&mut m, args.as_slice());
            },
        }
        let mut budget: u64 = u64::MAX;
        loop
            invariant
                machine.spec_ip() < machine.stream().len(),
                spec_by_op_code(
                    machine.table_view(),
                    machine.stream()[machine.spec_ip() as int],
                ) is Some,
                spec_by_op_code(
                    machine.table_view(),
                    machine.stream()[machine.spec_ip() as int],
                ) matches Some(i) ==> machine.spec_ip() + 1 + i.arity <= machine.stream().len(),
            decreases budget,
        {
            if budget == 0 {
                return Err(MachineError::StepLimit);
            }
            budget = budget - 1;
            let len_now = m.code.code().len();
            if m.ip == len_now {
                return Ok(m);
            }
            if m.ip > len_now {
                return Err(MachineError::TruncatedStream);
            }
            match m.fetch_decode() {
                Err(e) => {
                    return Err(e);
                },
                Ok((fun, args)) => {
                    fun.handle(&mut m, args.as_slice());
                },
            }
        }
    }

    /// Look up a local variable in the current (innermost) call frame.
    pub fn get_local<'b>(&'b self, name: &str) -> (r: Option<&'b T>)
        requires
            self.frames().len() > 0,
        ensures
            match r {
                Some(v) => self.frames().last().locals_view().dom().contains(name@) && *v
                    == self.frames().last().locals_view()[name@],
                None => !self.frames().last().locals_view().dom().contains(name@),
            },
    {
        self.call_stack.peek().get_local(name)
    }

    /// Look for a local variable in all call frames, innermost first, and
    /// return the first binding found.
    pub fn get_local_deep<'b>(&'b self, name: &str) -> (r: Option<&'b T>)
        ensures
            match r {
                Some(v) => spec_deep_lookup(self.frames(), name@) == Some(*v),
                None => spec_deep_lookup(self.frames(), name@) is None,
            },
    {
        let n = self.call_stack.len();
        let mut i: usize = n;
        while i > 0
            invariant
                n == self.frames().len(),
                i <= n,
                forall|j: int| i <= j < n ==> !(#[trigger] self.frames()[j]).locals_view().dom()
                    .contains(name@),
            decreases i,
        {
            i = i - 1;
            let local = self.call_stack.get(i).get_local(name);
            if local.is_some() {
                proof {
                    lemma_deep_lookup_prefix(self.frames(), name@, i + 1);
                    assert(self.frames().take(i + 1).last() == self.frames()[i as int]);
                    assert(self.frames().take(i + 1).drop_last() =~= self.frames().take(
                        i as int,
                    ));
                }
                return local;
            }
        }
        proof {
            lemma_deep_lookup_prefix(self.frames(), name@, 0);
            assert(self.frames().take(0) =~= Seq::<Frame<T>>::empty());
        }
        None
    }

    /// Bind a local variable in the current (innermost) call frame.
    pub fn set_local(&mut self, name: &str, value: T)
        requires
            old(self).frames().len() > 0,
        ensures
            final(self).frames().len() == old(self).frames().len(),
            final(self).frames().drop_last() == old(self).frames().drop_last(),
            final(self).frames().last().locals_view() == old(self).frames().last().locals_view()
                .insert(name@, value),
            final(self).frames().last().spec_return_address() == old(
                self,
            ).frames().last().spec_return_address(),
            final(self).spec_ip() == old(self).spec_ip(),
            final(self).operands() == old(self).operands(),
            final(self).stream() == old(self).stream(),
            final(self).data_view() == old(self).data_view(),
            final(self).labels_view() == old(self).labels_view(),
            final(self).table_view() == old(self).table_view(),
            final(self).constants_ref() == old(self).constants_ref(),
    {
        let mut frame = self.call_stack.pop();
        frame.set_local(name, value);
        self.call_stack.push(frame);
        proof {
            assert(final(self).frames().drop_last() =~= old(self).frames().drop_last());
        }
    }

    /// Push an operand onto the operand stack.
    pub fn operand_push(&mut self, value: T)
        ensures
            final(self).operands() == old(self).operands().push(value),
            final(self).frames() == old(self).frames(),
            final(self).spec_ip() == old(self).spec_ip(),
            final(self).stream() == old(self).stream(),
            final(self).data_view() == old(self).data_view(),
            final(self).labels_view() == old(self).labels_view(),
            final(self).table_view() == old(self).table_view(),
            final(self).constants_ref() == old(self).constants_ref(),
    {
        self.operand_stack.push(value);
    }

    /// Pop an operand off the operand stack.
    pub fn operand_pop(&mut self) -> (r: T)
        requires
            old(self).operands().len() > 0,
        ensures
            r == old(self).operands().last(),
            final(self).operands() == old(self).operands().drop_last(),
            final(self).frames() == old(self).frames(),
            final(self).spec_ip() == old(self).spec_ip(),
            final(self).stream() == old(self).stream(),
            final(self).data_view() == old(self).data_view(),
            final(self).labels_view() == old(self).labels_view(),
            final(self).table_view() == old(self).table_view(),
            final(self).constants_ref() == old(self).constants_ref(),
    {
        self.operand_stack.pop()
    }

    /// Borrow a value stored in the program's data section.
    pub fn get_data<'b>(&'b self, idx: usize) -> (r: &'b T)
        requires
            idx < self.data_view().len(),
        ensures
            *r == self.data_view()[idx as int],
    {
        &self.code.data()[idx]
    }

    /// Perform a jump to a named label.
    ///
    /// Resolves the label in the program's label list, pushes a new frame
    /// whose return address is the current instruction pointer and whose
    /// local scope is empty, and moves the instruction pointer to the
    /// label's position. A jump to a label the program does not define
    /// fails and leaves the machine exactly as it was; jumping never touches
    /// the operand stack.
    pub fn jump(&mut self, label: &str) -> (r: Result<(), MachineError>)
        ensures
            spec_get_label_ip(old(self).labels_view(), label@) is None ==> r == Err::<
                (),
                MachineError,
            >(MachineError::UnknownLabel) && *final(self) == *old(self),
            spec_get_label_ip(old(self).labels_view(), label@) matches Some(target) ==> {
                &&& r == Ok::<(), MachineError>(())
                &&& final(self).spec_ip() == target
                &&& final(self).frames().len() == old(self).frames().len() + 1
                &&& final(self).frames().drop_last() == old(self).frames()
                &&& final(self).frames().last().spec_return_address() == old(self).spec_ip()
                &&& final(self).frames().last().locals_view() == Map::<Seq<char>, T>::empty()
                &&& final(self).operands() == old(self).operands()
                &&& final(self).stream() == old(self).stream()
                &&& final(self).data_view() == old(self).data_view()
                &&& final(self).labels_view() == old(self).labels_view()
                &&& final(self).table_view() == old(self).table_view()
                &&& final(self).constants_ref() == old(self).constants_ref()
            },
    {
        let new_ip = match self.code.get_label_ip(label) {
            None => {
                return Err(MachineError::UnknownLabel);
            },
            Some(ip) => ip,
        };
        let old_ip = self.ip;
        self.call_stack.push(Frame::new(old_ip));
        self.ip = new_ip;
        proof {
            assert(final(self).frames().drop_last() =~= old(self).frames());
        }
        Ok(())
    }

    /// Perform a return.
    ///
    /// Pops the innermost frame off the call stack and moves the
    /// instruction pointer to that frame's return address. Returning with
    /// an empty call stack — more returns than frames were ever pushed —
    /// fails and leaves the machine exactly as it was; returning never
    /// touches the operand stack.
    pub fn ret(&mut self) -> (r: Result<(), MachineError>)
        ensures
            old(self).frames().len() == 0 ==> r == Err::<(), MachineError>(
                MachineError::CallStackUnderflow,
            ) && *final(self) == *old(self),
            old(self).frames().len() > 0 ==> {
                &&& r == Ok::<(), MachineError>(())
                &&& final(self).frames() == old(self).frames().drop_last()
                &&& final(self).spec_ip() == old(self).frames().last().spec_return_address()
                &&& final(self).operands() == old(self).operands()
                &&& final(self).stream() == old(self).stream()
                &&& final(self).data_view() == old(self).data_view()
                &&& final(self).labels_view() == old(self).labels_view()
                &&& final(self).table_view() == old(self).table_view()
                &&& final(self).constants_ref() == old(self).constants_ref()
            },
    {
        if self.call_stack.is_empty() {
            return Err(MachineError::CallStackUnderflow);
        }
        let frame = self.call_stack.pop();
        self.ip = frame.return_address();
        Ok(())
    }

    /// Read the instruction pointer.
    pub fn ip(&self) -> (r: usize)
        ensures
            r == self.spec_ip(),
    {
        self.ip
    }

    /// Borrow the call stack.
    pub fn call_stack(&self) -> (r: &Stack<Frame<T>>)
        ensures
            r@ == self.frames(),
    {
        &self.call_stack
    }

    /// Borrow the operand stack.
    pub fn operand_stack(&self) -> (r: &Stack<T>)
        ensures
            r@ == self.operands(),
    {
        &self.operand_stack
    }

    /// Borrow the program this machine executes.
    pub fn code(&self) -> (r: &Code<T>)
        ensures
            r.stream() == self.stream(),
            r.data_view() == self.data_view(),
            r.labels_view() == self.labels_view(),
    {
        &self.code
    }

    /// Borrow the constants table the machine carries for its handlers.
    pub fn constants(&self) -> (r: &'a C)
        ensures
            r == self.constants_ref(),
    {
        self.constants
    }

    /// Borrow the instruction registry the machine executes with.
    pub fn instruction_table(&self) -> (r: &'a InstructionTable<H>)
        ensures
            r@ == self.table_view(),
    {
        self.instruction_table
    }
}

} // verus!
