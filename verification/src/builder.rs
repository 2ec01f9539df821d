//! The program assembler.
//!
//! A `Builder` accumulates a flat instruction stream, an append-only operand
//! data section, and a table of labels, validating each pushed instruction
//! against an instruction table.

use vstd::prelude::*;

use crate::errors::BuildError;
use crate::render::spec_args;
use crate::render::spec_data_lines;
use crate::render::to_dec;
use crate::render::Render;
use crate::immutable_table::ImmutableTable;
use crate::instruction::Instruction;
use crate::instruction_table::spec_by_op_code;
use crate::instruction_table::InstructionTable;
use crate::table::Table;

verus! {

/// A well-formed instruction stream with respect to an instruction set:
/// a repetition of groups, each an op code registered in the set followed by
/// exactly that instruction's arity of operand-slot indices.
pub open spec fn wf_stream<H>(s: Seq<usize>, t: Seq<Instruction<H>>) -> bool
    decreases s.len(),
{
    if s.len() == 0 {
        true
    } else {
        match spec_by_op_code(t, s[0]) {
            None => false,
            Some(i) => if s.len() < 1 + i.arity {
                false
            } else {
                wf_stream(s.skip(1 + i.arity as int), t)
            },
        }
    }
}

/// Two well-formed streams concatenate to a well-formed stream.
pub proof fn lemma_wf_stream_append<H>(s1: Seq<usize>, s2: Seq<usize>, t: Seq<Instruction<H>>)
    requires
        wf_stream(s1, t),
        wf_stream(s2, t),
    ensures
        wf_stream(s1 + s2, t),
    decreases s1.len(),
{
    if s1.len() == 0 {
        assert(s1 + s2 =~= s2);
    } else {
        let i = spec_by_op_code(t, s1[0]).unwrap();
        let k = 1 + i.arity as int;
        assert((s1 + s2)[0] == s1[0]);
        lemma_wf_stream_append(s1.skip(k), s2, t);
        assert(s1.skip(k) + s2 =~= (s1 + s2).skip(k));
    }
}

/// The `.name:` header lines of every label bound to `pos`, in binding
/// order.
pub open spec fn spec_label_headers(entries: Seq<(String, usize)>, pos: int) -> Seq<char>
    decreases entries.len(),
{
    if entries.len() == 0 {
        Seq::empty()
    } else {
        (if entries[0].1 == pos {
            "\n."@ + (entries[0].0@ + ":\n"@)
        } else {
            Seq::empty()
        }) + spec_label_headers(entries.skip(1), pos)
    }
}

/// The diagnostic listing of an instruction stream from position `ip` on:
/// per instruction its label headers, a tab, its mnemonic, its operand
/// references and a line break.
pub open spec fn spec_render_from<H>(
    stream: Seq<usize>,
    t: Seq<Instruction<H>>,
    entries: Seq<(String, usize)>,
    ip: int,
) -> Seq<char>
    decreases stream.len() - ip,
{
    if ip < 0 || ip >= stream.len() {
        Seq::empty()
    } else {
        match spec_by_op_code(t, stream[ip]) {
            None => Seq::empty(),
            Some(instr) => if stream.len() < ip + 1 + instr.arity {
                Seq::empty()
            } else {
                spec_label_headers(entries, ip) + ("\t"@ + (instr.name@ + (spec_args(
                    stream.subrange(ip + 1, ip + 1 + instr.arity as int),
                ) + ("\n"@ + spec_render_from(stream, t, entries, ip + 1 + instr.arity as int)))))
            },
        }
    }
}

/// Render a data section as `@N = <value>` lines.
pub(crate) fn render_data_lines<T: Render>(data: &Vec<T>) -> (r: String)
    ensures
        r@ == spec_data_lines(data@, 0),
{
    let mut result = String::new();
    let n = data.len();
    let mut i: usize = 0;
    while i < n
        invariant
            n == data@.len(),
            i <= n,
            result@ + spec_data_lines(data@, i as int) == spec_data_lines(data@, 0),
        decreases n - i,
    {
        let ghost r0 = result@;
        result.append("@");
        let num = to_dec(i);
        result.append(num.as_str());
        result.append(" = ");
        let txt = data[i].render();
        result.append(txt.as_str());
        result.append("\n");
        proof {
            assert(result@ + spec_data_lines(data@, i as int + 1) =~= r0 + spec_data_lines(
                data@,
                i as int,
            ));
        }
        i = i + 1;
    }
    proof {
        assert(result@ + spec_data_lines(data@, n as int) =~= result@);
    }
    result
}

/// Append the `.name:` header lines of every label bound to `pos`.
fn render_headers(labels: &ImmutableTable<usize>, pos: usize, out: &mut String)
    ensures
        final(out)@ == old(out)@ + spec_label_headers(labels.entries_view(), pos as int),
{
    let n = labels.entry_len();
    let mut j: usize = 0;
    proof {
        assert(labels.entries_view().skip(0) =~= labels.entries_view());
    }
    while j < n
        invariant
            n == labels.entries_view().len(),
            j <= n,
            out@ + spec_label_headers(labels.entries_view().skip(j as int), pos as int) == old(
                out,
            )@ + spec_label_headers(labels.entries_view(), pos as int),
        decreases n - j,
    {
        let ghost o0 = out@;
        let ghost ents = labels.entries_view();
        let e = labels.entry_at(j);
        if e.1 == pos {
            out.append("\n.");
            out.append(e.0.as_str());
            out.append(":\n");
        }
        proof {
            assert(ents.skip(j as int)[0] == ents[j as int]);
            assert(ents.skip(j as int).skip(1) =~= ents.skip(j as int + 1));
            assert(out@ + spec_label_headers(ents.skip(j as int + 1), pos as int) =~= o0
                + spec_label_headers(ents.skip(j as int), pos as int));
        }
        j = j + 1;
    }
    proof {
        assert(labels.entries_view().skip(n as int) =~= Seq::<(String, usize)>::empty());
        assert(final(out)@ + spec_label_headers(
            labels.entries_view().skip(n as int),
            pos as int,
        ) =~= final(out)@);
    }
}

/// The assembler.
///
/// Owns the instruction stream, the data section and the label table of the
/// program being built, and borrows the instruction table it validates
/// against. It is consumed when finalized into a `Code`.
pub struct Builder<'a, T, H> {
    instruction_table: &'a InstructionTable<H>,
    instructions: Vec<usize>,
    labels: ImmutableTable<usize>,
    data: Vec<T>,
}

impl<'a, T, H> Builder<'a, T, H> {
    /// The instruction set this builder validates against.
    pub closed spec fn table_view(&self) -> Seq<Instruction<H>> {
        (*self.instruction_table)@
    }

    /// The instruction stream assembled so far.
    pub closed spec fn stream(&self) -> Seq<usize> {
        self.instructions@
    }

    /// The operand data section assembled so far.
    pub closed spec fn data_view(&self) -> Seq<T> {
        self.data@
    }

    /// The labels bound so far.
    pub closed spec fn labels_map(&self) -> Map<Seq<char>, usize> {
        self.labels.table_view()
    }

    /// The label bindings in the order they were made.
    pub closed spec fn label_entries(&self) -> Seq<(String, usize)> {
        self.labels.entries_view()
    }

    /// The stream is a valid repetition of op codes and operand slots.
    pub open spec fn wf(&self) -> bool {
        wf_stream(self.stream(), self.table_view())
    }

    /// Create a new `Builder` against an instruction table.
    ///
    /// The program's entry point is implicitly labelled `main` at position 0.
    pub fn new(instruction_table: &'a InstructionTable<H>) -> (r: Builder<'a, T, H>)
        ensures
            r.table_view() == instruction_table@,
            r.stream() == Seq::<usize>::empty(),
            r.data_view() == Seq::<T>::empty(),
            r.labels_map() == Map::<Seq<char>, usize>::empty().insert("main"@, 0usize),
            r.label_entries().len() == 1,
            r.label_entries()[0].0@ == "main"@,
            r.label_entries()[0].1 == 0usize,
            r.wf(),
    {
        let mut labels = ImmutableTable::new();
        labels.insert("main", 0);
        Builder { instruction_table, instructions: Vec::new(), labels, data: Vec::new() }
    }

    /// Push an instruction into the program.
    ///
    /// `op_code` must be registered in the instruction table and `args` must
    /// hold exactly the instruction's arity of operand values; otherwise the
    /// push fails and the builder is left exactly as it was. On success the
    /// op code enters the instruction stream, each operand value is appended
    /// to the data section, and its index follows the op code in the stream.
    pub fn push(&mut self, op_code: usize, args: Vec<T>) -> (r: Result<(), BuildError>)
        ensures
            spec_by_op_code(old(self).table_view(), op_code) is None ==> r == Err::<
                (),
                BuildError,
            >(BuildError::UnknownOpCode) && *final(self) == *old(self),
            (spec_by_op_code(old(self).table_view(), op_code) matches Some(i) && i.arity
                != args@.len()) ==> r == Err::<(), BuildError>(BuildError::WrongArity)
                && *final(self) == *old(self),
            (spec_by_op_code(old(self).table_view(), op_code) matches Some(i) && i.arity
                == args@.len()) ==> {
                &&& r == Ok::<(), BuildError>(())
                &&& final(self).stream() == old(self).stream().push(op_code) + Seq::new(
                    args@.len(),
                    |k: int| (old(self).data_view().len() + k) as usize,
                )
                &&& final(self).data_view() == old(self).data_view() + args@
                &&& final(self).labels_map() == old(self).labels_map()
                &&& final(self).label_entries() == old(self).label_entries()
                &&& final(self).table_view() == old(self).table_view()
                &&& (old(self).wf() ==> final(self).wf())
            },
    {
        let it: &InstructionTable<H> = self.instruction_table;
        let arity: usize = match it.by_op_code(op_code) {
            None => {
                return Err(BuildError::UnknownOpCode);
            },
            Some(instr) => instr.arity,
        };
        if args.len() != arity {
            return Err(BuildError::WrongArity);
        }
        let ghost t = old(self).table_view();
        let ghost stream0 = old(self).stream();
        let ghost data0 = old(self).data_view();
        let ghost args0 = args@;
        self.instructions.push(op_code);
        let mut args = args;
        let n = arity;
        let mut k: usize = 0;
        while k < n
            invariant
                n == args0.len(),
                k <= n,
                args@ == args0.skip(k as int),
                self.instruction_table == old(self).instruction_table,
                self.labels == old(self).labels,
                self.data@ == data0 + args0.take(k as int),
                self.instructions@ == stream0.push(op_code) + Seq::new(
                    k as nat,
                    |j: int| (data0.len() + j) as usize,
                ),
            decreases n - k,
        {
            let arg = args.remove(0);
            proof {
                assert(args0.skip(k as int)[0] == args0[k as int]);
                assert(args0.skip(k as int).skip(1) =~= args0.skip(k as int + 1));
            }
            self.data.push(arg);
            let idx = self.data.len() - 1;
            self.instructions.push(idx);
            proof {
                assert(self.data@ =~= data0 + args0.take(k as int + 1));
                assert(self.instructions@ =~= stream0.push(op_code) + Seq::new(
                    (k + 1) as nat,
                    |j: int| (data0.len() + j) as usize,
                ));
            }
            k = k + 1;
        }
        proof {
            assert(args0.take(n as int) =~= args0);
            assert(final(self).data_view() =~= data0 + args0);
            if old(self).wf() {
                let grp = seq![op_code] + Seq::new(
                    n as nat,
                    |j: int| (data0.len() + j) as usize,
                );
                let i = spec_by_op_code(t, op_code).unwrap();
                assert(spec_by_op_code(t, op_code) == Some(i));
                assert(i.arity == n);
                assert(grp[0] == op_code);
                assert(grp.len() == 1 + i.arity);
                assert(wf_stream(Seq::<usize>::empty(), t));
                assert(grp.skip(1 + i.arity as int) =~= Seq::<usize>::empty());
                assert(wf_stream(grp, t));
                lemma_wf_stream_append(stream0, grp, t);
                assert(final(self).stream() =~= stream0 + grp);
            }
        }
        Ok(())
    }

    /// Bind a label to the current position in the instruction stream.
    ///
    /// Labels are targets for jumps. The label names the position of the
    /// next instruction to be pushed; binding a name twice fails and leaves
    /// the builder exactly as it was.
    pub fn label(&mut self, name: &str) -> (r: Result<(), BuildError>)
        ensures
            old(self).labels_map().dom().contains(name@) ==> r == Err::<(), BuildError>(
                BuildError::DuplicateLabel,
            ) && *final(self) == *old(self),
            !old(self).labels_map().dom().contains(name@) ==> {
                &&& r == Ok::<(), BuildError>(())
                &&& final(self).labels_map() == old(self).labels_map().insert(
                    name@,
                    old(self).stream().len() as usize,
                )
                &&& final(self).label_entries().len() == old(self).label_entries().len() + 1
                &&& final(self).label_entries().drop_last() == old(self).label_entries()
                &&& final(self).label_entries().last().0@ == name@
                &&& final(self).label_entries().last().1 == old(self).stream().len() as usize
                &&& final(self).stream() == old(self).stream()
                &&& final(self).data_view() == old(self).data_view()
                &&& final(self).table_view() == old(self).table_view()
            },
    {
        if self.labels.contains_key(name) {
            return Err(BuildError::DuplicateLabel);
        }
        let idx = self.instructions.len();
        self.labels.insert(name, idx);
        Ok(())
    }

    /// The length of the instruction stream assembled so far.
    pub fn len(&self) -> (r: usize)
        ensures
            r == self.stream().len(),
    {
        self.instructions.len()
    }

    /// Render the program under assembly as its diagnostic listing: the
    /// data section as `@N = <value>` lines, then each instruction behind
    /// the headers of the labels bound at its position.
    pub fn render(&self) -> (r: String)
        where T: Render
        requires
            self.wf(),
        ensures
            r@ == spec_data_lines(self.data_view(), 0) + spec_render_from(
                self.stream(),
                self.table_view(),
                self.label_entries(),
                0,
            ),
    {
        let mut result = render_data_lines(&self.data);
        let ghost total = spec_data_lines(self.data@, 0) + spec_render_from(
            self.instructions@,
            (*self.instruction_table)@,
            self.labels.entries_view(),
            0,
        );
        let table = self.instruction_table;
        let len = self.instructions.len();
        let mut ip: usize = 0;
        proof {
            assert(self.instructions@.skip(0) =~= self.instructions@);
        }
        while ip < len
            invariant
                len == self.instructions@.len(),
                ip <= len,
                table == self.instruction_table,
                wf_stream(self.instructions@.skip(ip as int), (*self.instruction_table)@),
                result@ + spec_render_from(
                    self.instructions@,
                    (*self.instruction_table)@,
                    self.labels.entries_view(),
                    ip as int,
                ) == total,
            decreases len - ip,
        {
            let ghost r0 = result@;
            let ghost stream = self.instructions@;
            let ghost t = (*self.instruction_table)@;
            let ghost ents = self.labels.entries_view();
            proof {
                assert(stream.skip(ip as int)[0] == stream[ip as int]);
            }
            let op_code = self.instructions[ip];
            let instr = match table.by_op_code(op_code) {
                Some(instr) => instr,
                None => {
                    proof {
                        assert(false);
                    }
                    vstd::pervasive::unreached()
                },
            };
            let arity = instr.arity;
            proof {
                assert(spec_by_op_code(t, op_code) == Some(*instr));
                assert(stream.skip(ip as int).len() >= 1 + arity);
                assert forall|q: int|
                    ip + 1 <= q < ip + 1 + arity implies stream.skip(ip as int)[q - ip]
                    == stream[q] by {}
            }
            render_headers(&self.labels, ip, &mut result);
            result.append("\t");
            result.append(instr.name.as_str());
            let ghost base = result@;
            let mut k: usize = 0;
            while k < arity
                invariant
                    k <= arity,
                    len == stream.len(),
                    stream == self.instructions@,
                    ip + 1 + arity <= len,
                    result@ + spec_args(
                        stream.subrange(ip as int + 1 + k as int, ip as int + 1 + arity as int),
                    ) == base + spec_args(
                        stream.subrange(ip as int + 1, ip as int + 1 + arity as int),
                    ),
                decreases arity - k,
            {
                let ghost a0 = result@;
                result.append(" @");
                let num = to_dec(self.instructions[ip + 1 + k]);
                result.append(num.as_str());
                proof {
                    let sub = stream.subrange(
                        ip as int + 1 + k as int,
                        ip as int + 1 + arity as int,
                    );
                    assert(sub[0] == stream[ip as int + 1 + k as int]);
                    assert(sub.skip(1) =~= stream.subrange(
                        ip as int + 1 + k as int + 1,
                        ip as int + 1 + arity as int,
                    ));
                    assert(result@ + spec_args(sub.skip(1)) =~= a0 + spec_args(sub));
                }
                k = k + 1;
            }
            result.append("\n");
            proof {
                let ipn = ip as int + 1 + arity as int;
                assert(stream.subrange(ipn, ipn) =~= Seq::<usize>::empty());
                assert(stream.skip(ip as int).skip(1 + arity as int) =~= stream.skip(ipn));
                assert(result@ =~= r0 + (spec_label_headers(ents, ip as int) + ("\t"@ + (
                instr.name@ + (spec_args(stream.subrange(ip as int + 1, ipn)) + "\n"@)))));
                assert(result@ + spec_render_from(stream, t, ents, ipn) =~= r0 + (
                spec_label_headers(ents, ip as int) + ("\t"@ + (instr.name@ + (spec_args(
                    stream.subrange(ip as int + 1, ipn),
                ) + ("\n"@ + spec_render_from(stream, t, ents, ipn)))))));
                assert(spec_render_from(stream, t, ents, ip as int) == spec_label_headers(
                    ents,
                    ip as int,
                ) + ("\t"@ + (instr.name@ + (spec_args(stream.subrange(ip as int + 1, ipn)) + (
                "\n"@ + spec_render_from(stream, t, ents, ipn))))));
            }
            ip = ip + 1 + arity;
        }
        proof {
            assert(result@ + spec_render_from(
                self.instructions@,
                (*self.instruction_table)@,
                self.labels.entries_view(),
                len as int,
            ) =~= result@);
        }
        result
    }

    /// Take the builder apart: its table reference, instruction stream,
    /// label table and data section.
    pub(crate) fn into_parts(self) -> (r: (
        &'a InstructionTable<H>,
        Vec<usize>,
        ImmutableTable<usize>,
        Vec<T>,
    ))
        ensures
            r.0@ == self.table_view(),
            r.1@ == self.stream(),
            r.2.entries_view() == self.label_entries(),
            r.2.table_view() == self.labels_map(),
            r.3@ == self.data_view(),
    {
        let Builder { instruction_table, instructions, labels, data } = self;
        (instruction_table, instructions, labels, data)
    }

    /// Borrow the label table.
    pub fn labels(&self) -> (r: &ImmutableTable<usize>)
        ensures
            r.table_view() == self.labels_map(),
            r.entries_view() == self.label_entries(),
    {
        &self.labels
    }
}

} // verus!
