//! The immutable compiled form of a program.
//!
//! A `Code` is the snapshot of a finalized `Builder`: the instruction
//! stream, the data section, a copy of the registry's op code to mnemonic
//! associations (so the program is self-describing), and the label list
//! sorted ascending by position.

use vstd::prelude::*;

use crate::builder::render_data_lines;
use crate::builder::wf_stream;
use crate::builder::Builder;
use crate::instruction::Instruction;
use crate::instruction_table::spec_by_op_code;
use crate::instruction_table::InstructionTable;
use crate::render::spec_args;
use crate::render::spec_data_lines;
use crate::render::to_dec;
use crate::render::Render;

verus! {

/// The `.name:` header line of the first label bound to `pos`, if any.
pub open spec fn spec_first_header(labels: Seq<(usize, String)>, pos: int) -> Seq<char>
    decreases labels.len(),
{
    if labels.len() == 0 {
        Seq::empty()
    } else if labels[0].0 == pos {
        "\n."@ + (labels[0].1@ + ":\n"@)
    } else {
        spec_first_header(labels.skip(1), pos)
    }
}

/// A tab and the mnemonic of the first symbol carrying `op`; nothing when
/// the program carries no symbol for it.
pub open spec fn spec_symbol_text(symbols: Seq<(usize, String)>, op: usize) -> Seq<char>
    decreases symbols.len(),
{
    if symbols.len() == 0 {
        Seq::empty()
    } else if symbols[0].0 == op {
        "\t"@ + symbols[0].1@
    } else {
        spec_symbol_text(symbols.skip(1), op)
    }
}

/// The diagnostic listing of a compiled program's instruction stream from
/// position `ip` on, resolving arity in the instruction set `t` and names
/// in the program's own symbols.
pub open spec fn spec_render_code_from<H>(
    stream: Seq<usize>,
    t: Seq<Instruction<H>>,
    symbols: Seq<(usize, String)>,
    labels: Seq<(usize, String)>,
    ip: int,
) -> Seq<char>
    decreases stream.len() - ip,
{
    if ip < 0 || ip >= stream.len() {
        Seq::empty()
    } else {
        match spec_by_op_code(t, stream[ip]) {
            None => Seq::empty(),
            Some(instr) => if stream.len() < ip + 1 + instr.arity {
                Seq::empty()
            } else {
                spec_first_header(labels, ip) + (spec_symbol_text(symbols, stream[ip]) + (
                spec_args(stream.subrange(ip + 1, ip + 1 + instr.arity as int)) + ("\n"@
                    + spec_render_code_from(
                    stream,
                    t,
                    symbols,
                    labels,
                    ip + 1 + instr.arity as int,
                ))))
            },
        }
    }
}

proof fn lemma_first_header_prefix(labels: Seq<(usize, String)>, pos: int, j: int)
    requires
        0 <= j <= labels.len(),
        forall|q: int| 0 <= q < j ==> (#[trigger] labels[q]).0 != pos,
    ensures
        spec_first_header(labels, pos) == spec_first_header(labels.skip(j), pos),
    decreases j,
{
    if j > 0 {
        assert(labels[0].0 != pos);
        assert forall|q: int| 0 <= q < j - 1 implies (#[trigger] labels.skip(1)[q]).0 != pos by {
            assert(labels.skip(1)[q] == labels[q + 1]);
        }
        lemma_first_header_prefix(labels.skip(1), pos, j - 1);
        assert(labels.skip(1).skip(j - 1) =~= labels.skip(j));
    } else {
        assert(labels.skip(0) =~= labels);
    }
}

proof fn lemma_symbol_text_prefix(symbols: Seq<(usize, String)>, op: usize, j: int)
    requires
        0 <= j <= symbols.len(),
        forall|q: int| 0 <= q < j ==> (#[trigger] symbols[q]).0 != op,
    ensures
        spec_symbol_text(symbols, op) == spec_symbol_text(symbols.skip(j), op),
    decreases j,
{
    if j > 0 {
        assert(symbols[0].0 != op);
        assert forall|q: int| 0 <= q < j - 1 implies (#[trigger] symbols.skip(1)[q]).0 != op by {
            assert(symbols.skip(1)[q] == symbols[q + 1]);
        }
        lemma_symbol_text_prefix(symbols.skip(1), op, j - 1);
        assert(symbols.skip(1).skip(j - 1) =~= symbols.skip(j));
    } else {
        assert(symbols.skip(0) =~= symbols);
    }
}

/// Append the header line of the first label bound to `pos`, if any.
fn render_first_header(labels: &Vec<(usize, String)>, pos: usize, out: &mut String)
    ensures
        final(out)@ == old(out)@ + spec_first_header(labels@, pos as int),
{
    let n = labels.len();
    let mut j: usize = 0;
    while j < n
        invariant
            n == labels@.len(),
            j <= n,
            out@ == old(out)@,
            forall|q: int| 0 <= q < j ==> (#[trigger] labels@[q]).0 != pos,
        decreases n - j,
    {
        if labels[j].0 == pos {
            out.append("\n.");
            out.append(labels[j].1.as_str());
            out.append(":\n");
            proof {
                lemma_first_header_prefix(labels@, pos as int, j as int);
                assert(labels@.skip(j as int)[0] == labels@[j as int]);
                assert(final(out)@ =~= old(out)@ + spec_first_header(labels@, pos as int));
            }
            return ;
        }
        j = j + 1;
    }
    proof {
        lemma_first_header_prefix(labels@, pos as int, n as int);
        assert(labels@.skip(n as int) =~= Seq::<(usize, String)>::empty());
        assert(final(out)@ =~= old(out)@ + spec_first_header(labels@, pos as int));
    }
}

/// Append a tab and the mnemonic of the first symbol carrying `op`, if
/// any.
fn render_symbol_text(symbols: &Vec<(usize, String)>, op: usize, out: &mut String)
    ensures
        final(out)@ == old(out)@ + spec_symbol_text(symbols@, op),
{
    let n = symbols.len();
    let mut j: usize = 0;
    while j < n
        invariant
            n == symbols@.len(),
            j <= n,
            out@ == old(out)@,
            forall|q: int| 0 <= q < j ==> (#[trigger] symbols@[q]).0 != op,
        decreases n - j,
    {
        if symbols[j].0 == op {
            out.append("\t");
            out.append(symbols[j].1.as_str());
            proof {
                lemma_symbol_text_prefix(symbols@, op, j as int);
                assert(symbols@.skip(j as int)[0] == symbols@[j as int]);
                assert(final(out)@ =~= old(out)@ + spec_symbol_text(symbols@, op));
            }
            return ;
        }
        j = j + 1;
    }
    proof {
        lemma_symbol_text_prefix(symbols@, op, n as int);
        assert(symbols@.skip(n as int) =~= Seq::<(usize, String)>::empty());
        assert(final(out)@ =~= old(out)@ + spec_symbol_text(symbols@, op));
    }
}

/// `s` with `p` inserted after every pair whose position does not exceed
/// `p`'s, so that an ascending list stays ascending and equal positions
/// keep their arrival order.
pub open spec fn spec_sorted_insert(s: Seq<(usize, String)>, p: (usize, String)) -> Seq<
    (usize, String),
>
    decreases s.len(),
{
    if s.len() == 0 {
        seq![p]
    } else if s.last().0 <= p.0 {
        s.push(p)
    } else {
        spec_sorted_insert(s.drop_last(), p).push(s.last())
    }
}

/// Stable sort of `(position, name)` pairs, ascending by position.
pub open spec fn spec_label_sort(s: Seq<(usize, String)>) -> Seq<(usize, String)>
    decreases s.len(),
{
    if s.len() == 0 {
        s
    } else {
        spec_sorted_insert(spec_label_sort(s.drop_last()), s.last())
    }
}

/// The pairs are ascending by position.
pub open spec fn spec_labels_sorted(s: Seq<(usize, String)>) -> bool {
    forall|i: int, j: int| 0 <= i < j < s.len() ==> (#[trigger] s[i]).0 <= (#[trigger] s[j]).0
}

/// The position of the first label named `name`, if one is.
pub open spec fn spec_get_label_ip(s: Seq<(usize, String)>, name: Seq<char>) -> Option<usize>
    decreases s.len(),
{
    if s.len() == 0 {
        None
    } else if s[0].1@ == name {
        Some(s[0].0)
    } else {
        spec_get_label_ip(s.skip(1), name)
    }
}

proof fn lemma_sorted_insert_at(s: Seq<(usize, String)>, p: (usize, String), j: int)
    requires
        0 <= j <= s.len(),
        forall|k: int| j <= k < s.len() ==> (#[trigger] s[k]).0 > p.0,
        j > 0 ==> s[j - 1].0 <= p.0,
    ensures
        spec_sorted_insert(s, p) == s.subrange(0, j) + seq![p] + s.skip(j),
    decreases s.len(),
{
    if s.len() == 0 {
        assert(s.subrange(0, 0) + seq![p] + s.skip(0) =~= seq![p]);
    } else if j == s.len() {
        assert(s.last().0 <= p.0);
        assert(s.subrange(0, j) + seq![p] + s.skip(j) =~= s.push(p));
    } else {
        assert(s[s.len() - 1].0 > p.0);
        assert(forall|k: int| j <= k < s.drop_last().len() ==> (#[trigger] s.drop_last()[k]).0
            > p.0);
        if j > 0 {
            assert(s.drop_last()[j - 1] == s[j - 1]);
        }
        lemma_sorted_insert_at(s.drop_last(), p, j);
        assert((s.drop_last().subrange(0, j) + seq![p] + s.drop_last().skip(j)).push(s.last())
            =~= s.subrange(0, j) + seq![p] + s.skip(j));
    }
}

proof fn lemma_sorted_insert_sorted(s: Seq<(usize, String)>, p: (usize, String))
    requires
        spec_labels_sorted(s),
    ensures
        spec_labels_sorted(spec_sorted_insert(s, p)),
    decreases s.len(),
{
    if s.len() == 0 {
    } else if s.last().0 <= p.0 {
        let r = s.push(p);
        assert forall|i: int, j: int| 0 <= i < j < r.len() implies (#[trigger] r[i]).0
            <= (#[trigger] r[j]).0 by {
            if j < s.len() {
            } else {
                if i < s.len() - 1 {
                    assert(s[i].0 <= s[s.len() - 1].0);
                }
            }
        }
    } else {
        assert(forall|i: int, j: int|
            0 <= i < j < s.drop_last().len() ==> (#[trigger] s.drop_last()[i]).0
                <= (#[trigger] s.drop_last()[j]).0);
        lemma_sorted_insert_sorted(s.drop_last(), p);
        let q = spec_sorted_insert(s.drop_last(), p);
        lemma_sorted_insert_len(s.drop_last(), p);
        let r = q.push(s.last());
        assert(spec_sorted_insert(s, p) == r);
        assert forall|i: int, j: int| 0 <= i < j < r.len() implies (#[trigger] r[i]).0
            <= (#[trigger] r[j]).0 by {
            if j == r.len() - 1 {
                lemma_sorted_insert_members(s.drop_last(), p, i);
                if r[i] == p {
                    assert(r[i].0 <= s.last().0);
                } else {
                    let k = choose|k: int|
                        0 <= k < s.drop_last().len() && q[i] == s.drop_last()[k];
                    assert(s[k].0 <= s[s.len() - 1].0);
                }
            }
        }
    }
}

proof fn lemma_sorted_insert_len(s: Seq<(usize, String)>, p: (usize, String))
    ensures
        spec_sorted_insert(s, p).len() == s.len() + 1,
    decreases s.len(),
{
    if s.len() > 0 && !(s.last().0 <= p.0) {
        lemma_sorted_insert_len(s.drop_last(), p);
    }
}

/// Every element of an insertion's result is the inserted pair or one of the
/// originals.
proof fn lemma_sorted_insert_members(s: Seq<(usize, String)>, p: (usize, String), i: int)
    requires
        0 <= i < spec_sorted_insert(s, p).len(),
    ensures
        spec_sorted_insert(s, p)[i] == p || exists|k: int|
            0 <= k < s.len() && spec_sorted_insert(s, p)[i] == s[k],
    decreases s.len(),
{
    lemma_sorted_insert_len(s, p);
    if s.len() == 0 {
    } else if s.last().0 <= p.0 {
        if i < s.len() {
            assert(spec_sorted_insert(s, p)[i] == s[i]);
        }
    } else {
        let q = spec_sorted_insert(s.drop_last(), p);
        lemma_sorted_insert_len(s.drop_last(), p);
        if i < q.len() {
            lemma_sorted_insert_members(s.drop_last(), p, i);
            assert(spec_sorted_insert(s, p)[i] == q[i]);
            if q[i] != p {
                let k = choose|k: int| 0 <= k < s.drop_last().len() && q[i] == s.drop_last()[k];
                assert(s.drop_last()[k] == s[k]);
            }
        } else {
            assert(spec_sorted_insert(s, p)[i] == s[s.len() - 1]);
        }
    }
}

/// The mathematical content of a `Code`: every name as its characters,
/// every operand as its own view.
#[verifier::ext_equal]
pub struct CodeView<TV> {
    /// The op code / mnemonic pairs.
    pub symbols: Seq<(usize, Seq<char>)>,
    /// The instruction stream.
    pub code: Seq<usize>,
    /// The operand data section.
    pub data: Seq<TV>,
    /// The `(position, name)` label pairs.
    pub labels: Seq<(usize, Seq<char>)>,
}

/// An immutable, self-describing compiled program.
pub struct Code<T> {
    pub(crate) symbols: Vec<(usize, String)>,
    pub(crate) code: Vec<usize>,
    pub(crate) data: Vec<T>,
    pub(crate) labels: Vec<(usize, String)>,
}

impl<T: View> View for Code<T> {
    type V = CodeView<T::V>;

    closed spec fn view(&self) -> CodeView<T::V> {
        CodeView {
            symbols: self.symbols@.map_values(|p: (usize, String)| (p.0, p.1@)),
            code: self.code@,
            data: self.data@.map_values(|t: T| t@),
            labels: self.labels@.map_values(|p: (usize, String)| (p.0, p.1@)),
        }
    }
}

impl<T> Code<T> {
    /// The op code / mnemonic pairs this program carries.
    pub closed spec fn symbols_view(&self) -> Seq<(usize, String)> {
        self.symbols@
    }

    /// The instruction stream.
    pub closed spec fn stream(&self) -> Seq<usize> {
        self.code@
    }

    /// The operand data section.
    pub closed spec fn data_view(&self) -> Seq<T> {
        self.data@
    }

    /// The `(position, name)` label pairs, ascending by position.
    pub closed spec fn labels_view(&self) -> Seq<(usize, String)> {
        self.labels@
    }

    /// Finalize a `Builder` into a `Code`.
    ///
    /// Moves the instruction stream and data section as they are, copies the
    /// registry's op code / mnemonic pairs, and turns the label table into a
    /// `(position, name)` list stably sorted ascending by position.
    pub fn from_builder<'a, H>(builder: Builder<'a, T, H>) -> (r: Code<T>)
        ensures
            r.stream() == builder.stream(),
            r.data_view() == builder.data_view(),
            r.symbols_view().len() == builder.table_view().len(),
            forall|i: int| 0 <= i < r.symbols_view().len() ==> #[trigger] r.symbols_view()[i]
                == (builder.table_view()[i].op_code, builder.table_view()[i].name),
            r.labels_view() == spec_label_sort(
                builder.label_entries().map_values(|p: (String, usize)| (p.1, p.0)),
            ),
            spec_labels_sorted(r.labels_view()),
    {
        let ghost swapped = builder.label_entries().map_values(
            |p: (String, usize)| (p.1, p.0),
        );
        let (table, instructions, labels, data) = builder.into_parts();
        let symbols = table.symbols();
        let entries = labels.into_entries();
        let n = entries.len();
        let mut sorted: Vec<(usize, String)> = Vec::new();
        let mut i: usize = 0;
        while i < n
            invariant
                n == entries@.len(),
                i <= n,
                swapped == entries@.map_values(|p: (String, usize)| (p.1, p.0)),
                sorted@ == spec_label_sort(swapped.take(i as int)),
                spec_labels_sorted(sorted@),
            decreases n - i,
        {
            let pos = entries[i].1;
            let name = entries[i].0.clone();
            let mut j = sorted.len();
            while j > 0
                invariant
                    j <= sorted@.len(),
                    forall|k: int| j <= k < sorted@.len() ==> (#[trigger] sorted@[k]).0 > pos,
                ensures
                    j <= sorted@.len(),
                    forall|k: int| j <= k < sorted@.len() ==> (#[trigger] sorted@[k]).0 > pos,
                    j > 0 ==> sorted@[j - 1].0 <= pos,
                decreases j,
            {
                if sorted[j - 1].0 <= pos {
                    break;
                }
                j = j - 1;
            }
            proof {
                lemma_sorted_insert_at(sorted@, (pos, name), j as int);
                assert(swapped.take(i as int + 1).drop_last() =~= swapped.take(i as int));
                assert(swapped.take(i as int + 1).last() == swapped[i as int]);
                assert(swapped[i as int] == (entries@[i as int].1, entries@[i as int].0));
                lemma_sorted_insert_sorted(sorted@, (pos, name));
            }
            sorted.insert(j, (pos, name));
            proof {
                assert(sorted@ =~= spec_label_sort(swapped.take(i as int + 1)));
            }
            i = i + 1;
        }
        proof {
            assert(swapped.take(n as int) =~= swapped);
        }
        Code { symbols, code: instructions, data, labels: sorted }
    }

    /// How a `Code`'s view is built from its parts.
    pub(crate) proof fn lemma_view_parts(&self)
        where T: View
        ensures
            self@.code == self.code@,
            self@.data == self.data@.map_values(|t: T| t@),
            self@.symbols == self.symbols@.map_values(|p: (usize, String)| (p.0, p.1@)),
            self@.labels == self.labels@.map_values(|p: (usize, String)| (p.0, p.1@)),
    {
    }

    /// Render the compiled program as its diagnostic listing: the data
    /// section as `@N = <value>` lines, then each instruction behind the
    /// header of the first label at its position, named from the program's
    /// own symbols. The instruction table supplies each op code's arity,
    /// which the stream itself does not carry.
    pub fn render<H>(&self, instruction_table: &InstructionTable<H>) -> (r: String)
        where T: Render
        requires
            wf_stream(self.stream(), instruction_table@),
        ensures
            r@ == spec_data_lines(self.data_view(), 0) + spec_render_code_from(
                self.stream(),
                instruction_table@,
                self.symbols_view(),
                self.labels_view(),
                0,
            ),
    {
        let mut result = render_data_lines(&self.data);
        let ghost total = spec_data_lines(self.data@, 0) + spec_render_code_from(
            self.code@,
            instruction_table@,
            self.symbols@,
            self.labels@,
            0,
        );
        let len = self.code.len();
        let mut ip: usize = 0;
        proof {
            assert(self.code@.skip(0) =~= self.code@);
        }
        while ip < len
            invariant
                len == self.code@.len(),
                ip <= len,
                wf_stream(self.code@.skip(ip as int), instruction_table@),
                result@ + spec_render_code_from(
                    self.code@,
                    instruction_table@,
                    self.symbols@,
                    self.labels@,
                    ip as int,
                ) == total,
            decreases len - ip,
        {
            let ghost r0 = result@;
            let ghost stream = self.code@;
            let ghost t = instruction_table@;
            proof {
                assert(stream.skip(ip as int)[0] == stream[ip as int]);
            }
            let op_code = self.code[ip];
            let instr = match instruction_table.by_op_code(op_code) {
                Some(instr) => instr,
                None => {
                    proof {
                        assert(false);
                    }
                    vstd::pervasive::unreached()
                },
            };
            let arity = instr.arity;
            proof {
                assert(spec_by_op_code(t, op_code) == Some(*instr));
                assert(stream.skip(ip as int).len() >= 1 + arity);
            }
            render_first_header(&self.labels, ip, &mut result);
            render_symbol_text(&self.symbols, op_code, &mut result);
            let ghost base = result@;
            let mut k: usize = 0;
            while k < arity
                invariant
                    k <= arity,
                    len == stream.len(),
                    stream == self.code@,
                    ip + 1 + arity <= len,
                    result@ + spec_args(
                        stream.subrange(ip as int + 1 + k as int, ip as int + 1 + arity as int),
                    ) == base + spec_args(
                        stream.subrange(ip as int + 1, ip as int + 1 + arity as int),
                    ),
                decreases arity - k,
            {
                let ghost a0 = result@;
                result.append(" @");
                let num = to_dec(self.code[ip + 1 + k]);
                result.append(num.as_str());
                proof {
                    let sub = stream.subrange(
                        ip as int + 1 + k as int,
                        ip as int + 1 + arity as int,
                    );
                    assert(sub[0] == stream[ip as int + 1 + k as int]);
                    assert(sub.skip(1) =~= stream.subrange(
                        ip as int + 1 + k as int + 1,
                        ip as int + 1 + arity as int,
                    ));
                    assert(result@ + spec_args(sub.skip(1)) =~= a0 + spec_args(sub));
                }
                k = k + 1;
            }
            result.append("\n");
            proof {
                let ipn = ip as int + 1 + arity as int;
                assert(stream.subrange(ipn, ipn) =~= Seq::<usize>::empty());
                assert(stream.skip(ip as int).skip(1 + arity as int) =~= stream.skip(ipn));
                assert(result@ =~= r0 + (spec_first_header(self.labels@, ip as int) + (
                spec_symbol_text(self.symbols@, op_code) + (spec_args(
                    stream.subrange(ip as int + 1, ipn),
                ) + "\n"@))));
                assert(result@ + spec_render_code_from(stream, t, self.symbols@, self.labels@, ipn)
                    =~= r0 + (spec_first_header(self.labels@, ip as int) + (spec_symbol_text(
                    self.symbols@,
                    op_code,
                ) + (spec_args(stream.subrange(ip as int + 1, ipn)) + ("\n"@
                    + spec_render_code_from(stream, t, self.symbols@, self.labels@, ipn))))));
                assert(spec_render_code_from(stream, t, self.symbols@, self.labels@, ip as int)
                    == spec_first_header(self.labels@, ip as int) + (spec_symbol_text(
                    self.symbols@,
                    op_code,
                ) + (spec_args(stream.subrange(ip as int + 1, ipn)) + ("\n"@
                    + spec_render_code_from(stream, t, self.symbols@, self.labels@, ipn)))));
            }
            ip = ip + 1 + arity;
        }
        proof {
            assert(result@ + spec_render_code_from(
                self.code@,
                instruction_table@,
                self.symbols@,
                self.labels@,
                len as int,
            ) =~= result@);
        }
        result
    }

    /// The op code / mnemonic pairs this program carries.
    pub fn symbols(&self) -> (r: &[(usize, String)])
        ensures
            r@ == self.symbols_view(),
    {
        self.symbols.as_slice()
    }

    /// The instruction stream.
    pub fn code(&self) -> (r: &[usize])
        ensures
            r@ == self.stream(),
    {
        self.code.as_slice()
    }

    /// The operand data section.
    pub fn data(&self) -> (r: &[T])
        ensures
            r@ == self.data_view(),
    {
        self.data.as_slice()
    }

    /// The `(position, name)` label pairs, ascending by position.
    pub fn labels(&self) -> (r: &[(usize, String)])
        ensures
            r@ == self.labels_view(),
    {
        self.labels.as_slice()
    }

    /// The position of the first label named `name`, if the program defines
    /// one.
    pub fn get_label_ip(&self, name: &str) -> (r: Option<usize>)
        ensures
            r == spec_get_label_ip(self.labels_view(), name@),
    {
        let key = String::from_str(name);
        let n = self.labels.len();
        let mut i: usize = 0;
        while i < n
            invariant
                n == self.labels@.len(),
                i <= n,
                key@ == name@,
                forall|j: int| 0 <= j < i ==> (#[trigger] self.labels@[j]).1@ != name@,
            decreases n - i,
        {
            if self.labels[i].1 == key {
                proof {
                    lemma_get_label_ip_prefix(self.labels@, name@, i as int);
                }
                return Some(self.labels[i].0);
            }
            i = i + 1;
        }
        proof {
            lemma_get_label_ip_prefix(self.labels@, name@, n as int);
        }
        None
    }
}

proof fn lemma_get_label_ip_prefix(s: Seq<(usize, String)>, name: Seq<char>, i: int)
    requires
        0 <= i <= s.len(),
        forall|j: int| 0 <= j < i ==> (#[trigger] s[j]).1@ != name,
    ensures
        spec_get_label_ip(s, name) == spec_get_label_ip(s.skip(i), name),
    decreases i,
{
    if i > 0 {
        assert(s[0].1@ != name);
        assert forall|j: int| 0 <= j < i - 1 implies (#[trigger] s.skip(1)[j]).1@ != name by {
            assert(s.skip(1)[j] == s[j + 1]);
        }
        lemma_get_label_ip_prefix(s.skip(1), name, i - 1);
        assert(s.skip(1).skip(i - 1) =~= s.skip(i));
    } else {
        assert(s.skip(0) =~= s);
    }
}

} // verus!
