//! The code generator: a single depth-first pass over the statement tree that
//! appends structured instructions to an output buffer and maintains four
//! pieces of state — the symbol table (variable name to register), the class
//! layout table (class name to ordered field list), the object-type table
//! (variable name to class name) and the two monotonic counters (registers,
//! labels).
//!
//! The whole pass is specified functionally: [`step_stmt`] is the
//! mathematical meaning of generating one statement, [`step_stmts`] folds it
//! over a sequence, and [`Generator::gen_stmt`] is proved to transform its
//! state exactly as `step_stmt` says. Register `x20` is the heap bump
//! pointer; registers below 12 are reserved for the runtime bootstrap, so
//! user symbols are allocated from 12 upward and never reused. Lookups that
//! miss fall back to register `x0` and offset `0` — the documented
//! soft-failure policy under which wrong code is generated silently rather
//! than rejected.

use vstd::prelude::*;
use vstd::string::{StringExecFns, StringExecFnsIsAscii};
use crate::instr::{Instr, InstrV, Cond, Label, code_text, instr_bytes, render_code, render_instr};
use crate::imports::{space_end, word_end};
use crate::parser::{Stmt, CmpOp, MathOp};

verus! {

broadcast use vstd::std_specs::vec::group_vec_axioms, vstd::seq::group_seq_axioms;

/// The mathematical state of a [`Generator`]: table keys and embedded
/// strings are character sequences.
#[verifier::ext_equal]
pub ghost struct GState {
    /// Data-section declarations (string literals), in allocation order.
    pub data: Seq<InstrV>,
    /// Instruction-section output, in emission order.
    pub text: Seq<InstrV>,
    /// Variable name to register index; entries are never removed, and a
    /// name keeps its first register (single static location per name).
    pub symbols: Seq<(Seq<char>, u64)>,
    /// Class name to ordered field names; field `i` is at byte offset `i * 8`.
    pub class_map: Seq<(Seq<char>, Seq<Seq<char>>)>,
    /// Variable name to class name, set at heap allocation.
    pub obj_types: Seq<(Seq<char>, Seq<char>)>,
    /// Next register index to hand out; starts above the reserved block.
    pub reg_count: u64,
    /// Next label id; one per control construct or generated data label.
    pub label_count: u64,
    /// The byte length of everything emitted so far (data and instruction
    /// sections together), saturating at the register width's limit; the
    /// decimal print loop draws its internal label id from it, so those
    /// labels are distinct as long as the output keeps growing.
    pub out_bytes: u64,
}

/// First-match lookup in an association list.
pub open spec fn assoc_get<V>(t: Seq<(Seq<char>, V)>, k: Seq<char>) -> Option<V>
    decreases t.len(),
{
    if t.len() == 0 {
        None
    } else if t.first().0 == k {
        Some(t.first().1)
    } else {
        assoc_get(t.drop_first(), k)
    }
}

/// Replaces the first entry for `k`, or appends one if none exists.
pub open spec fn assoc_set<V>(t: Seq<(Seq<char>, V)>, k: Seq<char>, v: V) -> Seq<(Seq<char>, V)>
    decreases t.len(),
{
    if t.len() == 0 {
        seq![(k, v)]
    } else if t.first().0 == k {
        seq![(k, v)] + t.drop_first()
    } else {
        seq![t.first()] + assoc_set(t.drop_first(), k, v)
    }
}

/// If the first entry for `k` is at index `i`, lookup returns its value.
pub proof fn lemma_assoc_get_at<V>(t: Seq<(Seq<char>, V)>, k: Seq<char>, i: int)
    requires
        0 <= i < t.len(),
        t[i].0 == k,
        forall|j: int| 0 <= j < i ==> t[j].0 != k,
    ensures
        assoc_get(t, k) == Some(t[i].1),
    decreases i,
{
    if i > 0 {
        assert(forall|j: int| 0 <= j < i - 1 ==> t.drop_first()[j].0 != k);
        lemma_assoc_get_at(t.drop_first(), k, i - 1);
    }
}

/// If no entry has key `k`, lookup misses.
pub proof fn lemma_assoc_get_none<V>(t: Seq<(Seq<char>, V)>, k: Seq<char>)
    requires
        forall|j: int| 0 <= j < t.len() ==> t[j].0 != k,
    ensures
        assoc_get(t, k) is None,
    decreases t.len(),
{
    if t.len() > 0 {
        lemma_assoc_get_none(t.drop_first(), k);
    }
}

/// If the first entry for `k` is at index `i`, setting `k` updates in place.
pub proof fn lemma_assoc_set_update<V>(t: Seq<(Seq<char>, V)>, k: Seq<char>, v: V, i: int)
    requires
        0 <= i < t.len(),
        t[i].0 == k,
        forall|j: int| 0 <= j < i ==> t[j].0 != k,
    ensures
        assoc_set(t, k, v) == t.update(i, (k, v)),
    decreases i,
{
    if i == 0 {
        assert(assoc_set(t, k, v) =~= t.update(0, (k, v)));
    } else {
        assert(forall|j: int| 0 <= j < i - 1 ==> t.drop_first()[j].0 != k);
        lemma_assoc_set_update(t.drop_first(), k, v, i - 1);
        assert(seq![t.first()] + t.drop_first().update(i - 1, (k, v)) =~= t.update(i, (k, v)));
    }
}

/// If no entry has key `k`, setting `k` appends.
pub proof fn lemma_assoc_set_append<V>(t: Seq<(Seq<char>, V)>, k: Seq<char>, v: V)
    requires
        forall|j: int| 0 <= j < t.len() ==> t[j].0 != k,
    ensures
        assoc_set(t, k, v) == t.push((k, v)),
    decreases t.len(),
{
    if t.len() == 0 {
        assert(assoc_set(t, k, v) =~= t.push((k, v)));
    } else {
        lemma_assoc_set_append(t.drop_first(), k, v);
        assert(seq![t.first()] + t.drop_first().push((k, v)) =~= t.push((k, v)));
    }
}

/// The position of the first occurrence of `name`, if any.
pub open spec fn first_index(fields: Seq<Seq<char>>, name: Seq<char>) -> Option<nat>
    decreases fields.len(),
{
    if fields.len() == 0 {
        None
    } else if fields.first() == name {
        Some(0)
    } else {
        match first_index(fields.drop_first(), name) {
            Some(i) => Some(i + 1),
            None => None,
        }
    }
}

/// If the first occurrence of `name` is at index `i`, `first_index` says so.
pub proof fn lemma_first_index_at(fields: Seq<Seq<char>>, name: Seq<char>, i: int)
    requires
        0 <= i < fields.len(),
        fields[i] == name,
        forall|j: int| 0 <= j < i ==> fields[j] != name,
    ensures
        first_index(fields, name) == Some(i as nat),
    decreases i,
{
    if i > 0 {
        assert(forall|j: int| 0 <= j < i - 1 ==> fields.drop_first()[j] != name);
        lemma_first_index_at(fields.drop_first(), name, i - 1);
    }
}

/// If `name` does not occur, `first_index` misses.
pub proof fn lemma_first_index_none(fields: Seq<Seq<char>>, name: Seq<char>)
    requires
        forall|j: int| 0 <= j < fields.len() ==> fields[j] != name,
    ensures
        first_index(fields, name) is None,
    decreases fields.len(),
{
    if fields.len() > 0 {
        lemma_first_index_none(fields.drop_first(), name);
    }
}

/// The model of the symbol table: each key by its characters.
pub open spec fn symbols_view(t: Seq<(String, u64)>) -> Seq<(Seq<char>, u64)> {
    Seq::new(t.len(), |i: int| (t[i].0@, t[i].1))
}

/// The model of the class table.
pub open spec fn classes_view(t: Seq<(String, Vec<String>)>) -> Seq<(Seq<char>, Seq<Seq<char>>)> {
    Seq::new(t.len(), |i: int| (t[i].0@, t[i].1.deep_view()))
}

/// The model of the object-type table.
pub open spec fn types_view(t: Seq<(String, String)>) -> Seq<(Seq<char>, Seq<char>)> {
    Seq::new(t.len(), |i: int| (t[i].0@, t[i].1@))
}

/// A monotonic counter step: adds one, saturating at the type's limit so the
/// counter never wraps (the namespace is exhausted long before that in any
/// real program).
pub open spec fn bump(c: u64) -> u64 {
    if c < u64::MAX {
        (c + 1) as u64
    } else {
        c
    }
}

/// `n * 8` as a byte offset, saturating at the register width's limit.
pub open spec fn sat_mul8(n: nat) -> u64 {
    if n * 8 <= u64::MAX {
        (n * 8) as u64
    } else {
        u64::MAX
    }
}

/// Saturating addition of a byte count to the running output length.
pub open spec fn sat_addn(a: u64, n: nat) -> u64 {
    if a + n <= u64::MAX {
        (a + n) as u64
    } else {
        u64::MAX
    }
}

/// Appends one instruction to the instruction section, growing the running
/// output length by the instruction's rendered bytes.
pub open spec fn push_text(g: GState, i: InstrV) -> GState {
    GState { text: g.text.push(i), out_bytes: sat_addn(g.out_bytes, instr_bytes(i)), ..g }
}

/// Appends one declaration to the data section, with the same length
/// accounting.
pub open spec fn push_data(g: GState, i: InstrV) -> GState {
    GState { data: g.data.push(i), out_bytes: sat_addn(g.out_bytes, instr_bytes(i)), ..g }
}

/// The byte count of one printed string: its UTF-8 bytes plus the trailing
/// newline, saturating at the register width's limit.
pub open spec fn str_write_len(t: Seq<char>) -> u64 {
    let n = vstd::utf8::encode_utf8(t).len() as usize;
    if n + 1 <= u64::MAX {
        (n + 1) as u64
    } else {
        u64::MAX
    }
}

/// The register a name resolves to: its symbol-table entry, or the default
/// register `x0` when the name was never assigned (soft failure).
pub open spec fn sym_reg(g: GState, name: Seq<char>) -> u64 {
    match assoc_get(g.symbols, name) {
        Some(r) => r,
        None => 0,
    }
}

/// The register holding the runtime-state ("math") object, whose field at
/// byte offset 8 is the pseudo-random seed word; `x12` when no such object
/// was allocated.
pub open spec fn math_reg(g: GState) -> u64 {
    match assoc_get(g.symbols, "math"@) {
        Some(r) => r,
        None => 12,
    }
}

/// The byte offset of `field` within the class of variable `var`: the
/// field's position times the word size. A missing variable, class or field
/// falls back to offset 0 (soft failure).
pub open spec fn field_offset(g: GState, var: Seq<char>, field: Seq<char>) -> u64 {
    match assoc_get(g.obj_types, var) {
        Some(cls) => match assoc_get(g.class_map, cls) {
            Some(fields) => match first_index(fields, field) {
                Some(p) => sat_mul8(p),
                None => 0,
            },
            None => 0,
        },
        None => 0,
    }
}

/// Resolution of a path to a `(register, byte offset)` pair. A one-segment
/// path means "the value is directly in this register" (offset 0); a
/// two-segment path means "load from the address in this register at this
/// offset" — the caller picks the addressing mode by path length, never by
/// offset value.
pub open spec fn path_info(g: GState, path: Seq<Seq<char>>) -> (u64, u64) {
    if path.len() == 0 {
        (0, 0)
    } else {
        let reg = sym_reg(g, path[0]);
        let off = if path.len() > 1 {
            field_offset(g, path[0], path[1])
        } else {
            0
        };
        (reg, off)
    }
}

/// The branch condition lowering a source operator: always the inversion,
/// so the branch skips the body when the source condition fails.
pub open spec fn cond_of(op: CmpOp) -> Cond {
    match op {
        CmpOp::Greater => Cond::Le,
        CmpOp::Less => Cond::Ge,
        CmpOp::Equal => Cond::Ne,
    }
}

/// The instruction loading a path's value into work register `x1`: a load
/// through the base register for a two-segment path, a register move for a
/// bare variable.
pub open spec fn load_operand(reg: u64, off: u64, multi: bool) -> InstrV {
    if multi {
        InstrV::LdrOff { rd: 1, base: reg, off }
    } else {
        InstrV::MovReg { rd: 1, rs: reg }
    }
}

/// The instruction writing work register `x1` back to a path's location.
pub open spec fn store_operand(reg: u64, off: u64, multi: bool) -> InstrV {
    if multi {
        InstrV::StrOff { rs: 1, base: reg, off }
    } else {
        InstrV::MovReg { rd: reg, rs: 1 }
    }
}

/// A mnemonic of the fixed allow-list: the instructions the emitted
/// programs use. A raw block is reformatted so that each of these starts a
/// line of its own.
pub open spec fn is_mnemonic(w: Seq<char>) -> bool {
    ||| w == "mov"@
    ||| w == "ldr"@
    ||| w == "str"@
    ||| w == "add"@
    ||| w == "sub"@
    ||| w == "cmp"@
    ||| w == "mul"@
    ||| w == "udiv"@
    ||| w == "msub"@
    ||| w == "eor"@
    ||| w == "and"@
    ||| w == "mrs"@
    ||| w == "svc"@
    ||| w == "stp"@
    ||| w == "ldp"@
    ||| w == "strb"@
    ||| w == "cbnz"@
    ||| w == "b"@
    ||| w == "b.le"@
    ||| w == "b.ge"@
    ||| w == "b.ne"@
    ||| w == "b.hs"@
    ||| w == "nop"@
}

/// The position a raw-text scan resumes at: a scan always advances past the
/// character it started on and never passes the end, and this guard makes
/// both manifest for the recursion measure (it is the identity whenever
/// they hold).
pub open spec fn scan_next(s: Seq<char>, i: nat, j: nat) -> nat {
    if j <= i {
        i + 1
    } else if j > s.len() {
        s.len()
    } else {
        j
    }
}

/// Raw-instruction reformatting: the text is inserted verbatim, except that
/// a whitespace run followed by a recognised mnemonic is replaced by a line
/// break and the line indent, so multi-instruction blocks on one logical
/// line come out one instruction per line. The leading word is never
/// broken, and nothing else is validated.
pub open spec fn spec_reformat(s: Seq<char>, i: nat) -> Seq<char>
    decreases s.len() - i,
{
    if i >= s.len() {
        Seq::<char>::empty()
    } else if crate::lexer::is_space_char(s[i as int]) {
        let j = scan_next(s, i, space_end(s, i + 1));
        if j < s.len() && is_mnemonic(s.subrange(j as int, word_end(s, j) as int)) {
            "\n    "@ + spec_reformat(s, j)
        } else {
            s.subrange(i as int, j as int) + spec_reformat(s, j)
        }
    } else {
        let j = scan_next(s, i, word_end(s, i + 1));
        s.subrange(i as int, j as int) + spec_reformat(s, j)
    }
}

/// Heap allocation: the variable is bound to a register (its existing one if
/// already bound, else a fresh one), its class is recorded, and — when the
/// class is known — the emitted code copies the heap pointer into the
/// variable's register and advances the heap pointer by the object's size.
/// An unknown class emits nothing (soft failure).
pub open spec fn step_alloc(g: GState, var: Seq<char>, cls: Seq<char>) -> GState {
    let (reg, g1) = match assoc_get(g.symbols, var) {
        Some(r) => (r, g),
        None => (
            g.reg_count,
            GState {
                symbols: g.symbols.push((var, g.reg_count)),
                reg_count: bump(g.reg_count),
                ..g
            },
        ),
    };
    let g2 = GState { obj_types: assoc_set(g1.obj_types, var, cls), ..g1 };
    match assoc_get(g.class_map, cls) {
        Some(fields) => push_text(
            push_text(g2, InstrV::MovReg { rd: reg, rs: 20 }),
            InstrV::AddImm { rd: 20, rn: 20, imm: sat_mul8(fields.len()) },
        ),
        None => g2,
    }
}

/// The meaning of generating one statement: how it transforms the
/// generator's state and what it appends to the output buffers.
pub open spec fn step_stmt(g: GState, s: Stmt) -> GState
    decreases s,
{
    match s {
        Stmt::LocalAssign { name, value } => {
            match assoc_get(g.symbols, name@) {
                Some(r) => push_text(g, InstrV::MovImm { rd: r, imm: value }),
                None => GState {
                    symbols: g.symbols.push((name@, g.reg_count)),
                    reg_count: bump(g.reg_count),
                    ..push_text(g, InstrV::MovImm { rd: g.reg_count, imm: value })
                },
            }
        },
        Stmt::ClassDef { name, fields } => GState {
            class_map: assoc_set(g.class_map, name@, fields.deep_view()),
            ..g
        },
        Stmt::HeapAlloc { var_name, class_name } => step_alloc(g, var_name@, class_name@),
        Stmt::FieldAssign { path, value } => {
            let (reg, off) = path_info(g, path.deep_view());
            push_text(
                push_text(g, InstrV::MovImm { rd: 1, imm: value }),
                store_operand(reg, off, path.len() > 1),
            )
        },
        Stmt::FieldMath { path, op, rhs_val } => {
            let (reg, off) = path_info(g, path.deep_view());
            let math = match op {
                MathOp::Sub => InstrV::SubImm { rd: 1, rn: 1, imm: rhs_val },
                MathOp::Add => InstrV::AddImm { rd: 1, rn: 1, imm: rhs_val },
            };
            push_text(
                push_text(push_text(g, load_operand(reg, off, path.len() > 1)), math),
                store_operand(reg, off, path.len() > 1),
            )
        },
        Stmt::PrintVar { name } => {
            match assoc_get(g.symbols, name@) {
                Some(r) => push_text(g, InstrV::PrintBlock { src: r, id: g.out_bytes }),
                None => g,
            }
        },
        Stmt::PrintField { path } => {
            let (reg, off) = path_info(g, path.deep_view());
            let g1 = push_text(g, InstrV::LdrOff { rd: 2, base: reg, off });
            push_text(g1, InstrV::PrintBlock { src: 2, id: g1.out_bytes })
        },
        Stmt::PrintString { text } => GState {
            label_count: bump(g.label_count),
            ..push_text(
                push_data(g, InstrV::StrData { id: g.label_count, text: text@ }),
                InstrV::WriteStr { id: g.label_count, len: str_write_len(text@) },
            )
        },
        Stmt::IfStmt { path, op, rhs_val, body } => {
            let id = g.label_count;
            let (reg, off) = path_info(g, path.deep_view());
            let g1 = GState {
                label_count: bump(g.label_count),
                ..push_text(
                    push_text(
                        push_text(
                            push_text(g, load_operand(reg, off, path.len() > 1)),
                            InstrV::MovImm { rd: 2, imm: rhs_val },
                        ),
                        InstrV::CmpReg { rn: 1, rm: 2 },
                    ),
                    InstrV::BCond { cond: cond_of(op), target: Label::If(id) },
                )
            };
            let g2 = step_stmts(g1, body@);
            push_text(g2, InstrV::LabelDef { target: Label::If(id) })
        },
        Stmt::WhileStmt { path, op, rhs_val, body } => {
            let id = g.label_count;
            let (reg, off) = path_info(g, path.deep_view());
            let g1 = GState {
                label_count: bump(g.label_count),
                ..push_text(
                    push_text(
                        push_text(
                            push_text(g, InstrV::LabelDef { target: Label::Loop(id) }),
                            load_operand(reg, off, path.len() > 1),
                        ),
                        InstrV::CmpImm { rn: 1, imm: rhs_val },
                    ),
                    InstrV::BCond { cond: cond_of(op), target: Label::Exit(id) },
                )
            };
            let g2 = step_stmts(g1, body@);
            push_text(
                push_text(g2, InstrV::B { target: Label::Loop(id) }),
                InstrV::LabelDef { target: Label::Exit(id) },
            )
        },
        Stmt::ProbIf { chance, body } => {
            let id = g.label_count;
            let g1 = GState {
                label_count: bump(g.label_count),
                ..push_text(g, InstrV::ProbHeader { math_reg: math_reg(g), id, chance })
            };
            let g2 = step_stmts(g1, body@);
            push_text(g2, InstrV::LabelDef { target: Label::If(id) })
        },
        Stmt::Rest { seconds } => push_text(g, InstrV::RestBlock { seconds }),
        Stmt::RawInstruction { text } => push_text(
            g,
            InstrV::Raw { text: spec_reformat(text@, 0) },
        ),
    }
}

/// Folding [`step_stmt`] over a statement sequence, front to back.
pub open spec fn step_stmts(g: GState, ss: Seq<Stmt>) -> GState
    decreases ss,
{
    if ss.len() == 0 {
        g
    } else {
        step_stmt(step_stmts(g, ss.drop_last()), ss.last())
    }
}

/// Generating one more statement extends the fold by one step.
pub proof fn lemma_step_stmts_snoc(g: GState, ss: Seq<Stmt>, s: Stmt)
    ensures
        step_stmts(g, ss.push(s)) == step_stmt(step_stmts(g, ss), s),
{
    assert(ss.push(s).drop_last() =~= ss);
    assert(ss.push(s).last() == s);
}

/// The meaning of a whole run: all statements, then the fixed exit sequence.
pub open spec fn step_program(g: GState, ast: Seq<Stmt>) -> GState {
    let g1 = step_stmts(g, ast);
    push_text(g1, InstrV::Epilogue)
}

/// The complete program text: every data-section declaration first, then the
/// instruction section.
pub open spec fn program_text(g: GState) -> Seq<char> {
    code_text(g.data) + code_text(g.text)
}

/// The state a fresh generator starts in: empty tables, the entry sequence
/// already in the instruction buffer, registers handed out from 12 (the
/// block below is reserved for the runtime), labels from 0.
pub open spec fn init_gstate() -> GState {
    GState {
        data: Seq::<InstrV>::empty(),
        text: seq![InstrV::Prologue],
        symbols: Seq::<(Seq<char>, u64)>::empty(),
        class_map: Seq::<(Seq<char>, Seq<Seq<char>>)>::empty(),
        obj_types: Seq::<(Seq<char>, Seq<char>)>::empty(),
        reg_count: 12,
        label_count: 0,
        out_bytes: sat_addn(0, instr_bytes(InstrV::Prologue)),
    }
}

/// The one-pass code generator.
pub struct Generator {
    data: Vec<Instr>,
    text: Vec<Instr>,
    symbols: Vec<(String, u64)>,
    class_map: Vec<(String, Vec<String>)>,
    obj_types: Vec<(String, String)>,
    reg_count: u64,
    label_count: u64,
    out_bytes: u64,
}

impl View for Generator {
    type V = GState;

    closed spec fn view(&self) -> GState {
        GState {
            data: self.data.deep_view(),
            text: self.text.deep_view(),
            symbols: symbols_view(self.symbols@),
            class_map: classes_view(self.class_map@),
            obj_types: types_view(self.obj_types@),
            reg_count: self.reg_count,
            label_count: self.label_count,
            out_bytes: self.out_bytes,
        }
    }
}

impl Generator {
    /// A fresh generator, with the entry sequence already emitted.
    pub fn new() -> (g: Generator)
        ensures
            g@ == init_gstate(),
    {
        let mut scratch = String::new();
        let prologue = Instr::Prologue;
        render_instr(&prologue, &mut scratch);
        let b = scratch.as_str().len();
        let mut text: Vec<Instr> = Vec::new();
        text.push(prologue);
        let g = Generator {
            data: Vec::new(),
            text,
            symbols: Vec::new(),
            class_map: Vec::new(),
            obj_types: Vec::new(),
            reg_count: 12,
            label_count: 0,
            out_bytes: b as u64,
        };
        proof {
            reveal(crate::instr::instr_bytes);
            assert(scratch@ =~= crate::instr::instr_text(InstrV::Prologue));
            assert(b as nat == instr_bytes(InstrV::Prologue));
            assert(g@ =~~= init_gstate());
        }
        g
    }

    fn emit(&mut self, i: Instr)
        ensures
            final(self)@ == push_text(old(self)@, i.deep_view()),
    {
        let mut scratch = String::new();
        render_instr(&i, &mut scratch);
        let b = scratch.as_str().len();
        if (b as u64) <= u64::MAX - self.out_bytes {
            self.out_bytes = self.out_bytes + b as u64;
        } else {
            self.out_bytes = u64::MAX;
        }
        self.text.push(i);
        proof {
            reveal(crate::instr::instr_bytes);
            assert(scratch@ =~= crate::instr::instr_text(i.deep_view()));
            assert(b as nat == instr_bytes(i.deep_view()));
            assert(self.text.deep_view() =~= old(self).text.deep_view().push(i.deep_view()));
            assert(self@ =~~= push_text(old(self)@, i.deep_view()));
        }
    }

    fn emit_data(&mut self, i: Instr)
        ensures
            final(self)@ == push_data(old(self)@, i.deep_view()),
    {
        let mut scratch = String::new();
        render_instr(&i, &mut scratch);
        let b = scratch.as_str().len();
        if (b as u64) <= u64::MAX - self.out_bytes {
            self.out_bytes = self.out_bytes + b as u64;
        } else {
            self.out_bytes = u64::MAX;
        }
        self.data.push(i);
        proof {
            reveal(crate::instr::instr_bytes);
            assert(scratch@ =~= crate::instr::instr_text(i.deep_view()));
            assert(b as nat == instr_bytes(i.deep_view()));
            assert(self.data.deep_view() =~= old(self).data.deep_view().push(i.deep_view()));
            assert(self@ =~~= push_data(old(self)@, i.deep_view()));
        }
    }

    fn next_label(&mut self) -> (id: u64)
        ensures
            id == old(self)@.label_count,
            final(self)@ == (GState { label_count: bump(old(self)@.label_count), ..old(self)@ }),
    {
        let id = self.label_count;
        if self.label_count < u64::MAX {
            self.label_count = self.label_count + 1;
        }
        proof {
            assert(self@ =~~= GState { label_count: bump(old(self)@.label_count), ..old(self)@ });
        }
        id
    }

    fn sym_lookup(&self, name: &String) -> (r: Option<u64>)
        ensures
            r == assoc_get(self@.symbols, name@),
    {
        let ghost t = self@.symbols;
        let mut i: usize = 0;
        while i < self.symbols.len()
            invariant
                i <= self.symbols@.len(),
                t == symbols_view(self.symbols@),
                forall|j: int| 0 <= j < i ==> t[j].0 != name@,
            decreases self.symbols@.len() - i,
        {
            if self.symbols[i].0 == *name {
                proof {
                    lemma_assoc_get_at(t, name@, i as int);
                }
                return Some(self.symbols[i].1);
            }
            i += 1;
        }
        proof {
            lemma_assoc_get_none(t, name@);
        }
        None
    }

    /// Binds `name` to a register: its existing one if already bound, else
    /// the next free register index.
    fn sym_alloc(&mut self, name: &String) -> (r: u64)
        ensures
            (match assoc_get(old(self)@.symbols, name@) {
                Some(r0) => r == r0 && final(self)@ == old(self)@,
                None => r == old(self)@.reg_count && final(self)@ == (GState {
                    symbols: old(self)@.symbols.push((name@, r)),
                    reg_count: bump(old(self)@.reg_count),
                    ..old(self)@
                }),
            }),
    {
        match self.sym_lookup(name) {
            Some(r) => r,
            None => {
                let r = self.reg_count;
                self.symbols.push((name.clone(), r));
                if self.reg_count < u64::MAX {
                    self.reg_count = self.reg_count + 1;
                }
                proof {
                    assert(symbols_view(self.symbols@) =~= old(self)@.symbols.push((name@, r)));
                    assert(self@ =~~= GState {
                        symbols: old(self)@.symbols.push((name@, r)),
                        reg_count: bump(old(self)@.reg_count),
                        ..old(self)@
                    });
                }
                r
            },
        }
    }

    fn type_lookup<'a>(&'a self, name: &String) -> (r: Option<&'a String>)
        ensures
            match r {
                Some(v) => assoc_get(self@.obj_types, name@) == Some(v@),
                None => assoc_get(self@.obj_types, name@) is None,
            },
    {
        let ghost t = self@.obj_types;
        let mut i: usize = 0;
        while i < self.obj_types.len()
            invariant
                i <= self.obj_types@.len(),
                t == types_view(self.obj_types@),
                forall|j: int| 0 <= j < i ==> t[j].0 != name@,
            decreases self.obj_types@.len() - i,
        {
            if self.obj_types[i].0 == *name {
                proof {
                    lemma_assoc_get_at(t, name@, i as int);
                }
                return Some(&self.obj_types[i].1);
            }
            i += 1;
        }
        proof {
            lemma_assoc_get_none(t, name@);
        }
        None
    }

    fn class_lookup<'a>(&'a self, name: &String) -> (r: Option<&'a Vec<String>>)
        ensures
            match r {
                Some(v) => assoc_get(self@.class_map, name@) == Some(v.deep_view()),
                None => assoc_get(self@.class_map, name@) is None,
            },
    {
        let ghost t = self@.class_map;
        let mut i: usize = 0;
        while i < self.class_map.len()
            invariant
                i <= self.class_map@.len(),
                t == classes_view(self.class_map@),
                forall|j: int| 0 <= j < i ==> t[j].0 != name@,
            decreases self.class_map@.len() - i,
        {
            if self.class_map[i].0 == *name {
                proof {
                    lemma_assoc_get_at(t, name@, i as int);
                }
                return Some(&self.class_map[i].1);
            }
            i += 1;
        }
        proof {
            lemma_assoc_get_none(t, name@);
        }
        None
    }

    /// Records `name` as the class of variable `var`.
    fn type_set(&mut self, var: &String, name: &String)
        ensures
            final(self)@ == (GState {
                obj_types: assoc_set(old(self)@.obj_types, var@, name@),
                ..old(self)@
            }),
    {
        let ghost t = self@.obj_types;
        let mut i: usize = 0;
        while i < self.obj_types.len()
            invariant
                i <= self.obj_types@.len(),
                t == types_view(self.obj_types@),
                self@ == old(self)@,
                forall|j: int| 0 <= j < i ==> t[j].0 != var@,
            decreases self.obj_types@.len() - i,
        {
            if self.obj_types[i].0 == *var {
                self.obj_types.remove(i);
                self.obj_types.insert(i, (var.clone(), name.clone()));
                proof {
                    lemma_assoc_set_update(t, var@, name@, i as int);
                    assert(types_view(self.obj_types@) =~= t.update(i as int, (var@, name@)));
                    assert(self@ =~~= GState {
                        obj_types: assoc_set(old(self)@.obj_types, var@, name@),
                        ..old(self)@
                    });
                }
                return ;
            }
            i += 1;
        }
        self.obj_types.push((var.clone(), name.clone()));
        proof {
            lemma_assoc_set_append(t, var@, name@);
            assert(types_view(self.obj_types@) =~= t.push((var@, name@)));
            assert(self@ =~~= GState {
                obj_types: assoc_set(old(self)@.obj_types, var@, name@),
                ..old(self)@
            });
        }
    }

    /// Records the ordered field list of class `name`.
    fn class_set(&mut self, name: &String, fields: &Vec<String>)
        ensures
            final(self)@ == (GState {
                class_map: assoc_set(old(self)@.class_map, name@, fields.deep_view()),
                ..old(self)@
            }),
    {
        let ghost t = self@.class_map;
        let f2 = fields.clone();
        proof {
            assert(f2.deep_view() =~= fields.deep_view());
        }
        let mut i: usize = 0;
        while i < self.class_map.len()
            invariant
                i <= self.class_map@.len(),
                t == classes_view(self.class_map@),
                self@ == old(self)@,
                f2.deep_view() == fields.deep_view(),
                forall|j: int| 0 <= j < i ==> t[j].0 != name@,
            decreases self.class_map@.len() - i,
        {
            if self.class_map[i].0 == *name {
                self.class_map.remove(i);
                self.class_map.insert(i, (name.clone(), f2));
                proof {
                    lemma_assoc_set_update(t, name@, fields.deep_view(), i as int);
                    assert(classes_view(self.class_map@) =~= t.update(
                        i as int,
                        (name@, fields.deep_view()),
                    ));
                    assert(self@ =~~= GState {
                        class_map: assoc_set(old(self)@.class_map, name@, fields.deep_view()),
                        ..old(self)@
                    });
                }
                return ;
            }
            i += 1;
        }
        self.class_map.push((name.clone(), f2));
        proof {
            lemma_assoc_set_append(t, name@, fields.deep_view());
            assert(classes_view(self.class_map@) =~= t.push((name@, fields.deep_view())));
            assert(self@ =~~= GState {
                class_map: assoc_set(old(self)@.class_map, name@, fields.deep_view()),
                ..old(self)@
            });
        }
    }

    /// Resolves a path to a `(register, byte offset)` pair, falling back to
    /// register `x0` and offset 0 on any failed lookup.
    pub fn get_path_info(&self, path: &Vec<String>) -> (r: (u64, u64))
        ensures
            r == path_info(self@, path.deep_view()),
    {
        if path.len() == 0 {
            return (0, 0);
        }
        let reg = match self.sym_lookup(&path[0]) {
            Some(r) => r,
            None => 0,
        };
        let mut offset: u64 = 0;
        if path.len() > 1 {
            if let Some(cls) = self.type_lookup(&path[0]) {
                if let Some(fields) = self.class_lookup(cls) {
                    if let Some(p) = Self::find_pos(fields, &path[1]) {
                        offset = if (p as u64) <= u64::MAX / 8 {
                            (p as u64) * 8
                        } else {
                            u64::MAX
                        };
                    }
                }
            }
        }
        (reg, offset)
    }

    fn find_pos(fields: &Vec<String>, name: &String) -> (r: Option<usize>)
        ensures
            match r {
                Some(p) => first_index(fields.deep_view(), name@) == Some(p as nat),
                None => first_index(fields.deep_view(), name@) is None,
            },
    {
        let ghost fv = fields.deep_view();
        let mut i: usize = 0;
        while i < fields.len()
            invariant
                i <= fields@.len(),
                fv == fields.deep_view(),
                forall|j: int| 0 <= j < i ==> fv[j] != name@,
            decreases fields@.len() - i,
        {
            if fields[i] == *name {
                proof {
                    lemma_first_index_at(fv, name@, i as int);
                }
                return Some(i);
            }
            i += 1;
        }
        proof {
            lemma_first_index_none(fv, name@);
        }
        None
    }

    fn cond_for(op: &CmpOp) -> (c: Cond)
        ensures
            c == cond_of(*op),
    {
        match op {
            CmpOp::Greater => Cond::Le,
            CmpOp::Less => Cond::Ge,
            CmpOp::Equal => Cond::Ne,
        }
    }

    fn word_is_mnemonic(w: &str) -> (r: bool)
        ensures
            r == is_mnemonic(w@),
    {
        let t = w.to_owned();
        t == String::from_str("mov") || t == String::from_str("ldr") || t == String::from_str(
            "str",
        ) || t == String::from_str("add") || t == String::from_str("sub") || t == String::from_str(
            "cmp",
        ) || t == String::from_str("mul") || t == String::from_str("udiv") || t == String::from_str(
            "msub",
        ) || t == String::from_str("eor") || t == String::from_str("and") || t == String::from_str(
            "mrs",
        ) || t == String::from_str("svc") || t == String::from_str("stp") || t == String::from_str(
            "ldp",
        ) || t == String::from_str("strb") || t == String::from_str("cbnz") || t
            == String::from_str("b") || t == String::from_str("b.le") || t == String::from_str(
            "b.ge",
        ) || t == String::from_str("b.ne") || t == String::from_str("b.hs") || t
            == String::from_str("nop")
    }

    fn raw_space_at(s: &str, n: usize, i: usize) -> (r: bool)
        requires
            n == s@.len(),
        ensures
            r == (i < s@.len() && crate::lexer::is_space_char(s@[i as int])),
    {
        if i < n {
            let c = s.get_char(i);
            c == ' ' || c == '\t' || c == '\n' || c == '\r'
        } else {
            false
        }
    }

    /// Reformats a raw block exactly as [`spec_reformat`] describes.
    #[verifier::loop_isolation(false)]
    #[verifier::rlimit(100)]
    fn reformat_raw(text: &str) -> (r: String)
        ensures
            r@ == spec_reformat(text@, 0),
    {
        let ghost s = text@;
        let n = text.unicode_len();
        let mut out = String::new();
        let mut i: usize = 0;
        while i < n
            invariant
                n == s.len(),
                i <= n,
                spec_reformat(s, 0) =~= out@ + spec_reformat(s, i as nat),
            decreases n - i,
        {
            let ghost o0 = out@;
            let ghost p = i as nat;
            if Self::raw_space_at(text, n, i) {
                let mut j: usize = i + 1;
                while Self::raw_space_at(text, n, j)
                    invariant
                        n == s.len(),
                        i < j <= n,
                        space_end(s, j as nat) == space_end(s, p + 1),
                    decreases n - j,
                {
                    j = j + 1;
                }
                proof {
                    assert(space_end(s, j as nat) == j as nat);
                    assert(scan_next(s, p, space_end(s, p + 1)) == j as nat);
                }
                let mut k: usize = j;
                while k < n && !Self::raw_space_at(text, n, k)
                    invariant
                        n == s.len(),
                        j <= k <= n,
                        word_end(s, k as nat) == word_end(s, j as nat),
                    decreases n - k,
                {
                    k = k + 1;
                }
                proof {
                    assert(word_end(s, k as nat) == k as nat);
                }
                let mnem = if j < n {
                    let w = text.substring_char(j, k);
                    Self::word_is_mnemonic(w)
                } else {
                    false
                };
                if mnem {
                    out.append("\n    ");
                } else {
                    let run = text.substring_char(i, j);
                    out.append(run);
                }
                i = j;
                proof {
                    assert(spec_reformat(s, 0) =~= out@ + spec_reformat(s, i as nat));
                }
            } else {
                let mut j: usize = i + 1;
                while j < n && !Self::raw_space_at(text, n, j)
                    invariant
                        n == s.len(),
                        i < j <= n,
                        word_end(s, j as nat) == word_end(s, p + 1),
                    decreases n - j,
                {
                    j = j + 1;
                }
                proof {
                    assert(word_end(s, j as nat) == j as nat);
                    assert(scan_next(s, p, word_end(s, p + 1)) == j as nat);
                }
                let w = text.substring_char(i, j);
                out.append(w);
                i = j;
                proof {
                    assert(spec_reformat(s, 0) =~= out@ + spec_reformat(s, i as nat));
                }
            }
        }
        proof {
            assert(spec_reformat(s, i as nat) =~= Seq::<char>::empty());
            assert(spec_reformat(s, 0) =~= out@);
        }
        out
    }

    /// Emits the decimal print loop for the value of register `x{reg}`. Its
    /// internal loop label is drawn from the current output length, so
    /// successive print loops get distinct labels; only the output grows.
    pub fn write_print_loop(&mut self, reg: u64)
        ensures
            final(self)@ == push_text(
                old(self)@,
                InstrV::PrintBlock { src: reg, id: old(self)@.out_bytes },
            ),
    {
        let id = self.out_bytes;
        self.emit(Instr::PrintBlock { src: reg, id });
    }

    /// Generates the code of one statement, transforming the state exactly
    /// as [`step_stmt`] describes.
    #[verifier::loop_isolation(false)]
    pub fn gen_stmt(&mut self, stmt: &Stmt)
        ensures
            final(self)@ == step_stmt(old(self)@, *stmt),
        decreases *stmt,
    {
        let ghost g0 = self@;
        match stmt {
            Stmt::LocalAssign { name, value } => {
                let reg = self.sym_alloc(name);
                self.emit(Instr::MovImm { rd: reg, imm: *value });
                proof {
                    assert(self@ =~~= step_stmt(g0, *stmt));
                }
            },
            Stmt::ClassDef { name, fields } => {
                self.class_set(name, fields);
                proof {
                    assert(self@ =~~= step_stmt(g0, *stmt));
                }
            },
            Stmt::HeapAlloc { var_name, class_name } => {
                let reg = self.sym_alloc(var_name);
                self.type_set(var_name, class_name);
                let size_opt: Option<u64> = match self.class_lookup(class_name) {
                    Some(f) => {
                        let n = f.len();
                        Some(
                            if (n as u64) <= u64::MAX / 8 {
                                (n as u64) * 8
                            } else {
                                u64::MAX
                            },
                        )
                    },
                    None => None,
                };
                if let Some(sz) = size_opt {
                    self.emit(Instr::MovReg { rd: reg, rs: 20 });
                    self.emit(Instr::AddImm { rd: 20, rn: 20, imm: sz });
                }
                proof {
                    assert(self@ =~~= step_stmt(g0, *stmt));
                }
            },
            Stmt::FieldAssign { path, value } => {
                let (reg, off) = self.get_path_info(path);
                self.emit(Instr::MovImm { rd: 1, imm: *value });
                if path.len() > 1 {
                    self.emit(Instr::StrOff { rs: 1, base: reg, off });
                } else {
                    self.emit(Instr::MovReg { rd: reg, rs: 1 });
                }
                proof {
                    assert(self@ =~~= step_stmt(g0, *stmt));
                }
            },
            Stmt::FieldMath { path, op, rhs_val } => {
                let (reg, off) = self.get_path_info(path);
                if path.len() > 1 {
                    self.emit(Instr::LdrOff { rd: 1, base: reg, off });
                } else {
                    self.emit(Instr::MovReg { rd: 1, rs: reg });
                }
                match op {
                    MathOp::Sub => self.emit(Instr::SubImm { rd: 1, rn: 1, imm: *rhs_val }),
                    MathOp::Add => self.emit(Instr::AddImm { rd: 1, rn: 1, imm: *rhs_val }),
                }
                if path.len() > 1 {
                    self.emit(Instr::StrOff { rs: 1, base: reg, off });
                } else {
                    self.emit(Instr::MovReg { rd: reg, rs: 1 });
                }
                proof {
                    assert(self@ =~~= step_stmt(g0, *stmt));
                }
            },
            Stmt::PrintVar { name } => {
                if let Some(reg) = self.sym_lookup(name) {
                    self.write_print_loop(reg);
                }
                proof {
                    assert(self@ =~~= step_stmt(g0, *stmt));
                }
            },
            Stmt::PrintField { path } => {
                let (reg, off) = self.get_path_info(path);
                self.emit(Instr::LdrOff { rd: 2, base: reg, off });
                self.write_print_loop(2);
                proof {
                    assert(self@ =~~= step_stmt(g0, *stmt));
                }
            },
            Stmt::PrintString { text } => {
                let id = self.next_label();
                let l = text.as_str().len();
                let len64: u64 = if (l as u64) < u64::MAX {
                    (l as u64) + 1
                } else {
                    u64::MAX
                };
                self.emit_data(Instr::StrData { id, text: text.clone() });
                self.emit(Instr::WriteStr { id, len: len64 });
                proof {
                    assert(self@ =~~= step_stmt(g0, *stmt));
                }
            },
            Stmt::IfStmt { path, op, rhs_val, body } => {
                let id = self.next_label();
                let (reg, off) = self.get_path_info(path);
                if path.len() > 1 {
                    self.emit(Instr::LdrOff { rd: 1, base: reg, off });
                } else {
                    self.emit(Instr::MovReg { rd: 1, rs: reg });
                }
                self.emit(Instr::MovImm { rd: 2, imm: *rhs_val });
                self.emit(Instr::CmpReg { rn: 1, rm: 2 });
                self.emit(Instr::BCond { cond: Self::cond_for(op), target: Label::If(id) });
                let ghost g1 = self@;
                proof {
                    let (regs, offs) = path_info(g0, path.deep_view());
                    assert(g1 =~~= (GState {
                        label_count: bump(g0.label_count),
                        ..push_text(
                            push_text(
                                push_text(
                                    push_text(g0, load_operand(regs, offs, path@.len() > 1)),
                                    InstrV::MovImm { rd: 2, imm: *rhs_val },
                                ),
                                InstrV::CmpReg { rn: 1, rm: 2 },
                            ),
                            InstrV::BCond { cond: cond_of(*op), target: Label::If(id) },
                        )
                    }));
                }
                let mut k: usize = 0;
                while k < body.len()
                    invariant
                        k <= body@.len(),
                        self@ == step_stmts(g1, body@.take(k as int)),
                    decreases body@.len() - k,
                {
                    proof {
                        assert(decreases_to!(*stmt => *body));
                        assert(decreases_to!(*body => body@));
                        assert(decreases_to!(body@ => body@[k as int]));
                    }
                    self.gen_stmt(&body[k]);
                    proof {
                        lemma_step_stmts_snoc(g1, body@.take(k as int), body@[k as int]);
                        assert(body@.take(k as int).push(body@[k as int]) =~= body@.take(
                            k as int + 1,
                        ));
                    }
                    k += 1;
                }
                proof {
                    assert(body@.take(body@.len() as int) =~= body@);
                }
                self.emit(Instr::LabelDef { target: Label::If(id) });
                proof {
                    assert(self@ =~~= step_stmt(g0, *stmt));
                }
            },
            Stmt::WhileStmt { path, op, rhs_val, body } => {
                let id = self.next_label();
                self.emit(Instr::LabelDef { target: Label::Loop(id) });
                let (reg, off) = self.get_path_info(path);
                if path.len() > 1 {
                    self.emit(Instr::LdrOff { rd: 1, base: reg, off });
                } else {
                    self.emit(Instr::MovReg { rd: 1, rs: reg });
                }
                self.emit(Instr::CmpImm { rn: 1, imm: *rhs_val });
                self.emit(Instr::BCond { cond: Self::cond_for(op), target: Label::Exit(id) });
                let ghost g1 = self@;
                proof {
                    let (regs, offs) = path_info(g0, path.deep_view());
                    assert(g1 =~~= (GState {
                        label_count: bump(g0.label_count),
                        ..push_text(
                            push_text(
                                push_text(
                                    push_text(g0, InstrV::LabelDef { target: Label::Loop(id) }),
                                    load_operand(regs, offs, path@.len() > 1),
                                ),
                                InstrV::CmpImm { rn: 1, imm: *rhs_val },
                            ),
                            InstrV::BCond { cond: cond_of(*op), target: Label::Exit(id) },
                        )
                    }));
                }
                let mut k: usize = 0;
                while k < body.len()
                    invariant
                        k <= body@.len(),
                        self@ == step_stmts(g1, body@.take(k as int)),
                    decreases body@.len() - k,
                {
                    proof {
                        assert(decreases_to!(*stmt => *body));
                        assert(decreases_to!(*body => body@));
                        assert(decreases_to!(body@ => body@[k as int]));
                    }
                    self.gen_stmt(&body[k]);
                    proof {
                        lemma_step_stmts_snoc(g1, body@.take(k as int), body@[k as int]);
                        assert(body@.take(k as int).push(body@[k as int]) =~= body@.take(
                            k as int + 1,
                        ));
                    }
                    k += 1;
                }
                proof {
                    assert(body@.take(body@.len() as int) =~= body@);
                }
                self.emit(Instr::B { target: Label::Loop(id) });
                self.emit(Instr::LabelDef { target: Label::Exit(id) });
                proof {
                    assert(self@ =~~= step_stmt(g0, *stmt));
                }
            },
            Stmt::ProbIf { chance, body } => {
                let key = String::from_str("math");
                let math = match self.sym_lookup(&key) {
                    Some(r) => r,
                    None => 12,
                };
                let id = self.next_label();
                self.emit(Instr::ProbHeader { math_reg: math, id, chance: *chance });
                let ghost g1 = self@;
                proof {
                    assert(g1 =~~= (GState {
                        label_count: bump(g0.label_count),
                        ..push_text(
                            g0,
                            InstrV::ProbHeader { math_reg: math_reg(g0), id, chance: *chance },
                        )
                    }));
                }
                let mut k: usize = 0;
                while k < body.len()
                    invariant
                        k <= body@.len(),
                        self@ == step_stmts(g1, body@.take(k as int)),
                    decreases body@.len() - k,
                {
                    proof {
                        assert(decreases_to!(*stmt => *body));
                        assert(decreases_to!(*body => body@));
                        assert(decreases_to!(body@ => body@[k as int]));
                    }
                    self.gen_stmt(&body[k]);
                    proof {
                        lemma_step_stmts_snoc(g1, body@.take(k as int), body@[k as int]);
                        assert(body@.take(k as int).push(body@[k as int]) =~= body@.take(
                            k as int + 1,
                        ));
                    }
                    k += 1;
                }
                proof {
                    assert(body@.take(body@.len() as int) =~= body@);
                }
                self.emit(Instr::LabelDef { target: Label::If(id) });
                proof {
                    assert(self@ =~~= step_stmt(g0, *stmt));
                }
            },
            Stmt::Rest { seconds } => {
                self.emit(Instr::RestBlock { seconds: *seconds });
                proof {
                    assert(self@ =~~= step_stmt(g0, *stmt));
                }
            },
            Stmt::RawInstruction { text } => {
                let t = Self::reformat_raw(text.as_str());
                self.emit(Instr::Raw { text: t });
                proof {
                    assert(self@ =~~= step_stmt(g0, *stmt));
                }
            },
        }
    }

    /// Generates the complete program for `ast`: every statement in order,
    /// then the exit sequence, and returns the rendered text — data section
    /// first, instruction section after.
    pub fn generate(&mut self, ast: Vec<Stmt>) -> (out: String)
        ensures
            final(self)@ == step_program(old(self)@, ast@),
            out@ == program_text(final(self)@),
    {
        let ghost g0 = self@;
        let mut k: usize = 0;
        while k < ast.len()
            invariant
                k <= ast@.len(),
                self@ == step_stmts(g0, ast@.take(k as int)),
            decreases ast@.len() - k,
        {
            self.gen_stmt(&ast[k]);
            proof {
                lemma_step_stmts_snoc(g0, ast@.take(k as int), ast@[k as int]);
                assert(ast@.take(k as int).push(ast@[k as int]) =~= ast@.take(k as int + 1));
            }
            k += 1;
        }
        proof {
            assert(ast@.take(ast@.len() as int) =~= ast@);
        }
        self.emit(Instr::Epilogue);
        proof {
            assert(self@ =~~= step_program(g0, ast@));
        }
        let mut out = String::new();
        render_code(&self.data, &mut out);
        render_code(&self.text, &mut out);
        proof {
            assert(out@ =~= program_text(self@));
        }
        out
    }
}


/// The label counter value a label carries, whatever its kind.
pub open spec fn label_id(l: Label) -> u64 {
    match l {
        Label::If(id) => id,
        Label::Loop(id) => id,
        Label::Exit(id) => id,
    }
}

/// The counter-allocated label ids an instruction mentions: branch targets,
/// label definitions, the sampler preamble's internal label and the data
/// labels. The decimal print loop's `.Lp` label is keyed by output position,
/// a namespace of its own, and is not counted here.
pub open spec fn instr_label_ids(i: InstrV) -> Set<u64> {
    match i {
        InstrV::BCond { cond, target } => set![label_id(target)],
        InstrV::B { target } => set![label_id(target)],
        InstrV::LabelDef { target } => set![label_id(target)],
        InstrV::ProbHeader { math_reg, id, chance } => set![id],
        InstrV::StrData { id, text } => set![id],
        InstrV::WriteStr { id, len } => set![id],
        _ => Set::<u64>::empty(),
    }
}

/// An upper bound on how many label ids generating one statement allocates.
pub open spec fn label_demand(s: Stmt) -> nat
    decreases s,
{
    match s {
        Stmt::PrintString { text } => 1,
        Stmt::IfStmt { path, op, rhs_val, body } => 1 + seq_label_demand(body@),
        Stmt::WhileStmt { path, op, rhs_val, body } => 1 + seq_label_demand(body@),
        Stmt::ProbIf { chance, body } => 1 + seq_label_demand(body@),
        _ => 0,
    }
}

/// An upper bound on how many label ids a statement sequence allocates.
pub open spec fn seq_label_demand(ss: Seq<Stmt>) -> nat
    decreases ss,
{
    if ss.len() == 0 {
        0
    } else {
        seq_label_demand(ss.drop_last()) + label_demand(ss.last())
    }
}

/// The label-freshness law for one statement: the label counter grows by
/// exactly one per control construct or data label lowered (nested ones
/// included), the code already emitted is untouched, and every label id in
/// the newly emitted code lies in the half-open range the counter advanced
/// over. Since each control construct draws its id from this global counter,
/// the labels of nested constructs and of any two separately lowered
/// constructs are distinct, and ids grow monotonically in allocation order
/// — for a statement with `n` nested control blocks, `n` distinct labels.
#[verifier::rlimit(100)]
pub proof fn lemma_labels_fresh(g: GState, s: Stmt)
    requires
        g.label_count + label_demand(s) <= u64::MAX,
    ensures
        ({
            let g2 = step_stmt(g, s);
            &&& g.label_count <= g2.label_count
            &&& g2.label_count == g.label_count + label_demand(s)
            &&& g.text.len() <= g2.text.len()
            &&& forall|j: int| 0 <= j < g.text.len() ==> g2.text[j] == g.text[j]
            &&& forall|j: int, id: u64|
                g.text.len() <= j < g2.text.len() && #[trigger] instr_label_ids(g2.text[j]).contains(
                    id,
                ) ==> g.label_count <= id < g2.label_count
        }),
    decreases s,
{
    broadcast use vstd::set::group_set_axioms;

    let g2 = step_stmt(g, s);
    match s {
        Stmt::IfStmt { path, op, rhs_val, body } => {
            let id = g.label_count;
            let (regv, off) = path_info(g, path.deep_view());
            let g1 = GState {
                label_count: bump(g.label_count),
                ..push_text(
                    push_text(
                        push_text(
                            push_text(g, load_operand(regv, off, path@.len() > 1)),
                            InstrV::MovImm { rd: 2, imm: rhs_val },
                        ),
                        InstrV::CmpReg { rn: 1, rm: 2 },
                    ),
                    InstrV::BCond { cond: cond_of(op), target: Label::If(id) },
                )
            };
            lemma_labels_fresh_seq(g1, body@);
            let gb = step_stmts(g1, body@);
            assert(g2.text =~= gb.text.push(InstrV::LabelDef { target: Label::If(id) }));
        },
        Stmt::WhileStmt { path, op, rhs_val, body } => {
            let id = g.label_count;
            let (regv, off) = path_info(g, path.deep_view());
            let g1 = GState {
                label_count: bump(g.label_count),
                ..push_text(
                    push_text(
                        push_text(
                            push_text(g, InstrV::LabelDef { target: Label::Loop(id) }),
                            load_operand(regv, off, path@.len() > 1),
                        ),
                        InstrV::CmpImm { rn: 1, imm: rhs_val },
                    ),
                    InstrV::BCond { cond: cond_of(op), target: Label::Exit(id) },
                )
            };
            lemma_labels_fresh_seq(g1, body@);
            let gb = step_stmts(g1, body@);
            assert(g2.text =~= gb.text + seq![
                InstrV::B { target: Label::Loop(id) },
                InstrV::LabelDef { target: Label::Exit(id) },
            ]);
        },
        Stmt::ProbIf { chance, body } => {
            let id = g.label_count;
            let g1 = GState {
                label_count: bump(g.label_count),
                ..push_text(g, InstrV::ProbHeader { math_reg: math_reg(g), id, chance })
            };
            lemma_labels_fresh_seq(g1, body@);
            let gb = step_stmts(g1, body@);
            assert(g2.text =~= gb.text.push(InstrV::LabelDef { target: Label::If(id) }));
        },
        _ => {},
    }
}

/// The label-freshness law for a statement sequence (see
/// [`lemma_labels_fresh`]).
pub proof fn lemma_labels_fresh_seq(g: GState, ss: Seq<Stmt>)
    requires
        g.label_count + seq_label_demand(ss) <= u64::MAX,
    ensures
        ({
            let g2 = step_stmts(g, ss);
            &&& g.label_count <= g2.label_count
            &&& g2.label_count == g.label_count + seq_label_demand(ss)
            &&& g.text.len() <= g2.text.len()
            &&& forall|j: int| 0 <= j < g.text.len() ==> g2.text[j] == g.text[j]
            &&& forall|j: int, id: u64|
                g.text.len() <= j < g2.text.len() && #[trigger] instr_label_ids(g2.text[j]).contains(
                    id,
                ) ==> g.label_count <= id < g2.label_count
        }),
    decreases ss,
{
    if ss.len() > 0 {
        lemma_labels_fresh_seq(g, ss.drop_last());
        let g1 = step_stmts(g, ss.drop_last());
        lemma_labels_fresh(g1, ss.last());
    }
}

} // verus!
