//! Structured machine instructions and their textual rendering.
//!
//! The generator emits values of [`Instr`] rather than raw text, so that the
//! emitted program can be reasoned about structurally (registers, offsets and
//! label ids as integers). The mathematical model of an instruction is
//! [`InstrV`], its deep view, in which embedded strings are character
//! sequences. [`instr_text`] pins down, character for character, the text
//! each instruction renders to; [`render_code`] produces exactly the
//! concatenation of those renderings.
//!
//! Hand-rolled runtime primitives (the decimal print loop, the probabilistic
//! sampler preamble, the sleep sequence) are emitted as single fixed template
//! blocks parameterised by registers, label ids and immediates.

use vstd::prelude::*;
use vstd::string::StringExecFns;
use crate::numfmt::{dec_str, push_dec};

verus! {

/// A branch condition, always the *inversion* of the source-level relational
/// operator: the emitted branch jumps past the body when the negation of the
/// source condition holds.
#[derive(Clone, Copy, Debug, PartialEq, Eq, Structural)]
pub enum Cond {
    /// `b.le`: branch if less or equal (inverts source `>`).
    Le,
    /// `b.ge`: branch if greater or equal (inverts source `<`).
    Ge,
    /// `b.ne`: branch if not equal (inverts source `==`, and is the default
    /// for any unrecognised operator).
    Ne,
}

/// A branch target or label, identified by the global label counter value
/// allocated to its control construct.
#[derive(Clone, Copy, Debug, PartialEq, Eq, Structural)]
pub enum Label {
    /// `.Lif{id}`: skip label of an `if` or probabilistic `if` body.
    If(u64),
    /// `.Lloop{id}`: head label of a `while` loop.
    Loop(u64),
    /// `.Lexit{id}`: exit label of a `while` loop.
    Exit(u64),
}

/// One emitted instruction, directive or runtime-primitive block.
#[derive(Debug)]
pub enum Instr {
    /// The fixed entry sequence: reserves the runtime work registers, maps a
    /// 4096-byte anonymous read-write region by syscall, and stores the
    /// returned base address in the dedicated heap-pointer register `x20`.
    Prologue,
    /// The fixed exit sequence: process-exit syscall with status 0.
    Epilogue,
    /// `mov x{rd}, #{imm}`
    MovImm { rd: u64, imm: u64 },
    /// `mov x{rd}, x{rs}`
    MovReg { rd: u64, rs: u64 },
    /// `add x{rd}, x{rn}, #{imm}`
    AddImm { rd: u64, rn: u64, imm: u64 },
    /// `sub x{rd}, x{rn}, #{imm}`
    SubImm { rd: u64, rn: u64, imm: u64 },
    /// `ldr x{rd}, [x{base}, #{off}]`
    LdrOff { rd: u64, base: u64, off: u64 },
    /// `str x{rs}, [x{base}, #{off}]`
    StrOff { rs: u64, base: u64, off: u64 },
    /// `cmp x{rn}, #{imm}`
    CmpImm { rn: u64, imm: u64 },
    /// `cmp x{rn}, x{rm}`
    CmpReg { rn: u64, rm: u64 },
    /// Conditional branch to `target`.
    BCond { cond: Cond, target: Label },
    /// Unconditional branch to `target`.
    B { target: Label },
    /// Definition of `target` as a label at this point.
    LabelDef { target: Label },
    /// The decimal print loop: prints the value of register `x{src}` as
    /// decimal digits followed by a newline, via one write syscall. `id`,
    /// the output's byte length when the block was emitted, names its
    /// internal loop label `.Lp{id}`.
    PrintBlock { src: u64, id: u64 },
    /// The probabilistic sampler preamble for a body executed with
    /// probability `chance`/100: loads the seed word from `[x{math_reg}, #8]`,
    /// auto-seeds from the hardware counter if it is zero, mixes and stores
    /// the new seed, reduces the sample modulo 100, and branches to
    /// `.Lif{id}` (skipping the body) when the sample is unsigned
    /// higher-or-same than `chance`. Its internal seed-ok label is
    /// `.Lseedok{id}`.
    ProbHeader { math_reg: u64, id: u64, chance: u64 },
    /// The sleep primitive: builds a two-word (seconds, nanoseconds) timespec
    /// on the stack, issues the timed-sleep syscall, and restores the stack
    /// pointer.
    RestBlock { seconds: u64 },
    /// One write syscall for the string data declaration `str_{id}`, covering
    /// `len` bytes (the literal plus its trailing newline).
    WriteStr { id: u64, len: u64 },
    /// A data-section declaration for a string literal: label `str_{id}`,
    /// raw bytes of `text` and a trailing newline byte.
    StrData { id: u64, text: String },
    /// A raw instruction block: its (already reformatted) text on one
    /// indented line, never validated.
    Raw { text: String },
}

/// The mathematical model of an [`Instr`]: identical except that embedded
/// strings are character sequences.
pub ghost enum InstrV {
    Prologue,
    Epilogue,
    MovImm { rd: u64, imm: u64 },
    MovReg { rd: u64, rs: u64 },
    AddImm { rd: u64, rn: u64, imm: u64 },
    SubImm { rd: u64, rn: u64, imm: u64 },
    LdrOff { rd: u64, base: u64, off: u64 },
    StrOff { rs: u64, base: u64, off: u64 },
    CmpImm { rn: u64, imm: u64 },
    CmpReg { rn: u64, rm: u64 },
    BCond { cond: Cond, target: Label },
    B { target: Label },
    LabelDef { target: Label },
    PrintBlock { src: u64, id: u64 },
    ProbHeader { math_reg: u64, id: u64, chance: u64 },
    RestBlock { seconds: u64 },
    WriteStr { id: u64, len: u64 },
    StrData { id: u64, text: Seq<char> },
    Raw { text: Seq<char> },
}

impl DeepView for Instr {
    type V = InstrV;

    open spec fn deep_view(&self) -> InstrV {
        match *self {
            Instr::Prologue => InstrV::Prologue,
            Instr::Epilogue => InstrV::Epilogue,
            Instr::MovImm { rd, imm } => InstrV::MovImm { rd, imm },
            Instr::MovReg { rd, rs } => InstrV::MovReg { rd, rs },
            Instr::AddImm { rd, rn, imm } => InstrV::AddImm { rd, rn, imm },
            Instr::SubImm { rd, rn, imm } => InstrV::SubImm { rd, rn, imm },
            Instr::LdrOff { rd, base, off } => InstrV::LdrOff { rd, base, off },
            Instr::StrOff { rs, base, off } => InstrV::StrOff { rs, base, off },
            Instr::CmpImm { rn, imm } => InstrV::CmpImm { rn, imm },
            Instr::CmpReg { rn, rm } => InstrV::CmpReg { rn, rm },
            Instr::BCond { cond, target } => InstrV::BCond { cond, target },
            Instr::B { target } => InstrV::B { target },
            Instr::LabelDef { target } => InstrV::LabelDef { target },
            Instr::PrintBlock { src, id } => InstrV::PrintBlock { src, id },
            Instr::ProbHeader { math_reg, id, chance } => InstrV::ProbHeader {
                math_reg,
                id,
                chance,
            },
            Instr::RestBlock { seconds } => InstrV::RestBlock { seconds },
            Instr::WriteStr { id, len } => InstrV::WriteStr { id, len },
            Instr::StrData { id, ref text } => InstrV::StrData { id, text: text@ },
            Instr::Raw { ref text } => InstrV::Raw { text: text@ },
        }
    }
}

/// The text of a label reference.
pub open spec fn label_text(l: Label) -> Seq<char> {
    match l {
        Label::If(id) => ".Lif"@ + dec_str(id as nat),
        Label::Loop(id) => ".Lloop"@ + dec_str(id as nat),
        Label::Exit(id) => ".Lexit"@ + dec_str(id as nat),
    }
}

/// The mnemonic of a conditional branch.
pub open spec fn cond_text(c: Cond) -> Seq<char> {
    match c {
        Cond::Le => "b.le"@,
        Cond::Ge => "b.ge"@,
        Cond::Ne => "b.ne"@,
    }
}

/// The exact text an instruction renders to, trailing newline included.
pub open spec fn instr_text(i: InstrV) -> Seq<char> {
    match i {
        InstrV::Prologue => ".global _start\n.section .text\n\n_start:\n    mov x11, #10\n    mov x0, #0\n    mov x1, #4096\n    mov x2, #3\n    mov x3, #34\n    mov x4, #-1\n    mov x5, #0\n    mov x8, #222\n    svc #0\n    mov x20, x0\n"@,
        InstrV::Epilogue => "\n    mov x0, #0\n    mov x8, #93\n    svc #0\n"@,
        InstrV::MovImm { rd, imm } => "    mov x"@ + dec_str(rd as nat) + ", #"@ + dec_str(
            imm as nat,
        ) + "\n"@,
        InstrV::MovReg { rd, rs } => "    mov x"@ + dec_str(rd as nat) + ", x"@ + dec_str(rs as nat)
            + "\n"@,
        InstrV::AddImm { rd, rn, imm } => "    add x"@ + dec_str(rd as nat) + ", x"@ + dec_str(
            rn as nat,
        ) + ", #"@ + dec_str(imm as nat) + "\n"@,
        InstrV::SubImm { rd, rn, imm } => "    sub x"@ + dec_str(rd as nat) + ", x"@ + dec_str(
            rn as nat,
        ) + ", #"@ + dec_str(imm as nat) + "\n"@,
        InstrV::LdrOff { rd, base, off } => "    ldr x"@ + dec_str(rd as nat) + ", [x"@ + dec_str(
            base as nat,
        ) + ", #"@ + dec_str(off as nat) + "]\n"@,
        InstrV::StrOff { rs, base, off } => "    str x"@ + dec_str(rs as nat) + ", [x"@ + dec_str(
            base as nat,
        ) + ", #"@ + dec_str(off as nat) + "]\n"@,
        InstrV::CmpImm { rn, imm } => "    cmp x"@ + dec_str(rn as nat) + ", #"@ + dec_str(
            imm as nat,
        ) + "\n"@,
        InstrV::CmpReg { rn, rm } => "    cmp x"@ + dec_str(rn as nat) + ", x"@ + dec_str(rm as nat)
            + "\n"@,
        InstrV::BCond { cond, target } => "    "@ + cond_text(cond) + " "@ + label_text(target)
            + "\n"@,
        InstrV::B { target } => "    b "@ + label_text(target) + "\n"@,
        InstrV::LabelDef { target } => label_text(target) + ":\n"@,
        InstrV::PrintBlock { src, id } => "\n    stp x0, x1, [sp, #-16]!\n    mov x0, x"@ + dec_str(
            src as nat,
        )
            + "\n    sub sp, sp, #32\n    mov x1, sp\n    add x1, x1, #31\n    mov w2, #10\n    strb w2, [x1]\n.Lp"@
            + dec_str(id as nat)
            + ":\n    sub x1, x1, #1\n    udiv x2, x0, x11\n    msub x3, x2, x11, x0\n    add x3, x3, #48\n    strb w3, [x1]\n    mov x0, x2\n    cbnz x0, .Lp"@
            + dec_str(id as nat)
            + "\n    mov x0, #1\n    mov x2, sp\n    add x2, x2, #32\n    sub x2, x2, x1\n    mov x8, #64\n    svc #0\n    add sp, sp, #32\n    ldp x0, x1, [sp], #16\n"@,
        InstrV::ProbHeader { math_reg, id, chance } => "\n    // Prob Roll "@ + dec_str(
            chance as nat,
        ) + "%\n    ldr x1, [x"@ + dec_str(math_reg as nat)
            + ", #8]\n    cmp x1, #0\n    b.ne .Lseedok"@ + dec_str(id as nat)
            + "\n    mrs x1, cntvct_el0\n.Lseedok"@ + dec_str(id as nat)
            + ":\n    ldr x2, =0x9E3779B97F4A7C15\n    mul x1, x1, x2\n    eor x1, x1, x1, lsr #33\n    str x1, [x"@
            + dec_str(math_reg as nat)
            + ", #8]\n    and x1, x1, #0x7FFFFFFF\n    mov x2, #100\n    udiv x3, x1, x2\n    msub x1, x3, x2, x1\n    cmp x1, #"@
            + dec_str(chance as nat) + "\n    b.hs .Lif"@ + dec_str(id as nat) + "\n"@,
        InstrV::RestBlock { seconds } => "    mov x0, #"@ + dec_str(seconds as nat)
            + "\n    mov x1, #0\n    stp x0, x1, [sp, #-16]!\n    mov x0, sp\n    mov x1, #0\n    mov x8, #115\n    svc #0\n    add sp, sp, #16\n"@,
        InstrV::WriteStr { id, len } => "    mov x0, #1\n    ldr x1, =str_"@ + dec_str(id as nat)
            + "\n    mov x2, #"@ + dec_str(len as nat) + "\n    mov x8, #64\n    svc #0\n"@,
        InstrV::StrData { id, text } => ".section .data\nstr_"@ + dec_str(id as nat) + ": .ascii \""@
            + text + "\\n\"\n.section .text\n"@,
        InstrV::Raw { text } => "    "@ + text + "\n"@,
    }
}

/// The byte length of an instruction's rendered text.
#[verifier::opaque]
pub open spec fn instr_bytes(i: InstrV) -> nat {
    (vstd::utf8::encode_utf8(instr_text(i)).len() as usize) as nat
}

/// The concatenated text of a whole instruction sequence.
pub open spec fn code_text(code: Seq<InstrV>) -> Seq<char>
    decreases code.len(),
{
    if code.len() == 0 {
        Seq::<char>::empty()
    } else {
        code_text(code.drop_last()) + instr_text(code.last())
    }
}

fn push_label(out: &mut String, l: &Label)
    ensures
        final(out)@ == old(out)@ + label_text(*l),
{
    let ghost start = out@;
    match l {
        Label::If(id) => {
            out.append(".Lif");
            push_dec(out, *id);
        },
        Label::Loop(id) => {
            out.append(".Lloop");
            push_dec(out, *id);
        },
        Label::Exit(id) => {
            out.append(".Lexit");
            push_dec(out, *id);
        },
    }
    proof {
        assert(out@ =~= start + label_text(*l));
    }
}

/// Appends the rendering of one instruction to `out`.
#[verifier::rlimit(100)]
pub fn render_instr(i: &Instr, out: &mut String)
    ensures
        final(out)@ == old(out)@ + instr_text(i.deep_view()),
{
    let ghost start = out@;
    match i {
        Instr::Prologue => {
            out.append(
                ".global _start\n.section .text\n\n_start:\n    mov x11, #10\n    mov x0, #0\n    mov x1, #4096\n    mov x2, #3\n    mov x3, #34\n    mov x4, #-1\n    mov x5, #0\n    mov x8, #222\n    svc #0\n    mov x20, x0\n",
            );
            proof {
                assert(out@ =~= start + instr_text(i.deep_view()));
            }
        },
        Instr::Epilogue => {
            out.append("\n    mov x0, #0\n    mov x8, #93\n    svc #0\n");
            proof {
                assert(out@ =~= start + instr_text(i.deep_view()));
            }
        },
        Instr::MovImm { rd, imm } => {
            out.append("    mov x");
            push_dec(out, *rd);
            out.append(", #");
            push_dec(out, *imm);
            out.append("\n");
            proof {
                assert(out@ =~= start + instr_text(i.deep_view()));
            }
        },
        Instr::MovReg { rd, rs } => {
            out.append("    mov x");
            push_dec(out, *rd);
            out.append(", x");
            push_dec(out, *rs);
            out.append("\n");
            proof {
                assert(out@ =~= start + instr_text(i.deep_view()));
            }
        },
        Instr::AddImm { rd, rn, imm } => {
            out.append("    add x");
            push_dec(out, *rd);
            out.append(", x");
            push_dec(out, *rn);
            out.append(", #");
            push_dec(out, *imm);
            out.append("\n");
            proof {
                assert(out@ =~= start + instr_text(i.deep_view()));
            }
        },
        Instr::SubImm { rd, rn, imm } => {
            out.append("    sub x");
            push_dec(out, *rd);
            out.append(", x");
            push_dec(out, *rn);
            out.append(", #");
            push_dec(out, *imm);
            out.append("\n");
            proof {
                assert(out@ =~= start + instr_text(i.deep_view()));
            }
        },
        Instr::LdrOff { rd, base, off } => {
            out.append("    ldr x");
            push_dec(out, *rd);
            out.append(", [x");
            push_dec(out, *base);
            out.append(", #");
            push_dec(out, *off);
            out.append("]\n");
            proof {
                assert(out@ =~= start + instr_text(i.deep_view()));
            }
        },
        Instr::StrOff { rs, base, off } => {
            out.append("    str x");
            push_dec(out, *rs);
            out.append(", [x");
            push_dec(out, *base);
            out.append(", #");
            push_dec(out, *off);
            out.append("]\n");
            proof {
                assert(out@ =~= start + instr_text(i.deep_view()));
            }
        },
        Instr::CmpImm { rn, imm } => {
            out.append("    cmp x");
            push_dec(out, *rn);
            out.append(", #");
            push_dec(out, *imm);
            out.append("\n");
            proof {
                assert(out@ =~= start + instr_text(i.deep_view()));
            }
        },
        Instr::CmpReg { rn, rm } => {
            out.append("    cmp x");
            push_dec(out, *rn);
            out.append(", x");
            push_dec(out, *rm);
            out.append("\n");
            proof {
                assert(out@ =~= start + instr_text(i.deep_view()));
            }
        },
        Instr::BCond { cond, target } => {
            out.append("    ");
            match cond {
                Cond::Le => out.append("b.le"),
                Cond::Ge => out.append("b.ge"),
                Cond::Ne => out.append("b.ne"),
            }
            out.append(" ");
            push_label(out, target);
            out.append("\n");
            proof {
                assert(out@ =~= start + instr_text(i.deep_view()));
            }
        },
        Instr::B { target } => {
            out.append("    b ");
            push_label(out, target);
            out.append("\n");
            proof {
                assert(out@ =~= start + instr_text(i.deep_view()));
            }
        },
        Instr::LabelDef { target } => {
            push_label(out, target);
            out.append(":\n");
            proof {
                assert(out@ =~= start + instr_text(i.deep_view()));
            }
        },
        Instr::PrintBlock { src, id } => {
            out.append("\n    stp x0, x1, [sp, #-16]!\n    mov x0, x");
            push_dec(out, *src);
            out.append(
                "\n    sub sp, sp, #32\n    mov x1, sp\n    add x1, x1, #31\n    mov w2, #10\n    strb w2, [x1]\n.Lp",
            );
            push_dec(out, *id);
            out.append(
                ":\n    sub x1, x1, #1\n    udiv x2, x0, x11\n    msub x3, x2, x11, x0\n    add x3, x3, #48\n    strb w3, [x1]\n    mov x0, x2\n    cbnz x0, .Lp",
            );
            push_dec(out, *id);
            out.append(
                "\n    mov x0, #1\n    mov x2, sp\n    add x2, x2, #32\n    sub x2, x2, x1\n    mov x8, #64\n    svc #0\n    add sp, sp, #32\n    ldp x0, x1, [sp], #16\n",
            );
            proof {
                assert(out@ =~= start + instr_text(i.deep_view()));
            }
        },
        Instr::ProbHeader { math_reg, id, chance } => {
            out.append("\n    // Prob Roll ");
            push_dec(out, *chance);
            out.append("%\n    ldr x1, [x");
            push_dec(out, *math_reg);
            out.append(", #8]\n    cmp x1, #0\n    b.ne .Lseedok");
            push_dec(out, *id);
            out.append("\n    mrs x1, cntvct_el0\n.Lseedok");
            push_dec(out, *id);
            out.append(
                ":\n    ldr x2, =0x9E3779B97F4A7C15\n    mul x1, x1, x2\n    eor x1, x1, x1, lsr #33\n    str x1, [x",
            );
            push_dec(out, *math_reg);
            out.append(
                ", #8]\n    and x1, x1, #0x7FFFFFFF\n    mov x2, #100\n    udiv x3, x1, x2\n    msub x1, x3, x2, x1\n    cmp x1, #",
            );
            push_dec(out, *chance);
            out.append("\n    b.hs .Lif");
            push_dec(out, *id);
            out.append("\n");
            proof {
                assert(out@ =~= start + instr_text(i.deep_view()));
            }
        },
        Instr::RestBlock { seconds } => {
            out.append("    mov x0, #");
            push_dec(out, *seconds);
            out.append(
                "\n    mov x1, #0\n    stp x0, x1, [sp, #-16]!\n    mov x0, sp\n    mov x1, #0\n    mov x8, #115\n    svc #0\n    add sp, sp, #16\n",
            );
            proof {
                assert(out@ =~= start + instr_text(i.deep_view()));
            }
        },
        Instr::WriteStr { id, len } => {
            out.append("    mov x0, #1\n    ldr x1, =str_");
            push_dec(out, *id);
            out.append("\n    mov x2, #");
            push_dec(out, *len);
            out.append("\n    mov x8, #64\n    svc #0\n");
            proof {
                assert(out@ =~= start + instr_text(i.deep_view()));
            }
        },
        Instr::StrData { id, text } => {
            out.append(".section .data\nstr_");
            push_dec(out, *id);
            out.append(": .ascii \"");
            out.append(text.as_str());
            out.append("\\n\"\n.section .text\n");
            proof {
                assert(out@ =~= start + instr_text(i.deep_view()));
            }
        },
        Instr::Raw { text } => {
            out.append("    ");
            out.append(text.as_str());
            out.append("\n");
            proof {
                assert(out@ =~= start + instr_text(i.deep_view()));
            }
        },
    }
}

/// Appends the rendering of a whole instruction sequence to `out`.
pub fn render_code(code: &Vec<Instr>, out: &mut String)
    ensures
        final(out)@ == old(out)@ + code_text(code.deep_view()),
{
    let ghost start = out@;
    let mut k: usize = 0;
    while k < code.len()
        invariant
            k <= code@.len(),
            out@ == start + code_text(code.deep_view().take(k as int)),
        decreases code@.len() - k,
    {
        render_instr(&code[k], out);
        proof {
            lemma_code_text_snoc(code.deep_view().take(k as int), code@[k as int].deep_view());
            assert(code.deep_view().take(k as int).push(code@[k as int].deep_view()) =~= code.deep_view().take(
                k as int + 1,
            ));
        }
        k += 1;
    }
    proof {
        assert(code.deep_view().take(code@.len() as int) =~= code.deep_view());
    }
}

/// Appending one instruction to a sequence appends its text to the rendering.
pub proof fn lemma_code_text_snoc(code: Seq<InstrV>, i: InstrV)
    ensures
        code_text(code.push(i)) == code_text(code) + instr_text(i),
{
    assert(code.push(i).drop_last() =~= code);
    assert(code.push(i).last() == i);
}

/// Rendering distributes over concatenation of instruction sequences.
pub proof fn lemma_code_text_concat(a: Seq<InstrV>, b: Seq<InstrV>)
    ensures
        code_text(a + b) == code_text(a) + code_text(b),
    decreases b.len(),
{
    if b.len() == 0 {
        assert(a + b =~= a);
        assert(code_text(a + b) =~= code_text(a) + code_text(b));
    } else {
        lemma_code_text_concat(a, b.drop_last());
        lemma_code_text_snoc(a + b.drop_last(), b.last());
        lemma_code_text_snoc(b.drop_last(), b.last());
        assert((a + b.drop_last()).push(b.last()) =~= a + b);
        assert(b.drop_last().push(b.last()) =~= b);
        assert(code_text(a + b) =~= code_text(a) + code_text(b));
    }
}

} // verus!
