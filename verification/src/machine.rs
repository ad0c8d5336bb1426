//! A straight-line evaluation semantics for the emitted instructions, and the
//! behavioural laws of the generator proved over it.
//!
//! [`eval_instr`] gives one instruction's effect on a machine state: register
//! file, word-addressed memory, and the text written to standard output.
//! Evaluation is partial: instructions that transfer control (branches, the
//! entry and exit sequences, syscall-only blocks) are outside the straight-
//! line fragment and evaluate to `None`. Branch *decisions* are modelled by
//! the decision functions [`cond_holds`] and [`prob_takes_body`], which state
//! what the emitted comparison-and-branch sequences test. Template blocks
//! (the decimal print loop, the sampler preamble) evaluate as single steps
//! whose effect is the block's documented meaning; their internal stack
//! traffic is not modelled.

use vstd::prelude::*;
use crate::instr::{InstrV, Cond};
use crate::numfmt::{dec_str, char_digit};
use crate::parser::{Stmt, CmpOp};
use crate::generator::{
    GState, init_gstate, step_stmt, step_stmts, cond_of, assoc_get, sat_mul8, sym_reg,
    first_index, lemma_first_index_at, lemma_assoc_get_at, lemma_assoc_get_none,
    lemma_assoc_set_append,
};

verus! {

/// The observable state of the executing program: registers, the mapped
/// memory region (word-addressed by byte address), the last comparison, and
/// everything printed so far.
#[verifier::ext_equal]
pub ghost struct Machine {
    pub regs: Map<u64, u64>,
    pub mem: Map<u64, u64>,
    pub cmp: (u64, u64),
    pub out: Seq<char>,
}

/// The value of register `r` (0 when never written).
pub open spec fn reg(m: Machine, r: u64) -> u64 {
    if m.regs.dom().contains(r) {
        m.regs[r]
    } else {
        0
    }
}

/// The word at byte address `a` (0 when never written).
pub open spec fn memr(m: Machine, a: u64) -> u64 {
    if m.mem.dom().contains(a) {
        m.mem[a]
    } else {
        0
    }
}

/// Wrapping 64-bit addition.
pub open spec fn wadd(a: u64, b: u64) -> u64 {
    ((a + b) % 0x10000000000000000) as u64
}

/// Wrapping 64-bit subtraction.
pub open spec fn wsub(a: u64, b: u64) -> u64 {
    ((a - b) % 0x10000000000000000) as u64
}

/// A natural number truncated to 64 bits.
pub open spec fn wnat(n: nat) -> u64 {
    (n % 0x10000000000000000) as u64
}

/// The odd 64-bit mixing constant of the pseudo-random sampler.
pub const MIX_CONSTANT: u64 = 0x9E3779B97F4A7C15;

/// One step of the sampler's avalanche mix: multiply the seed by the mixing
/// constant (wrapping) and fold the high bits down with a shifted xor. This
/// is the new stored seed after each probabilistic branch.
pub open spec fn mix(seed: u64) -> u64 {
    let m = ((seed * MIX_CONSTANT) % 0x10000000000000000) as u64;
    m ^ (m >> 33)
}

/// The seed a sampling site actually uses: the stored seed word, or the
/// hardware counter reading (`entropy`) when the stored word is zero — the
/// emergency auto-seed, applied at the use site.
pub open spec fn effective_seed(stored: u64, entropy: u64) -> u64 {
    if stored == 0 {
        entropy
    } else {
        stored
    }
}

/// The sample one probabilistic branch compares against its chance: the
/// mixed seed masked to the non-negative range and reduced modulo 100.
pub open spec fn sample_of(seed: u64) -> u64 {
    ((mix(seed) & 0x7FFFFFFF) % 100) as u64
}

/// Whether the probabilistic body executes: the emitted branch skips it when
/// the sample is unsigned higher-or-same than the chance, so it runs exactly
/// when the sample is strictly below the chance.
pub open spec fn prob_takes_body(seed: u64, chance: u64) -> bool {
    sample_of(seed) < chance
}

/// What a source-level comparison means.
pub open spec fn cmp_holds(op: CmpOp, lhs: u64, rhs: u64) -> bool {
    match op {
        CmpOp::Greater => lhs > rhs,
        CmpOp::Less => lhs < rhs,
        CmpOp::Equal => lhs == rhs,
    }
}

/// What an emitted branch condition tests, given the compared operands.
pub open spec fn cond_holds(c: Cond, lhs: u64, rhs: u64) -> bool {
    match c {
        Cond::Le => lhs <= rhs,
        Cond::Ge => lhs >= rhs,
        Cond::Ne => lhs != rhs,
    }
}

/// The inverted-branch-to-skip law: the branch condition the generator emits
/// for a source operator holds exactly when the source condition fails, so
/// the emitted branch jumps past the body precisely on the inputs where the
/// source condition would not have run it.
pub proof fn lemma_branch_inversion(op: CmpOp, lhs: u64, rhs: u64)
    ensures
        cond_holds(cond_of(op), lhs, rhs) <==> !cmp_holds(op, lhs, rhs),
{
}

/// One instruction's effect on the machine, or `None` outside the
/// straight-line fragment. `entropy` stands for the hardware counter a
/// sampler preamble would read if it had to auto-seed.
pub open spec fn eval_instr(m: Machine, i: InstrV, entropy: u64) -> Option<Machine> {
    match i {
        InstrV::MovImm { rd, imm } => Some(Machine { regs: m.regs.insert(rd, imm), ..m }),
        InstrV::MovReg { rd, rs } => Some(Machine { regs: m.regs.insert(rd, reg(m, rs)), ..m }),
        InstrV::AddImm { rd, rn, imm } => Some(
            Machine { regs: m.regs.insert(rd, wadd(reg(m, rn), imm)), ..m },
        ),
        InstrV::SubImm { rd, rn, imm } => Some(
            Machine { regs: m.regs.insert(rd, wsub(reg(m, rn), imm)), ..m },
        ),
        InstrV::LdrOff { rd, base, off } => Some(
            Machine { regs: m.regs.insert(rd, memr(m, wadd(reg(m, base), off))), ..m },
        ),
        InstrV::StrOff { rs, base, off } => Some(
            Machine { mem: m.mem.insert(wadd(reg(m, base), off), reg(m, rs)), ..m },
        ),
        InstrV::CmpImm { rn, imm } => Some(Machine { cmp: (reg(m, rn), imm), ..m }),
        InstrV::CmpReg { rn, rm } => Some(Machine { cmp: (reg(m, rn), reg(m, rm)), ..m }),
        InstrV::LabelDef { target } => Some(m),
        InstrV::PrintBlock { src, id } => {
            let v = reg(m, src);
            let digits = dec_str(v as nat);
            Some(
                Machine {
                    out: m.out + digits + "\n"@,
                    regs: m.regs.insert(2, wnat(digits.len() + 1)).insert(
                        3,
                        wnat(48 + char_digit(digits.first())),
                    ).insert(8, 64),
                    ..m
                },
            )
        },
        InstrV::ProbHeader { math_reg, id, chance } => {
            let addr = wadd(reg(m, math_reg), 8);
            let seed = effective_seed(memr(m, addr), entropy);
            Some(
                Machine {
                    mem: m.mem.insert(addr, mix(seed)),
                    regs: m.regs.insert(1, sample_of(seed)).insert(2, 100).insert(
                        3,
                        ((mix(seed) & 0x7FFFFFFF) / 100) as u64,
                    ),
                    cmp: (sample_of(seed), chance),
                    ..m
                },
            )
        },
        _ => None,
    }
}

/// Straight-line evaluation of an instruction sequence, front to back.
pub open spec fn eval_code(m: Machine, code: Seq<InstrV>, entropy: u64) -> Option<Machine>
    decreases code.len(),
{
    if code.len() == 0 {
        Some(m)
    } else {
        match eval_instr(m, code.first(), entropy) {
            Some(m2) => eval_code(m2, code.drop_first(), entropy),
            None => None,
        }
    }
}

/// Once seeded, the sampler is deterministic: with a nonzero stored seed the
/// preamble never reads the hardware counter, so its entire effect — the new
/// stored seed, the sample, and the branch decision — is a function of the
/// stored seed alone, identical on every run.
pub proof fn lemma_seeded_deterministic(m: Machine, math_reg: u64, id: u64, chance: u64, e1: u64, e2: u64)
    requires
        memr(m, wadd(reg(m, math_reg), 8)) != 0,
    ensures
        eval_instr(m, InstrV::ProbHeader { math_reg, id, chance }, e1) == eval_instr(
            m,
            InstrV::ProbHeader { math_reg, id, chance },
            e2,
        ),
        effective_seed(memr(m, wadd(reg(m, math_reg), 8)), e1) == memr(
            m,
            wadd(reg(m, math_reg), 8),
        ),
{
}

/// The boundary law of the probabilistic branch: a chance of 0 never runs
/// the body, a chance of 100 always does, for every seed — because the
/// sample lies in `[0, 100)` and the unsigned higher-or-same comparison
/// skips exactly when the sample reaches the chance.
pub proof fn lemma_prob_boundaries(seed: u64)
    ensures
        !prob_takes_body(seed, 0),
        prob_takes_body(seed, 100),
        sample_of(seed) < 100,
{
    assert((mix(seed) & 0x7FFFFFFF) % 100 < 100);
}

/// The iteration count of a lowered `<` counting loop: the emitted pre-test
/// loop exits via the inverted branch (when the counter is greater or equal
/// to the bound) and its body increments the counter by one.
pub open spec fn count_up_iters(cur: u64, bound: u64) -> nat
    decreases bound - cur,
{
    if cond_holds(Cond::Ge, cur, bound) {
        0
    } else {
        1 + count_up_iters((cur + 1) as u64, bound)
    }
}

/// A counting loop from `cur` below `bound` runs its body exactly
/// `bound - cur` times and then halts without re-entering; in particular a
/// loop from 0 below 5 runs exactly 5 times.
pub proof fn lemma_count_up(cur: u64, bound: u64)
    requires
        cur <= bound,
    ensures
        count_up_iters(cur, bound) == bound - cur,
    decreases bound - cur,
{
    if cur < bound {
        lemma_count_up((cur + 1) as u64, bound);
    }
}

/// The code a statement sequence appends to a generator state.
pub open spec fn emitted(g: GState, ss: Seq<Stmt>) -> Seq<InstrV> {
    step_stmts(g, ss).text.skip(g.text.len() as int)
}

/// Assign-then-print law: for every name and value, the code generated for
/// `local name = v` followed by `print name` prints exactly the decimal
/// digits of `v` and a newline — including `v = 0`, which prints `0` and a
/// newline (the print loop always produces at least one digit).
#[verifier::rlimit(100)]
pub proof fn lemma_local_print(name: String, v: u64, m0: Machine, entropy: u64)
    ensures
        ({
            let prog = seq![Stmt::LocalAssign { name, value: v }, Stmt::PrintVar { name }];
            let code = emitted(init_gstate(), prog);
            match eval_code(m0, code, entropy) {
                Some(m1) => m1.out == m0.out + dec_str(v as nat) + "\n"@,
                None => false,
            }
        }),
{
    let g0 = init_gstate();
    let prog = seq![Stmt::LocalAssign { name, value: v }, Stmt::PrintVar { name }];
    assert(prog.drop_last() =~= seq![Stmt::LocalAssign { name, value: v }]);
    assert(prog.drop_last().drop_last() =~= Seq::<Stmt>::empty());
    let g1 = step_stmt(g0, Stmt::LocalAssign { name, value: v });
    assert(assoc_get(g0.symbols, name@) is None);
    assert(g1.symbols =~= seq![(name@, 12u64)]);
    assert(g1.text =~= seq![InstrV::Prologue, InstrV::MovImm { rd: 12, imm: v }]);
    let g2 = step_stmt(g1, Stmt::PrintVar { name });
    let pid = g1.out_bytes;
    assert(assoc_get(g1.symbols, name@) == Some(12u64));
    assert(g2.text =~= seq![
        InstrV::Prologue,
        InstrV::MovImm { rd: 12, imm: v },
        InstrV::PrintBlock { src: 12, id: pid },
    ]);
    assert(step_stmts(g0, Seq::<Stmt>::empty()) == g0);
    assert(step_stmts(g0, prog.drop_last()) == g1);
    assert(prog.last() == Stmt::PrintVar { name });
    assert(step_stmts(g0, prog) == g2);
    let code = emitted(g0, prog);
    assert(code =~= seq![
        InstrV::MovImm { rd: 12, imm: v },
        InstrV::PrintBlock { src: 12, id: pid },
    ]);
    let m1 = Machine { regs: m0.regs.insert(12, v), ..m0 };
    assert(eval_instr(m0, code[0], entropy) == Some(m1));
    assert(code.drop_first() =~= seq![InstrV::PrintBlock { src: 12, id: pid }]);
    assert(reg(m1, 12) == v);
    let digits = dec_str(v as nat);
    let m2 = Machine {
        out: m1.out + digits + "\n"@,
        regs: m1.regs.insert(2, wnat(digits.len() + 1)).insert(
            3,
            wnat(48 + char_digit(digits.first())),
        ).insert(8, 64),
        ..m1
    };
    assert(eval_instr(m1, InstrV::PrintBlock { src: 12, id: pid }, entropy) == Some(m2));
    assert(code.drop_first().drop_first() =~= Seq::<InstrV>::empty());
    assert(eval_code(m2, Seq::<InstrV>::empty(), entropy) == Some(m2));
    assert(eval_code(m1, code.drop_first(), entropy) == Some(m2));
    assert(eval_code(m0, code, entropy) == Some(m2));
    assert(m2.out == m0.out + dec_str(v as nat) + "\n"@);
}

/// Field round-trip law: define a class, allocate an object of it, store `v`
/// into its `i`-th field, and print that field — the program prints exactly
/// `v`. The field's byte offset is exactly `i * 8`, whatever the field count
/// and whatever names surround it in the layout.
/// The code half of the field round-trip law: the four statements lower to
/// the fixed six-instruction sequence, with the field's offset exactly
/// `i * 8`.
#[verifier::rlimit(100)]
proof fn lemma_field_roundtrip_code(
    cls: String,
    fields: Vec<String>,
    var: String,
    path: Vec<String>,
    i: int,
    v: u64,
)
    requires
        0 <= i < fields.deep_view().len(),
        forall|j: int| 0 <= j < i ==> fields.deep_view()[j] != fields.deep_view()[i],
        path.deep_view() =~= seq![var@, fields.deep_view()[i as int]],
        fields.deep_view().len() * 8 <= u64::MAX,
        8 * i <= u64::MAX,
    ensures
        sat_mul8(i as nat) == 8 * i,
        ({
            let prog = seq![
                Stmt::ClassDef { name: cls, fields },
                Stmt::HeapAlloc { var_name: var, class_name: cls },
                Stmt::FieldAssign { path, value: v },
                Stmt::PrintField { path },
            ];
            let code = emitted(init_gstate(), prog);
            &&& code.len() == 6
            &&& code.take(5) == seq![
                InstrV::MovReg { rd: 12, rs: 20 },
                InstrV::AddImm { rd: 20, rn: 20, imm: sat_mul8(fields.deep_view().len()) },
                InstrV::MovImm { rd: 1, imm: v },
                InstrV::StrOff { rs: 1, base: 12, off: sat_mul8(i as nat) },
                InstrV::LdrOff { rd: 2, base: 12, off: sat_mul8(i as nat) },
            ]
            &&& code[5] is PrintBlock
            &&& code[5]->PrintBlock_src == 2
        }),
{
    let g0 = init_gstate();
    let fdv = fields.deep_view();
    let s1 = Stmt::ClassDef { name: cls, fields };
    let s2 = Stmt::HeapAlloc { var_name: var, class_name: cls };
    let s3 = Stmt::FieldAssign { path, value: v };
    let s4 = Stmt::PrintField { path };
    let prog = seq![s1, s2, s3, s4];
    assert(prog.drop_last() =~= seq![s1, s2, s3]);
    assert(prog.drop_last().drop_last() =~= seq![s1, s2]);
    assert(prog.drop_last().drop_last().drop_last() =~= seq![s1]);
    assert(prog.drop_last().drop_last().drop_last().drop_last() =~= Seq::<Stmt>::empty());

    // Generation: the four statements' state transformations.
    let g1 = step_stmt(g0, s1);
    assert(g1.class_map =~= seq![(cls@, fdv)]);
    assert(g1.text == g0.text);

    let g2 = step_stmt(g1, s2);
    assert(assoc_get(g1.symbols, var@) is None);
    assert(assoc_get(g1.class_map, cls@) == Some(fdv));
    assert(g2.symbols =~= seq![(var@, 12u64)]);
    assert(g2.text =~= g1.text + seq![
        InstrV::MovReg { rd: 12, rs: 20 },
        InstrV::AddImm { rd: 20, rn: 20, imm: sat_mul8(fdv.len()) },
    ]);

    let g3 = step_stmt(g2, s3);
    assert(assoc_get(g2.symbols, var@) == Some(12u64));
    assert(sym_reg(g2, var@) == 12);
    assert(assoc_get(g2.obj_types, var@) == Some(cls@));
    assert(assoc_get(g2.class_map, cls@) == Some(fdv));
    lemma_first_index_at(fdv, fdv[i], i);
    assert(first_index(fdv, path.deep_view()[1]) == Some(i as nat));
    let off = sat_mul8(i as nat);
    assert(off == 8 * i);
    assert(g3.text =~= g2.text + seq![
        InstrV::MovImm { rd: 1, imm: v },
        InstrV::StrOff { rs: 1, base: 12, off },
    ]);

    let g4 = step_stmt(g3, s4);
    let ghost g3a = crate::generator::push_text(g3, InstrV::LdrOff { rd: 2, base: 12, off });
    assert(g4.text =~= g3.text + seq![
        InstrV::LdrOff { rd: 2, base: 12, off },
        InstrV::PrintBlock { src: 2, id: g3a.out_bytes },
    ]);
    assert(step_stmts(g0, Seq::<Stmt>::empty()) == g0);
    assert(step_stmts(g0, prog.drop_last().drop_last().drop_last()) == g1);
    assert(step_stmts(g0, prog.drop_last().drop_last()) == g2);
    assert(step_stmts(g0, prog.drop_last()) == g3);
    assert(step_stmts(g0, prog) == g4);

    let code = emitted(g0, prog);
    assert(code =~= seq![
        InstrV::MovReg { rd: 12, rs: 20 },
        InstrV::AddImm { rd: 20, rn: 20, imm: sat_mul8(fdv.len()) },
        InstrV::MovImm { rd: 1, imm: v },
        InstrV::StrOff { rs: 1, base: 12, off },
        InstrV::LdrOff { rd: 2, base: 12, off },
        InstrV::PrintBlock { src: 2, id: g3a.out_bytes },
    ]);
    assert(code.take(5) =~= seq![
        InstrV::MovReg { rd: 12, rs: 20 },
        InstrV::AddImm { rd: 20, rn: 20, imm: sat_mul8(fdv.len()) },
        InstrV::MovImm { rd: 1, imm: v },
        InstrV::StrOff { rs: 1, base: 12, off },
        InstrV::LdrOff { rd: 2, base: 12, off },
    ]);
}

/// The execution half of the field round-trip law, over the fixed lowered
/// sequence: the store and the load meet at the object's base plus the
/// offset, and the print emits the stored value.
#[verifier::rlimit(100)]
#[verifier::spinoff_prover]
proof fn lemma_field_roundtrip_eval(
    off: u64,
    szimm: u64,
    v: u64,
    pid: u64,
    m0: Machine,
    entropy: u64,
    code: Seq<InstrV>,
)
    requires
        code == seq![
            InstrV::MovReg { rd: 12, rs: 20 },
            InstrV::AddImm { rd: 20, rn: 20, imm: szimm },
            InstrV::MovImm { rd: 1, imm: v },
            InstrV::StrOff { rs: 1, base: 12, off },
            InstrV::LdrOff { rd: 2, base: 12, off },
            InstrV::PrintBlock { src: 2, id: pid },
        ],
        reg(m0, 20) + off <= u64::MAX,
    ensures
        ({
            match eval_code(m0, code, entropy) {
                Some(m1) => m1.out == m0.out + dec_str(v as nat) + "\n"@,
                None => false,
            }
        }),
{
    let h = reg(m0, 20);
    let m1 = Machine { regs: m0.regs.insert(12, h), ..m0 };
    assert(eval_instr(m0, code[0], entropy) == Some(m1));
    let m2 = Machine { regs: m1.regs.insert(20, wadd(reg(m1, 20), szimm)), ..m1 };
    assert(eval_instr(m1, code[1], entropy) == Some(m2));
    let m3 = Machine { regs: m2.regs.insert(1, v), ..m2 };
    assert(eval_instr(m2, code[2], entropy) == Some(m3));
    assert(reg(m3, 12) == h);
    let addr = wadd(h, off);
    assert(addr == h + off);
    let m4 = Machine { mem: m3.mem.insert(addr, v), ..m3 };
    assert(eval_instr(m3, code[3], entropy) == Some(m4));
    assert(memr(m4, addr) == v);
    let m5 = Machine { regs: m4.regs.insert(2, v), ..m4 };
    assert(eval_instr(m4, code[4], entropy) == Some(m5));
    assert(reg(m5, 2) == v);
    let digits = dec_str(v as nat);
    let m6 = Machine {
        out: m5.out + digits + "\n"@,
        regs: m5.regs.insert(2, wnat(digits.len() + 1)).insert(
            3,
            wnat(48 + char_digit(digits.first())),
        ).insert(8, 64),
        ..m5
    };
    assert(eval_instr(m5, code[5], entropy) == Some(m6));

    assert(code.drop_first() =~= code.skip(1));
    assert(code.skip(1).drop_first() =~= code.skip(2));
    assert(code.skip(2).drop_first() =~= code.skip(3));
    assert(code.skip(3).drop_first() =~= code.skip(4));
    assert(code.skip(4).drop_first() =~= code.skip(5));
    assert(code.skip(5).drop_first() =~= Seq::<InstrV>::empty());
    assert(eval_code(m6, Seq::<InstrV>::empty(), entropy) == Some(m6));
    assert(code.skip(5).first() == code[5]);
    assert(eval_code(m5, code.skip(5), entropy) == Some(m6));
    assert(code.skip(4).first() == code[4]);
    assert(eval_code(m4, code.skip(4), entropy) == Some(m6));
    assert(code.skip(3).first() == code[3]);
    assert(eval_code(m3, code.skip(3), entropy) == Some(m6));
    assert(code.skip(2).first() == code[2]);
    assert(eval_code(m2, code.skip(2), entropy) == Some(m6));
    assert(code.skip(1).first() == code[1]);
    assert(eval_code(m1, code.skip(1), entropy) == Some(m6));
    assert(eval_code(m0, code, entropy) == Some(m6));
    assert(m6.out == m0.out + dec_str(v as nat) + "\n"@);
}

/// Field round-trip law: define a class, allocate an object of it, store `v`
/// into its `i`-th field, and print that field — the program prints exactly
/// `v`. The field's byte offset is exactly `i * 8`, whatever the field count
/// and whatever names surround it in the layout.
#[verifier::rlimit(100)]
#[verifier::spinoff_prover]
pub proof fn lemma_field_roundtrip(
    cls: String,
    fields: Vec<String>,
    var: String,
    path: Vec<String>,
    i: int,
    v: u64,
    m0: Machine,
    entropy: u64,
)
    requires
        0 <= i < fields.deep_view().len(),
        forall|j: int| 0 <= j < i ==> fields.deep_view()[j] != fields.deep_view()[i],
        path.deep_view() =~= seq![var@, fields.deep_view()[i as int]],
        fields.deep_view().len() * 8 <= u64::MAX,
        reg(m0, 20) + 8 * i <= u64::MAX,
    ensures
        ({
            let prog = seq![
                Stmt::ClassDef { name: cls, fields },
                Stmt::HeapAlloc { var_name: var, class_name: cls },
                Stmt::FieldAssign { path, value: v },
                Stmt::PrintField { path },
            ];
            let code = emitted(init_gstate(), prog);
            match eval_code(m0, code, entropy) {
                Some(m1) => m1.out == m0.out + dec_str(v as nat) + "\n"@,
                None => false,
            }
        }),
{
    lemma_field_roundtrip_code(cls, fields, var, path, i, v);
    let fdv = fields.deep_view();
    let off = sat_mul8(i as nat);
    let prog = seq![
        Stmt::ClassDef { name: cls, fields },
        Stmt::HeapAlloc { var_name: var, class_name: cls },
        Stmt::FieldAssign { path, value: v },
        Stmt::PrintField { path },
    ];
    let code = emitted(init_gstate(), prog);
    let pid = code[5]->PrintBlock_id;
    assert(code =~= seq![
        InstrV::MovReg { rd: 12, rs: 20 },
        InstrV::AddImm { rd: 20, rn: 20, imm: sat_mul8(fdv.len()) },
        InstrV::MovImm { rd: 1, imm: v },
        InstrV::StrOff { rs: 1, base: 12, off },
        InstrV::LdrOff { rd: 2, base: 12, off },
        InstrV::PrintBlock { src: 2, id: pid },
    ]);
    lemma_field_roundtrip_eval(
        sat_mul8(i as nat),
        sat_mul8(fields.deep_view().len()),
        v,
        pid,
        m0,
        entropy,
        code,
    );
}

/// The code half of the bump-allocation law: the two class definitions and
/// two allocations lower to the fixed four-instruction sequence.
#[verifier::rlimit(100)]
proof fn lemma_heap_allocs_code(c1: String, f1: Vec<String>, c2: String, f2: Vec<String>, o1: String, o2: String)
    requires
        c1@ != c2@,
        o1@ != o2@,
    ensures
        ({
            let prog = seq![
                Stmt::ClassDef { name: c1, fields: f1 },
                Stmt::ClassDef { name: c2, fields: f2 },
                Stmt::HeapAlloc { var_name: o1, class_name: c1 },
                Stmt::HeapAlloc { var_name: o2, class_name: c2 },
            ];
            emitted(init_gstate(), prog) == seq![
                InstrV::MovReg { rd: 12, rs: 20 },
                InstrV::AddImm { rd: 20, rn: 20, imm: sat_mul8(f1.deep_view().len()) },
                InstrV::MovReg { rd: 13, rs: 20 },
                InstrV::AddImm { rd: 20, rn: 20, imm: sat_mul8(f2.deep_view().len()) },
            ]
        }),
{
    let g0 = init_gstate();
    let s1 = Stmt::ClassDef { name: c1, fields: f1 };
    let s2 = Stmt::ClassDef { name: c2, fields: f2 };
    let s3 = Stmt::HeapAlloc { var_name: o1, class_name: c1 };
    let s4 = Stmt::HeapAlloc { var_name: o2, class_name: c2 };
    let prog = seq![s1, s2, s3, s4];
    assert(prog.drop_last() =~= seq![s1, s2, s3]);
    assert(prog.drop_last().drop_last() =~= seq![s1, s2]);
    assert(prog.drop_last().drop_last().drop_last() =~= seq![s1]);
    assert(prog.drop_last().drop_last().drop_last().drop_last() =~= Seq::<Stmt>::empty());
    let n1 = f1.deep_view().len();
    let n2 = f2.deep_view().len();

    let g1 = step_stmt(g0, s1);
    assert(g1.class_map =~= seq![(c1@, f1.deep_view())]);
    let g2 = step_stmt(g1, s2);
    lemma_assoc_set_append(g1.class_map, c2@, f2.deep_view());
    assert(g2.class_map =~= seq![(c1@, f1.deep_view()), (c2@, f2.deep_view())]);
    let g3 = step_stmt(g2, s3);
    assert(assoc_get(g2.symbols, o1@) is None);
    lemma_assoc_get_at(g2.class_map, c1@, 0);
    assert(assoc_get(g2.class_map, c1@) == Some(f1.deep_view()));
    assert(g3.symbols =~= seq![(o1@, 12u64)]);
    assert(g3.text =~= g2.text + seq![
        InstrV::MovReg { rd: 12, rs: 20 },
        InstrV::AddImm { rd: 20, rn: 20, imm: sat_mul8(n1) },
    ]);
    let g4 = step_stmt(g3, s4);
    lemma_assoc_get_none(g3.symbols, o2@);
    assert(assoc_get(g3.symbols, o2@) is None);
    lemma_assoc_get_at(g3.class_map, c2@, 1);
    assert(assoc_get(g3.class_map, c2@) == Some(f2.deep_view()));
    assert(g4.text =~= g3.text + seq![
        InstrV::MovReg { rd: 13, rs: 20 },
        InstrV::AddImm { rd: 20, rn: 20, imm: sat_mul8(n2) },
    ]);
    assert(step_stmts(g0, Seq::<Stmt>::empty()) == g0);
    assert(step_stmts(g0, prog.drop_last().drop_last().drop_last()) == g1);
    assert(step_stmts(g0, prog.drop_last().drop_last()) == g2);
    assert(step_stmts(g0, prog.drop_last()) == g3);
    assert(step_stmts(g0, prog) == g4);

    assert(emitted(g0, prog) =~= seq![
        InstrV::MovReg { rd: 12, rs: 20 },
        InstrV::AddImm { rd: 20, rn: 20, imm: sat_mul8(n1) },
        InstrV::MovReg { rd: 13, rs: 20 },
        InstrV::AddImm { rd: 20, rn: 20, imm: sat_mul8(n2) },
    ]);
}

/// Bump-allocation law: two heap allocations in sequence hand out base
/// addresses exactly `s1 * 8` bytes apart (`s1` the first class's field
/// count), and the heap pointer only ever advances — after the first
/// allocation it has grown by the first object's size, after the second by
/// both.
#[verifier::rlimit(100)]
pub proof fn lemma_heap_allocs(
    c1: String,
    f1: Vec<String>,
    c2: String,
    f2: Vec<String>,
    o1: String,
    o2: String,
    m0: Machine,
    entropy: u64,
)
    requires
        c1@ != c2@,
        o1@ != o2@,
        reg(m0, 20) + 8 * f1.deep_view().len() + 8 * f2.deep_view().len() <= u64::MAX,
    ensures
        ({
            let prog = seq![
                Stmt::ClassDef { name: c1, fields: f1 },
                Stmt::ClassDef { name: c2, fields: f2 },
                Stmt::HeapAlloc { var_name: o1, class_name: c1 },
                Stmt::HeapAlloc { var_name: o2, class_name: c2 },
            ];
            let code = emitted(init_gstate(), prog);
            match eval_code(m0, code, entropy) {
                Some(m1) => reg(m1, 13) == reg(m1, 12) + 8 * f1.deep_view().len() && reg(m1, 12)
                    == reg(m0, 20) && reg(m1, 20) == reg(m0, 20) + 8 * f1.deep_view().len() + 8
                    * f2.deep_view().len() && reg(m1, 20) >= reg(m0, 20),
                None => false,
            }
        }),
{
    lemma_heap_allocs_code(c1, f1, c2, f2, o1, o2);
    let n1 = f1.deep_view().len();
    let n2 = f2.deep_view().len();
    let prog = seq![
        Stmt::ClassDef { name: c1, fields: f1 },
        Stmt::ClassDef { name: c2, fields: f2 },
        Stmt::HeapAlloc { var_name: o1, class_name: c1 },
        Stmt::HeapAlloc { var_name: o2, class_name: c2 },
    ];
    let code = emitted(init_gstate(), prog);

    let h = reg(m0, 20);
    let m1 = Machine { regs: m0.regs.insert(12, h), ..m0 };
    assert(eval_instr(m0, code[0], entropy) == Some(m1));
    let m2 = Machine { regs: m1.regs.insert(20, wadd(reg(m1, 20), sat_mul8(n1))), ..m1 };
    assert(eval_instr(m1, code[1], entropy) == Some(m2));
    assert(reg(m2, 20) == h + 8 * n1);
    let m3 = Machine { regs: m2.regs.insert(13, reg(m2, 20)), ..m2 };
    assert(eval_instr(m2, code[2], entropy) == Some(m3));
    let m4 = Machine { regs: m3.regs.insert(20, wadd(reg(m3, 20), sat_mul8(n2))), ..m3 };
    assert(eval_instr(m3, code[3], entropy) == Some(m4));

    assert(code.drop_first() =~= code.skip(1));
    assert(code.skip(1).drop_first() =~= code.skip(2));
    assert(code.skip(2).drop_first() =~= code.skip(3));
    assert(code.skip(3).drop_first() =~= Seq::<InstrV>::empty());
    assert(eval_code(m4, Seq::<InstrV>::empty(), entropy) == Some(m4));
    assert(code.skip(3).first() == code[3]);
    assert(eval_code(m3, code.skip(3), entropy) == Some(m4));
    assert(code.skip(2).first() == code[2]);
    assert(eval_code(m2, code.skip(2), entropy) == Some(m4));
    assert(code.skip(1).first() == code[1]);
    assert(eval_code(m1, code.skip(1), entropy) == Some(m4));
    assert(eval_code(m0, code, entropy) == Some(m4));

    assert(reg(m4, 12) == h);
    assert(reg(m4, 13) == h + 8 * n1);
    assert(reg(m4, 20) == h + 8 * n1 + 8 * n2);
}

} // verus!
