use hamer::generator::Generator;
use hamer::parser::{CmpOp, MathOp, Stmt};

const PROLOGUE: &str = ".global _start\n.section .text\n\n_start:\n    mov x11, #10\n    mov x0, #0\n    mov x1, #4096\n    mov x2, #3\n    mov x3, #34\n    mov x4, #-1\n    mov x5, #0\n    mov x8, #222\n    svc #0\n    mov x20, x0\n";
const EPILOGUE: &str = "\n    mov x0, #0\n    mov x8, #93\n    svc #0\n";

fn print_block(src: u64, id: usize) -> String {
    format!(
        "\n    stp x0, x1, [sp, #-16]!\n    mov x0, x{src}\n    sub sp, sp, #32\n    mov x1, sp\n    add x1, x1, #31\n    mov w2, #10\n    strb w2, [x1]\n.Lp{id}:\n    sub x1, x1, #1\n    udiv x2, x0, x11\n    msub x3, x2, x11, x0\n    add x3, x3, #48\n    strb w3, [x1]\n    mov x0, x2\n    cbnz x0, .Lp{id}\n    mov x0, #1\n    mov x2, sp\n    add x2, x2, #32\n    sub x2, x2, x1\n    mov x8, #64\n    svc #0\n    add sp, sp, #32\n    ldp x0, x1, [sp], #16\n"
    )
}

#[test]
fn local_print_whole_program() {
    let ast = vec![
        Stmt::LocalAssign { name: "x".to_string(), value: 5 },
        Stmt::PrintVar { name: "x".to_string() },
    ];
    let mut g = Generator::new();
    let out = g.generate(ast);
    // the print loop's label id is the output's byte length at emission
    let id = PROLOGUE.len() + "    mov x12, #5\n".len();
    let expected = format!("{PROLOGUE}    mov x12, #5\n{}{EPILOGUE}", print_block(12, id));
    assert_eq!(out, expected);
}

#[test]
fn print_of_unassigned_name_emits_nothing() {
    let ast = vec![Stmt::PrintVar { name: "ghostly".to_string() }];
    let mut g = Generator::new();
    let out = g.generate(ast);
    assert_eq!(out, format!("{PROLOGUE}{EPILOGUE}"));
}

#[test]
fn field_offset_is_index_times_word_size() {
    let ast = vec![
        Stmt::ClassDef {
            name: "Blob".to_string(),
            fields: vec!["a".to_string(), "b".to_string(), "c".to_string()],
        },
        Stmt::HeapAlloc { var_name: "o".to_string(), class_name: "Blob".to_string() },
        Stmt::FieldAssign { path: vec!["o".to_string(), "c".to_string()], value: 9 },
        Stmt::FieldAssign { path: vec!["o".to_string(), "a".to_string()], value: 4 },
    ];
    let mut g = Generator::new();
    let out = g.generate(ast);
    // field 2 lives at byte offset 16, field 0 at 0, whatever the order of use
    assert!(out.contains("    mov x1, #9\n    str x1, [x12, #16]\n"));
    assert!(out.contains("    mov x1, #4\n    str x1, [x12, #0]\n"));
}

#[test]
fn field_offset_follows_layout_permutation() {
    let ast = vec![
        Stmt::ClassDef {
            name: "Blob".to_string(),
            fields: vec!["c".to_string(), "a".to_string()],
        },
        Stmt::HeapAlloc { var_name: "o".to_string(), class_name: "Blob".to_string() },
        Stmt::FieldAssign { path: vec!["o".to_string(), "c".to_string()], value: 7 },
    ];
    let mut g = Generator::new();
    let out = g.generate(ast);
    // `c` is now field 0, so it lands at offset 0
    assert!(out.contains("    str x1, [x12, #0]\n"));
}

#[test]
fn print_field_loads_then_prints() {
    let ast = vec![
        Stmt::ClassDef { name: "P".to_string(), fields: vec!["v".to_string()] },
        Stmt::HeapAlloc { var_name: "o".to_string(), class_name: "P".to_string() },
        Stmt::FieldAssign { path: vec!["o".to_string(), "v".to_string()], value: 3 },
        Stmt::PrintField { path: vec!["o".to_string(), "v".to_string()] },
    ];
    let mut g = Generator::new();
    let out = g.generate(ast);
    assert!(out.contains("    ldr x2, [x12, #0]\n"));
    let id = PROLOGUE.len() + "    mov x12, x20\n    add x20, x20, #8\n    mov x1, #3\n    str x1, [x12, #0]\n    ldr x2, [x12, #0]\n".len();
    assert!(out.contains(&print_block(2, id)));
}

#[test]
fn two_allocations_are_first_size_apart() {
    let ast = vec![
        Stmt::ClassDef {
            name: "A".to_string(),
            fields: vec!["f0".to_string(), "f1".to_string()],
        },
        Stmt::ClassDef {
            name: "B".to_string(),
            fields: vec!["g0".to_string(), "g1".to_string(), "g2".to_string()],
        },
        Stmt::HeapAlloc { var_name: "x".to_string(), class_name: "A".to_string() },
        Stmt::HeapAlloc { var_name: "y".to_string(), class_name: "B".to_string() },
    ];
    let mut g = Generator::new();
    let out = g.generate(ast);
    // x at the old heap pointer; the pointer advances by 2 * 8, then y, then 3 * 8
    assert!(out.contains("    mov x12, x20\n    add x20, x20, #16\n"));
    assert!(out.contains("    mov x13, x20\n    add x20, x20, #24\n"));
    let first = out.find("add x20, x20, #16").unwrap();
    let second = out.find("add x20, x20, #24").unwrap();
    assert!(first < second);
}

#[test]
fn alloc_of_unknown_class_emits_nothing() {
    let ast = vec![Stmt::HeapAlloc {
        var_name: "o".to_string(),
        class_name: "Nowhere".to_string(),
    }];
    let mut g = Generator::new();
    let out = g.generate(ast);
    assert_eq!(out, format!("{PROLOGUE}{EPILOGUE}"));
}

#[test]
fn while_lowering_is_a_pre_test_loop_with_inverted_branch() {
    let ast = vec![
        Stmt::LocalAssign { name: "count".to_string(), value: 0 },
        Stmt::WhileStmt {
            path: vec!["count".to_string()],
            op: CmpOp::Less,
            rhs_val: 5,
            body: vec![Stmt::FieldMath {
                path: vec!["count".to_string()],
                op: MathOp::Add,
                rhs_val: 1,
            }],
        },
    ];
    let mut g = Generator::new();
    let out = g.generate(ast);
    // source `<` inverts to branch-if-greater-or-equal out of the loop
    assert!(out.contains(
        ".Lloop0:\n    mov x1, x12\n    cmp x1, #5\n    b.ge .Lexit0\n"
    ));
    // the body increments and writes back, then jumps to the pre-test
    assert!(out.contains(
        "    mov x1, x12\n    add x1, x1, #1\n    mov x12, x1\n    b .Lloop0\n.Lexit0:\n"
    ));
}

#[test]
fn if_lowering_inverts_each_operator() {
    for (op, branch) in [
        (CmpOp::Greater, "b.le"),
        (CmpOp::Less, "b.ge"),
        (CmpOp::Equal, "b.ne"),
    ] {
        let ast = vec![
            Stmt::LocalAssign { name: "x".to_string(), value: 1 },
            Stmt::IfStmt {
                path: vec!["x".to_string()],
                op,
                rhs_val: 2,
                body: vec![],
            },
        ];
        let mut g = Generator::new();
        let out = g.generate(ast);
        assert!(out.contains(&format!(
            "    mov x2, #2\n    cmp x1, x2\n    {branch} .Lif0\n.Lif0:\n"
        )));
    }
}

#[test]
fn probabilistic_branch_boundaries_in_text() {
    for chance in [0u64, 100u64] {
        let ast = vec![Stmt::ProbIf { chance, body: vec![] }];
        let mut g = Generator::new();
        let out = g.generate(ast);
        // the sample in [0, 100) is compared unsigned higher-or-same against
        // the chance: 0 always skips, 100 never does
        assert!(out.contains(&format!("    cmp x1, #{chance}\n    b.hs .Lif0\n")));
        // without an allocated runtime-state object the seed lives off x12
        assert!(out.contains("    ldr x1, [x12, #8]\n"));
        // the auto-seed check and the avalanche mix
        assert!(out.contains("    cmp x1, #0\n    b.ne .Lseedok0\n    mrs x1, cntvct_el0\n.Lseedok0:\n"));
        assert!(out.contains("    ldr x2, =0x9E3779B97F4A7C15\n    mul x1, x1, x2\n    eor x1, x1, x1, lsr #33\n"));
        assert!(out.contains("    str x1, [x12, #8]\n"));
    }
}

#[test]
fn same_program_generates_identical_text_twice() {
    let make_ast = || {
        vec![
            Stmt::ClassDef { name: "math".to_string(), fields: vec!["pad".to_string(), "seed".to_string()] },
            Stmt::HeapAlloc { var_name: "math".to_string(), class_name: "math".to_string() },
            Stmt::FieldAssign { path: vec!["math".to_string(), "seed".to_string()], value: 777 },
            Stmt::ProbIf { chance: 50, body: vec![Stmt::Rest { seconds: 1 }] },
            Stmt::ProbIf { chance: 50, body: vec![Stmt::Rest { seconds: 2 }] },
        ]
    };
    let out1 = Generator::new().generate(make_ast());
    let out2 = Generator::new().generate(make_ast());
    assert_eq!(out1, out2);
    // the seed field of the allocated runtime-state object is used
    assert!(out1.contains("    ldr x1, [x12, #8]\n"));
}

#[test]
fn nested_blocks_get_distinct_monotonic_labels() {
    let innermost = Stmt::IfStmt {
        path: vec!["x".to_string()],
        op: CmpOp::Equal,
        rhs_val: 3,
        body: vec![],
    };
    let middle = Stmt::IfStmt {
        path: vec!["x".to_string()],
        op: CmpOp::Less,
        rhs_val: 2,
        body: vec![innermost],
    };
    let outer = Stmt::IfStmt {
        path: vec!["x".to_string()],
        op: CmpOp::Greater,
        rhs_val: 1,
        body: vec![middle],
    };
    let ast = vec![Stmt::LocalAssign { name: "x".to_string(), value: 1 }, outer];
    let mut g = Generator::new();
    let out = g.generate(ast);
    // re-reading the generated text: three distinct skip labels, allocated
    // outermost first, and each defined exactly once
    let b0 = out.find("b.le .Lif0\n").unwrap();
    let b1 = out.find("b.ge .Lif1\n").unwrap();
    let b2 = out.find("b.ne .Lif2\n").unwrap();
    assert!(b0 < b1 && b1 < b2);
    for label in [".Lif0:\n", ".Lif1:\n", ".Lif2:\n"] {
        assert_eq!(out.matches(label).count(), 1);
    }
    // inner bodies close before outer ones
    let d2 = out.find(".Lif2:\n").unwrap();
    let d1 = out.find(".Lif1:\n").unwrap();
    let d0 = out.find(".Lif0:\n").unwrap();
    assert!(d2 < d1 && d1 < d0);
}

#[test]
fn print_string_declares_data_ahead_of_code() {
    let ast = vec![Stmt::PrintString { text: "hello".to_string() }];
    let mut g = Generator::new();
    let out = g.generate(ast);
    assert!(out.starts_with(".section .data\nstr_0: .ascii \"hello\\n\"\n.section .text\n"));
    // five bytes of text plus the newline
    assert!(out.contains("    mov x0, #1\n    ldr x1, =str_0\n    mov x2, #6\n    mov x8, #64\n    svc #0\n"));
}

#[test]
fn rest_builds_a_timespec_and_sleeps() {
    let ast = vec![Stmt::Rest { seconds: 3 }];
    let mut g = Generator::new();
    let out = g.generate(ast);
    assert!(out.contains(
        "    mov x0, #3\n    mov x1, #0\n    stp x0, x1, [sp, #-16]!\n    mov x0, sp\n    mov x1, #0\n    mov x8, #115\n    svc #0\n    add sp, sp, #16\n"
    ));
}

#[test]
fn raw_instruction_passes_through_verbatim() {
    let ast = vec![Stmt::RawInstruction { text: "mov x9, x10".to_string() }];
    let mut g = Generator::new();
    let out = g.generate(ast);
    assert!(out.contains("    mov x9, x10\n"));
}

#[test]
fn get_path_info_soft_failures_fall_back_to_zero() {
    let g = Generator::new();
    // unknown variable: default register 0, offset 0
    assert_eq!(g.get_path_info(&vec!["nope".to_string()]), (0, 0));
    // empty path
    assert_eq!(g.get_path_info(&vec![]), (0, 0));
}

#[test]
fn write_print_loop_labels_by_output_length() {
    let mut g = Generator::new();
    g.write_print_loop(12);
    g.write_print_loop(13);
    let mut out = String::new();
    let ast: Vec<Stmt> = vec![];
    out.push_str(&g.generate(ast));
    // successive print loops are labelled by the strictly growing output
    // byte length, so their labels never collide
    let id1 = PROLOGUE.len();
    let id2 = id1 + print_block(12, id1).len();
    assert!(out.contains(&format!(".Lp{id1}:")));
    assert!(out.contains(&format!(".Lp{id2}:")));
}

#[test]
fn print_does_not_advance_the_label_counter() {
    // the label counter belongs to control constructs and data labels; a
    // print between two ifs leaves their ids consecutive
    let ast = vec![
        Stmt::LocalAssign { name: "x".to_string(), value: 1 },
        Stmt::IfStmt { path: vec!["x".to_string()], op: CmpOp::Equal, rhs_val: 1, body: vec![] },
        Stmt::PrintVar { name: "x".to_string() },
        Stmt::IfStmt { path: vec!["x".to_string()], op: CmpOp::Equal, rhs_val: 2, body: vec![] },
    ];
    let mut g = Generator::new();
    let out = g.generate(ast);
    assert!(out.contains("b.ne .Lif0\n.Lif0:\n"));
    assert!(out.contains("b.ne .Lif1\n.Lif1:\n"));
}

#[test]
fn raw_block_splits_before_recognized_mnemonics() {
    let ast = vec![Stmt::RawInstruction { text: "mov x1, x2 mov x3, x4 ret x5".to_string() }];
    let mut g = Generator::new();
    let out = g.generate(ast);
    // each recognised mnemonic starts a line of its own; an unrecognised
    // word stays on the line it was on
    assert!(out.contains("    mov x1, x2\n    mov x3, x4 ret x5\n"));
}
