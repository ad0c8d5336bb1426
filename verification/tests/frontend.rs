use hamer::generator::Generator;
use hamer::imports::import_target;
use hamer::lexer::{Lexer, Token};
use hamer::numfmt::u64_to_string;
use hamer::parser::{CmpOp, MathOp, Parser, Stmt};

fn tokenize(src: &str) -> Vec<Token> {
    let mut lexer = Lexer::new(src.to_string());
    let mut tokens = Vec::new();
    loop {
        let t = lexer.next_token();
        let done = matches!(t, Token::EOF);
        tokens.push(t);
        if done {
            break;
        }
    }
    tokens
}

#[test]
fn decimal_rendering_exact_values() {
    assert_eq!(u64_to_string(0), "0");
    assert_eq!(u64_to_string(7), "7");
    assert_eq!(u64_to_string(10), "10");
    assert_eq!(u64_to_string(90210), "90210");
    assert_eq!(u64_to_string(u64::MAX), "18446744073709551615");
}

#[test]
fn lexer_recognises_keywords_and_punctuation() {
    let toks = tokenize("local x = 5 if ? while done @ , . [ ] > < + - * / == =");
    assert!(matches!(toks[0], Token::Local));
    assert!(matches!(toks[1], Token::Identifier(ref s) if s == "x"));
    assert!(matches!(toks[2], Token::Assign));
    assert!(matches!(toks[3], Token::Number(5)));
    assert!(matches!(toks[4], Token::If));
    assert!(matches!(toks[5], Token::Quest));
    assert!(matches!(toks[6], Token::While));
    assert!(matches!(toks[7], Token::Done));
    assert!(matches!(toks[8], Token::At));
    assert!(matches!(toks[9], Token::Comma));
    assert!(matches!(toks[10], Token::Dot));
    assert!(matches!(toks[11], Token::LeftBracket));
    assert!(matches!(toks[12], Token::RightBracket));
    assert!(matches!(toks[13], Token::Greater));
    assert!(matches!(toks[14], Token::Less));
    assert!(matches!(toks[15], Token::Plus));
    assert!(matches!(toks[16], Token::Minus));
    assert!(matches!(toks[17], Token::Star));
    assert!(matches!(toks[18], Token::Slash));
    assert!(matches!(toks[19], Token::Equal));
    assert!(matches!(toks[20], Token::Assign));
    assert!(matches!(toks[21], Token::EOF));
}

#[test]
fn lexer_strings_numbers_and_junk() {
    let toks = tokenize("print \"hi there\" 42 ~~~ rest");
    assert!(matches!(toks[0], Token::Print));
    assert!(matches!(toks[1], Token::StringLit(ref s) if s == "hi there"));
    assert!(matches!(toks[2], Token::Number(42)));
    // unknown characters are skipped silently
    assert!(matches!(toks[3], Token::Rest));
    assert!(matches!(toks[4], Token::EOF));
}

#[test]
fn lexer_number_value_is_leading_digit_run() {
    let toks = tokenize("3.99");
    assert!(matches!(toks[0], Token::Number(3)));
    assert!(matches!(toks[1], Token::EOF));
}

#[test]
fn lexer_number_with_two_dots_is_malformed() {
    // a digit-and-dot run with more than one dot is no decimal literal and
    // falls back to value 0, consumed as one token
    let toks = tokenize("1.2.3 ok");
    assert!(matches!(toks[0], Token::Number(0)));
    assert!(matches!(toks[1], Token::Identifier(ref s) if s == "ok"));
}

#[test]
fn parser_builds_local_assign_and_alloc() {
    let mut p = Parser::new(tokenize("local hp = 100 local o = new Orc"));
    let ast = p.parse_program();
    assert_eq!(ast.len(), 2);
    assert!(matches!(
        ast[0],
        Stmt::LocalAssign { ref name, value: 100 } if name == "hp"
    ));
    assert!(matches!(
        ast[1],
        Stmt::HeapAlloc { ref var_name, ref class_name } if var_name == "o" && class_name == "Orc"
    ));
}

#[test]
fn parser_builds_class_and_field_statements() {
    // in an update the token right after the assign is skipped as the
    // self-reference, so the operator and value follow it directly
    let mut p = Parser::new(tokenize("class Orc is hp mana done o.hp = 30 o.hp = hp - 5"));
    let ast = p.parse_program();
    assert_eq!(ast.len(), 3);
    match &ast[0] {
        Stmt::ClassDef { name, fields } => {
            assert_eq!(name, "Orc");
            assert_eq!(fields, &vec!["hp".to_string(), "mana".to_string()]);
        }
        other => panic!("expected a class definition, got {:?}", other),
    }
    match &ast[1] {
        Stmt::FieldAssign { path, value } => {
            assert_eq!(path, &vec!["o".to_string(), "hp".to_string()]);
            assert_eq!(*value, 30);
        }
        other => panic!("expected a field assignment, got {:?}", other),
    }
    match &ast[2] {
        Stmt::FieldMath { path, op, rhs_val } => {
            assert_eq!(path, &vec!["o".to_string(), "hp".to_string()]);
            assert!(matches!(op, MathOp::Sub));
            assert_eq!(*rhs_val, 5);
        }
        other => panic!("expected a field update, got {:?}", other),
    }
}

#[test]
fn parser_builds_control_flow() {
    let mut p = Parser::new(tokenize(
        "while count < 5 do count = count + 1 done if ? % 30 then rest 1 done",
    ));
    let ast = p.parse_program();
    assert_eq!(ast.len(), 2);
    match &ast[0] {
        Stmt::WhileStmt { path, op, rhs_val, body } => {
            assert_eq!(path, &vec!["count".to_string()]);
            assert!(matches!(op, CmpOp::Less));
            assert_eq!(*rhs_val, 5);
            assert_eq!(body.len(), 1);
        }
        other => panic!("expected a while loop, got {:?}", other),
    }
    match &ast[1] {
        Stmt::ProbIf { chance, body } => {
            assert_eq!(*chance, 30);
            assert_eq!(body.len(), 1);
            assert!(matches!(body[0], Stmt::Rest { seconds: 1 }));
        }
        other => panic!("expected a probabilistic if, got {:?}", other),
    }
}

#[test]
fn parser_print_variants() {
    let mut p = Parser::new(tokenize("print \"hey\" print x print o.hp"));
    let ast = p.parse_program();
    assert_eq!(ast.len(), 3);
    assert!(matches!(ast[0], Stmt::PrintString { ref text } if text == "hey"));
    assert!(matches!(ast[1], Stmt::PrintVar { ref name } if name == "x"));
    assert!(matches!(
        ast[2],
        Stmt::PrintField { ref path } if path == &vec!["o".to_string(), "hp".to_string()]
    ));
}

#[test]
fn parser_raw_block_collects_tokens() {
    let mut p = Parser::new(tokenize("@ asm is mov , [ x ] 7 done"));
    let ast = p.parse_program();
    assert_eq!(ast.len(), 1);
    match &ast[0] {
        Stmt::RawInstruction { text } => {
            assert_eq!(text, "mov , [ x ] 7 ");
        }
        other => panic!("expected a raw block, got {:?}", other),
    }
}

#[test]
fn parser_unknown_head_becomes_nop() {
    let mut p = Parser::new(tokenize("+ local x = 1"));
    let ast = p.parse_program();
    assert_eq!(ast.len(), 2);
    assert!(matches!(ast[0], Stmt::RawInstruction { ref text } if text == "nop"));
    assert!(matches!(ast[1], Stmt::LocalAssign { ref name, value: 1 } if name == "x"));
}

#[test]
fn import_lines_are_recognised() {
    assert_eq!(import_target("GET stdlib"), Some("stdlib".to_string()));
    assert_eq!(import_target("  get \"weapons\"  "), Some("weapons".to_string()));
    assert_eq!(import_target("Get lib extra"), Some("lib".to_string()));
    // every quote character is removed from the name, not only edge quotes
    assert_eq!(import_target("GET we\"apo\"ns"), Some("weapons".to_string()));
    assert_eq!(import_target("local x = 5"), None);
    assert_eq!(import_target("GET"), None);
    assert_eq!(import_target(""), None);
}

#[test]
fn whole_pipeline_counts_to_five() {
    let src = "local count = 0\nwhile count < 5 do\ncount = count + 1\ndone\nprint count\n";
    let mut p = Parser::new(tokenize(src));
    let ast = p.parse_program();
    let mut g = Generator::new();
    let out = g.generate(ast);
    assert!(out.contains("    mov x12, #0\n"));
    assert!(out.contains(".Lloop0:\n    mov x1, x12\n    cmp x1, #5\n    b.ge .Lexit0\n"));
    assert!(out.contains("    add x1, x1, #1\n"));
    assert!(out.contains("    b .Lloop0\n.Lexit0:\n"));
    assert!(out.contains("    mov x0, x12\n"));
    assert!(out.ends_with("\n    mov x0, #0\n    mov x8, #93\n    svc #0\n"));
}
