//! Statement nodes of the source language, and the recursive-descent parser
//! that builds them from tokens.
//!
//! A [`Stmt`] is one of a fixed set of tagged variants; nested bodies
//! (`if` / `while` / probabilistic `if`) hold further statements. A *path*
//! is a non-empty ordered sequence of identifiers: the first segment is a
//! variable name, the second (if present) a field name on the object that
//! variable refers to.
//!
//! Parsing is specified exactly by [`spec_parse_stmt`], a recursive function
//! from the token sequence and a position to the statement read (as a
//! [`StmtV`], the statement's mathematical view) and the position after it.
//! The parser consumes tokens permissively: missing pieces fall back to
//! defaults, and an unrecognised statement head is consumed (one token at a
//! time) and lowered to a harmless raw `nop` line, so parsing never fails.

use vstd::prelude::*;
use vstd::string::{StringExecFns, StrSliceExecFns};
use crate::lexer::Token;
use crate::numfmt::{dec_str, push_dec};

verus! {

broadcast use vstd::std_specs::vec::group_vec_axioms, vstd::seq::group_seq_axioms;

/// A relational operator of an `if` or `while` condition. Any token that is
/// not strictly `>` or `<` is treated as equality, which is the documented
/// default comparison.
#[derive(Clone, Copy, Debug, PartialEq, Eq, Structural)]
pub enum CmpOp {
    Greater,
    Less,
    Equal,
}

/// An arithmetic update operator of a field-math statement. Any operator
/// that is not strictly `-` is treated as addition, the documented default.
#[derive(Clone, Copy, Debug, PartialEq, Eq, Structural)]
pub enum MathOp {
    Add,
    Sub,
}

/// One statement of the source program.
#[derive(Debug)]
pub enum Stmt {
    /// `local name = value`: bind `name` to a fresh register and load the
    /// immediate `value` into it.
    LocalAssign { name: String, value: u64 },
    /// `class Name is f0 f1 ... done`: record the ordered field list of a
    /// class; field `i` lives at byte offset `i * 8`.
    ClassDef { name: String, fields: Vec<String> },
    /// `local var = new Class`: bump-allocate an object of `Class` and bind
    /// `var` to a register holding its base address.
    HeapAlloc { var_name: String, class_name: String },
    /// `path = value`: store the immediate `value` into the variable or
    /// field that `path` resolves to.
    FieldAssign { path: Vec<String>, value: u64 },
    /// `path = path op value`: read the path, add or subtract the immediate,
    /// and write the result back.
    FieldMath { path: Vec<String>, op: MathOp, rhs_val: u64 },
    /// `print name`: print the decimal value of a variable, newline-terminated.
    PrintVar { name: String },
    /// `print obj.field`: print the decimal value of a field.
    PrintField { path: Vec<String> },
    /// `print "text"`: print a string literal, newline-terminated.
    PrintString { text: String },
    /// `if path op value ... done`: run the body once when the comparison
    /// holds.
    IfStmt { path: Vec<String>, op: CmpOp, rhs_val: u64, body: Vec<Stmt> },
    /// `while path op value ... done`: pre-test loop over the body.
    WhileStmt { path: Vec<String>, op: CmpOp, rhs_val: u64, body: Vec<Stmt> },
    /// `if ? chance % ... done`: run the body with probability `chance`/100,
    /// decided at runtime by the seeded pseudo-random sampler.
    ProbIf { chance: u64, body: Vec<Stmt> },
    /// `rest seconds`: block the whole process for the given whole seconds.
    Rest { seconds: u64 },
    /// `@ kind ... done`: an already-tokenized block of low-level mnemonics,
    /// inserted into the output and never validated.
    RawInstruction { text: String },
}

/// The mathematical view of a [`Stmt`]: identical except that embedded
/// strings are character sequences.
pub ghost enum StmtV {
    LocalAssign { name: Seq<char>, value: u64 },
    ClassDef { name: Seq<char>, fields: Seq<Seq<char>> },
    HeapAlloc { var_name: Seq<char>, class_name: Seq<char> },
    FieldAssign { path: Seq<Seq<char>>, value: u64 },
    FieldMath { path: Seq<Seq<char>>, op: MathOp, rhs_val: u64 },
    PrintVar { name: Seq<char> },
    PrintField { path: Seq<Seq<char>> },
    PrintString { text: Seq<char> },
    IfStmt { path: Seq<Seq<char>>, op: CmpOp, rhs_val: u64, body: Seq<StmtV> },
    WhileStmt { path: Seq<Seq<char>>, op: CmpOp, rhs_val: u64, body: Seq<StmtV> },
    ProbIf { chance: u64, body: Seq<StmtV> },
    Rest { seconds: u64 },
    RawInstruction { text: Seq<char> },
}

/// The view of one statement.
pub open spec fn stmt_view(s: Stmt) -> StmtV
    decreases s,
{
    match s {
        Stmt::LocalAssign { name, value } => StmtV::LocalAssign { name: name@, value },
        Stmt::ClassDef { name, fields } => StmtV::ClassDef { name: name@, fields: fields.deep_view() },
        Stmt::HeapAlloc { var_name, class_name } => StmtV::HeapAlloc {
            var_name: var_name@,
            class_name: class_name@,
        },
        Stmt::FieldAssign { path, value } => StmtV::FieldAssign { path: path.deep_view(), value },
        Stmt::FieldMath { path, op, rhs_val } => StmtV::FieldMath {
            path: path.deep_view(),
            op,
            rhs_val,
        },
        Stmt::PrintVar { name } => StmtV::PrintVar { name: name@ },
        Stmt::PrintField { path } => StmtV::PrintField { path: path.deep_view() },
        Stmt::PrintString { text } => StmtV::PrintString { text: text@ },
        Stmt::IfStmt { path, op, rhs_val, body } => StmtV::IfStmt {
            path: path.deep_view(),
            op,
            rhs_val,
            body: stmts_view(body@),
        },
        Stmt::WhileStmt { path, op, rhs_val, body } => StmtV::WhileStmt {
            path: path.deep_view(),
            op,
            rhs_val,
            body: stmts_view(body@),
        },
        Stmt::ProbIf { chance, body } => StmtV::ProbIf { chance, body: stmts_view(body@) },
        Stmt::Rest { seconds } => StmtV::Rest { seconds },
        Stmt::RawInstruction { text } => StmtV::RawInstruction { text: text@ },
    }
}

/// The views of a statement sequence, in order.
pub open spec fn stmts_view(ss: Seq<Stmt>) -> Seq<StmtV>
    decreases ss,
{
    if ss.len() == 0 {
        Seq::<StmtV>::empty()
    } else {
        stmts_view(ss.drop_last()).push(stmt_view(ss.last()))
    }
}

/// Appending one statement appends its view.
pub proof fn lemma_stmts_view_snoc(ss: Seq<Stmt>, s: Stmt)
    ensures
        stmts_view(ss.push(s)) == stmts_view(ss).push(stmt_view(s)),
{
    assert(ss.push(s).drop_last() =~= ss);
    assert(ss.push(s).last() == s);
}

/// The shape of a token, without its payload; the end marker doubles as
/// "no tokens left".
#[derive(Clone, Copy, Debug, PartialEq, Eq, Structural)]
pub enum TokenKind {
    Class,
    Is,
    Done,
    Local,
    Print,
    Get,
    At,
    Assign,
    Dot,
    New,
    If,
    Then,
    While,
    Do,
    Greater,
    Less,
    Equal,
    Plus,
    Minus,
    Star,
    Slash,
    Comma,
    Rest,
    Quest,
    Percent,
    LeftBracket,
    RightBracket,
    Identifier,
    Number,
    StringLit,
    EOF,
}

/// The kind of a token.
pub open spec fn kind_of(t: Token) -> TokenKind {
    match t {
        Token::Class => TokenKind::Class,
        Token::Is => TokenKind::Is,
        Token::Done => TokenKind::Done,
        Token::Local => TokenKind::Local,
        Token::Print => TokenKind::Print,
        Token::Get => TokenKind::Get,
        Token::At => TokenKind::At,
        Token::Assign => TokenKind::Assign,
        Token::Dot => TokenKind::Dot,
        Token::New => TokenKind::New,
        Token::If => TokenKind::If,
        Token::Then => TokenKind::Then,
        Token::While => TokenKind::While,
        Token::Do => TokenKind::Do,
        Token::Greater => TokenKind::Greater,
        Token::Less => TokenKind::Less,
        Token::Equal => TokenKind::Equal,
        Token::Plus => TokenKind::Plus,
        Token::Minus => TokenKind::Minus,
        Token::Star => TokenKind::Star,
        Token::Slash => TokenKind::Slash,
        Token::Comma => TokenKind::Comma,
        Token::Rest => TokenKind::Rest,
        Token::Quest => TokenKind::Quest,
        Token::Percent => TokenKind::Percent,
        Token::LeftBracket => TokenKind::LeftBracket,
        Token::RightBracket => TokenKind::RightBracket,
        Token::Identifier(s) => TokenKind::Identifier,
        Token::Number(n) => TokenKind::Number,
        Token::StringLit(s) => TokenKind::StringLit,
        Token::EOF => TokenKind::EOF,
    }
}

/// The kind of the token at `i`; the end marker past the end.
pub open spec fn tok_kind_at(ts: Seq<Token>, i: nat) -> TokenKind {
    if i < ts.len() {
        kind_of(ts[i as int])
    } else {
        TokenKind::EOF
    }
}

/// The position after consuming one token (a no-op at the end).
pub open spec fn step_pos(ts: Seq<Token>, i: nat) -> nat {
    if i < ts.len() {
        i + 1
    } else {
        i
    }
}

/// The identifier text at `i`, or `default` for any other token.
pub open spec fn ident_at(ts: Seq<Token>, i: nat, default: Seq<char>) -> Seq<char> {
    if i < ts.len() {
        match ts[i as int] {
            Token::Identifier(s) => s@,
            _ => default,
        }
    } else {
        default
    }
}

/// The string-literal text at `i`, or empty for any other token.
pub open spec fn string_at(ts: Seq<Token>, i: nat) -> Seq<char> {
    if i < ts.len() {
        match ts[i as int] {
            Token::StringLit(s) => s@,
            _ => Seq::<char>::empty(),
        }
    } else {
        Seq::<char>::empty()
    }
}

/// The numeric value at `i`, or 0 for any other token.
pub open spec fn number_at(ts: Seq<Token>, i: nat) -> u64 {
    if i < ts.len() {
        match ts[i as int] {
            Token::Number(n) => n,
            _ => 0,
        }
    } else {
        0
    }
}

/// The comparison the token at `i` denotes: anything that is not strictly
/// `>` or `<` is the equality comparison.
pub open spec fn cmp_op_at(ts: Seq<Token>, i: nat) -> CmpOp {
    match tok_kind_at(ts, i) {
        TokenKind::Greater => CmpOp::Greater,
        TokenKind::Less => CmpOp::Less,
        _ => CmpOp::Equal,
    }
}

/// The update operator the token at `i` denotes: anything that is not
/// strictly `-` is addition.
pub open spec fn math_op_at(ts: Seq<Token>, i: nat) -> MathOp {
    match tok_kind_at(ts, i) {
        TokenKind::Minus => MathOp::Sub,
        _ => MathOp::Add,
    }
}

/// The position after skipping `<` and `%` noise before a chance value.
pub open spec fn skip_chance_prefix(ts: Seq<Token>, i: nat) -> nat
    decreases ts.len() - i,
{
    if tok_kind_at(ts, i) == TokenKind::Less || tok_kind_at(ts, i) == TokenKind::Percent {
        skip_chance_prefix(ts, i + 1)
    } else {
        i
    }
}

/// The position after skipping `>`, `is` and `then` noise after a chance.
pub open spec fn skip_chance_suffix(ts: Seq<Token>, i: nat) -> nat
    decreases ts.len() - i,
{
    if tok_kind_at(ts, i) == TokenKind::Greater || tok_kind_at(ts, i) == TokenKind::Is
        || tok_kind_at(ts, i) == TokenKind::Then {
        skip_chance_suffix(ts, i + 1)
    } else {
        i
    }
}

/// The position after skipping `then` and `is` before an `if` body.
pub open spec fn skip_then_is(ts: Seq<Token>, i: nat) -> nat
    decreases ts.len() - i,
{
    if tok_kind_at(ts, i) == TokenKind::Then || tok_kind_at(ts, i) == TokenKind::Is {
        skip_then_is(ts, i + 1)
    } else {
        i
    }
}

/// The position after skipping `do` and `is` before a `while` body.
pub open spec fn skip_do_is(ts: Seq<Token>, i: nat) -> nat
    decreases ts.len() - i,
{
    if tok_kind_at(ts, i) == TokenKind::Do || tok_kind_at(ts, i) == TokenKind::Is {
        skip_do_is(ts, i + 1)
    } else {
        i
    }
}

/// The dot-identifier pairs continuing a path: each dot is consumed; a dot
/// not followed by an identifier ends the path with the dot consumed.
pub open spec fn path_rest(ts: Seq<Token>, i: nat) -> (Seq<Seq<char>>, nat)
    decreases ts.len() - i,
{
    if tok_kind_at(ts, i) == TokenKind::Dot {
        if tok_kind_at(ts, i + 1) == TokenKind::Identifier {
            let (rest, k) = path_rest(ts, i + 2);
            (seq![ident_at(ts, i + 1, Seq::<char>::empty())] + rest, k)
        } else {
            (Seq::<Seq<char>>::empty(), i + 1)
        }
    } else {
        (Seq::<Seq<char>>::empty(), i)
    }
}

/// A dotted path: an identifier followed by dot-identifier pairs, and the
/// position after it. Anything else yields the empty path with nothing
/// consumed.
pub open spec fn spec_parse_path(ts: Seq<Token>, i: nat) -> (Seq<Seq<char>>, nat) {
    if tok_kind_at(ts, i) == TokenKind::Identifier {
        let (rest, k) = path_rest(ts, i + 1);
        (seq![ident_at(ts, i, Seq::<char>::empty())] + rest, k)
    } else {
        (Seq::<Seq<char>>::empty(), i)
    }
}

/// The text a raw block's tokens assemble to, read until `done` or the end:
/// identifiers, numbers (in decimal) and quoted strings each followed by a
/// blank, commas and brackets with fixed spacing, all other tokens dropped.
pub open spec fn raw_block_text(ts: Seq<Token>, i: nat) -> (Seq<char>, nat)
    decreases ts.len() - i,
{
    if tok_kind_at(ts, i) == TokenKind::Done || tok_kind_at(ts, i) == TokenKind::EOF {
        (Seq::<char>::empty(), i)
    } else {
        let piece = match ts[i as int] {
            Token::Identifier(s) => s@ + " "@,
            Token::Number(n) => dec_str(n as nat) + " "@,
            Token::StringLit(s) => "\""@ + s@ + "\" "@,
            Token::Comma => ", "@,
            Token::LeftBracket => "[ "@,
            Token::RightBracket => "] "@,
            _ => Seq::<char>::empty(),
        };
        let (rest, k) = raw_block_text(ts, i + 1);
        (piece + rest, k)
    }
}

/// The field names of a class body, read until `done` or the end: every
/// identifier joins the layout, anything else is skipped.
pub open spec fn class_fields(ts: Seq<Token>, i: nat) -> (Seq<Seq<char>>, nat)
    decreases ts.len() - i,
{
    if tok_kind_at(ts, i) == TokenKind::Done || tok_kind_at(ts, i) == TokenKind::EOF {
        (Seq::<Seq<char>>::empty(), i)
    } else {
        let (rest, k) = class_fields(ts, i + 1);
        match ts[i as int] {
            Token::Identifier(s) => (seq![s@] + rest, k),
            _ => (rest, k),
        }
    }
}

/// The position a nested parse resumes at. A statement parse always
/// consumes at least one token and never passes the end; this guard makes
/// both manifest for the recursion measure and is the identity whenever
/// they hold.
pub open spec fn resume_at(ts: Seq<Token>, i: nat, j: nat) -> nat {
    if j <= i {
        i + 1
    } else if j > ts.len() {
        ts.len()
    } else {
        j
    }
}

/// One statement read at position `i`, and the position after it.
pub open spec fn spec_parse_stmt(ts: Seq<Token>, i: nat) -> (StmtV, nat)
    decreases ts.len() - i, 0int,
{
    match tok_kind_at(ts, i) {
        TokenKind::Get => {
            let j1 = step_pos(ts, i);
            let name = ident_at(ts, j1, "lib"@);
            let j2 = step_pos(ts, j1);
            (StmtV::RawInstruction { text: "// unresolved include "@ + name }, j2)
        },
        TokenKind::At => {
            let j1 = step_pos(ts, i);
            let j2 = step_pos(ts, j1);
            let j3 = if tok_kind_at(ts, j2) == TokenKind::Is {
                step_pos(ts, j2)
            } else {
                j2
            };
            let (text, j4) = raw_block_text(ts, j3);
            let j5 = if tok_kind_at(ts, j4) == TokenKind::Done {
                step_pos(ts, j4)
            } else {
                j4
            };
            (StmtV::RawInstruction { text }, j5)
        },
        TokenKind::Local => {
            let j1 = step_pos(ts, i);
            let name = ident_at(ts, j1, "tmp"@);
            let j2 = step_pos(ts, j1);
            let j3 = if tok_kind_at(ts, j2) == TokenKind::Assign {
                step_pos(ts, j2)
            } else {
                j2
            };
            if tok_kind_at(ts, j3) == TokenKind::New {
                let j4 = step_pos(ts, j3);
                let cn = ident_at(ts, j4, "Object"@);
                let j5 = step_pos(ts, j4);
                (StmtV::HeapAlloc { var_name: name, class_name: cn }, j5)
            } else {
                (StmtV::LocalAssign { name, value: number_at(ts, j3) }, step_pos(ts, j3))
            }
        },
        TokenKind::Class => {
            let j1 = step_pos(ts, i);
            let name = ident_at(ts, j1, "Unnamed"@);
            let j2 = step_pos(ts, j1);
            let j3 = if tok_kind_at(ts, j2) == TokenKind::Is {
                step_pos(ts, j2)
            } else {
                j2
            };
            let (fields, j4) = class_fields(ts, j3);
            let j5 = if tok_kind_at(ts, j4) == TokenKind::Done {
                step_pos(ts, j4)
            } else {
                j4
            };
            (StmtV::ClassDef { name, fields }, j5)
        },
        TokenKind::Rest => {
            let j1 = step_pos(ts, i);
            (StmtV::Rest { seconds: number_at(ts, j1) }, step_pos(ts, j1))
        },
        TokenKind::Print => {
            let j1 = step_pos(ts, i);
            if tok_kind_at(ts, j1) == TokenKind::StringLit {
                (StmtV::PrintString { text: string_at(ts, j1) }, step_pos(ts, j1))
            } else {
                let (p, j2) = spec_parse_path(ts, j1);
                if p.len() > 1 {
                    (StmtV::PrintField { path: p }, j2)
                } else if p.len() == 1 {
                    (StmtV::PrintVar { name: p[0] }, j2)
                } else {
                    (StmtV::PrintVar { name: Seq::<char>::empty() }, j2)
                }
            }
        },
        TokenKind::If => {
            let j1 = step_pos(ts, i);
            if tok_kind_at(ts, j1) == TokenKind::Quest {
                let j2 = step_pos(ts, j1);
                let j3 = skip_chance_prefix(ts, j2);
                let chance = number_at(ts, j3);
                let j4 = step_pos(ts, j3);
                let j5 = skip_chance_suffix(ts, j4);
                let (body, j6) = spec_parse_block(ts, resume_at(ts, i, j5));
                let j7 = if tok_kind_at(ts, j6) == TokenKind::Done {
                    step_pos(ts, j6)
                } else {
                    j6
                };
                (StmtV::ProbIf { chance, body }, j7)
            } else {
                let (p, j2) = spec_parse_path(ts, j1);
                let op = cmp_op_at(ts, j2);
                let j3 = step_pos(ts, j2);
                let rhs_val = number_at(ts, j3);
                let j4 = step_pos(ts, j3);
                let j5 = skip_then_is(ts, j4);
                let (body, j6) = spec_parse_block(ts, resume_at(ts, i, j5));
                let j7 = if tok_kind_at(ts, j6) == TokenKind::Done {
                    step_pos(ts, j6)
                } else {
                    j6
                };
                (StmtV::IfStmt { path: p, op, rhs_val, body }, j7)
            }
        },
        TokenKind::While => {
            let j1 = step_pos(ts, i);
            let (p, j2) = spec_parse_path(ts, j1);
            let op = cmp_op_at(ts, j2);
            let j3 = step_pos(ts, j2);
            let rhs_val = number_at(ts, j3);
            let j4 = step_pos(ts, j3);
            let j5 = skip_do_is(ts, j4);
            let (body, j6) = spec_parse_block(ts, resume_at(ts, i, j5));
            let j7 = if tok_kind_at(ts, j6) == TokenKind::Done {
                step_pos(ts, j6)
            } else {
                j6
            };
            (StmtV::WhileStmt { path: p, op, rhs_val, body }, j7)
        },
        _ => {
            let (p, j1) = spec_parse_path(ts, i);
            if tok_kind_at(ts, j1) == TokenKind::Assign {
                let j2 = step_pos(ts, j1);
                if tok_kind_at(ts, j2) == TokenKind::Number {
                    (StmtV::FieldAssign { path: p, value: number_at(ts, j2) }, step_pos(ts, j2))
                } else {
                    let j3 = step_pos(ts, j2);
                    let op = math_op_at(ts, j3);
                    let j4 = step_pos(ts, j3);
                    let rhs_val = number_at(ts, j4);
                    let j5 = step_pos(ts, j4);
                    (StmtV::FieldMath { path: p, op, rhs_val }, j5)
                }
            } else {
                (StmtV::RawInstruction { text: "nop"@ }, step_pos(ts, j1))
            }
        },
    }
}

/// The statements of a nested body, read until `done` or the end, and the
/// position of that stopping token.
pub open spec fn spec_parse_block(ts: Seq<Token>, i: nat) -> (Seq<StmtV>, nat)
    decreases ts.len() - i, 1int,
{
    if tok_kind_at(ts, i) == TokenKind::Done || tok_kind_at(ts, i) == TokenKind::EOF {
        (Seq::<StmtV>::empty(), i)
    } else {
        let (s, j) = spec_parse_stmt(ts, i);
        let (rest, k) = spec_parse_block(ts, resume_at(ts, i, j));
        (seq![s] + rest, k)
    }
}

/// The statements of a whole program, read until the end marker.
pub open spec fn spec_parse_program(ts: Seq<Token>, i: nat) -> (Seq<StmtV>, nat)
    decreases ts.len() - i, 2int,
{
    if tok_kind_at(ts, i) == TokenKind::EOF {
        (Seq::<StmtV>::empty(), i)
    } else {
        let (s, j) = spec_parse_stmt(ts, i);
        let (rest, k) = spec_parse_program(ts, resume_at(ts, i, j));
        (seq![s] + rest, k)
    }
}

/// The recursive-descent parser over a token sequence.
pub struct Parser {
    pub tokens: Vec<Token>,
    pub pos: usize,
}

impl Parser {
    /// A parser at the start of `tokens`.
    pub fn new(tokens: Vec<Token>) -> (p: Parser)
        ensures
            p.tokens == tokens,
            p.pos == 0,
    {
        Parser { tokens, pos: 0 }
    }

    /// The kind of the current token; the end marker past the end.
    pub open spec fn peek_kind_spec(&self) -> TokenKind {
        tok_kind_at(self.tokens@, self.pos as nat)
    }

    fn peek_kind(&self) -> (k: TokenKind)
        requires
            self.pos <= self.tokens@.len(),
        ensures
            k == self.peek_kind_spec(),
    {
        if self.pos < self.tokens.len() {
            match &self.tokens[self.pos] {
                Token::Class => TokenKind::Class,
                Token::Is => TokenKind::Is,
                Token::Done => TokenKind::Done,
                Token::Local => TokenKind::Local,
                Token::Print => TokenKind::Print,
                Token::Get => TokenKind::Get,
                Token::At => TokenKind::At,
                Token::Assign => TokenKind::Assign,
                Token::Dot => TokenKind::Dot,
                Token::New => TokenKind::New,
                Token::If => TokenKind::If,
                Token::Then => TokenKind::Then,
                Token::While => TokenKind::While,
                Token::Do => TokenKind::Do,
                Token::Greater => TokenKind::Greater,
                Token::Less => TokenKind::Less,
                Token::Equal => TokenKind::Equal,
                Token::Plus => TokenKind::Plus,
                Token::Minus => TokenKind::Minus,
                Token::Star => TokenKind::Star,
                Token::Slash => TokenKind::Slash,
                Token::Comma => TokenKind::Comma,
                Token::Rest => TokenKind::Rest,
                Token::Quest => TokenKind::Quest,
                Token::Percent => TokenKind::Percent,
                Token::LeftBracket => TokenKind::LeftBracket,
                Token::RightBracket => TokenKind::RightBracket,
                Token::Identifier(s) => TokenKind::Identifier,
                Token::Number(n) => TokenKind::Number,
                Token::StringLit(s) => TokenKind::StringLit,
                Token::EOF => TokenKind::EOF,
            }
        } else {
            TokenKind::EOF
        }
    }

    /// Consumes one token (a no-op at the end of the input).
    fn bump(&mut self)
        requires
            old(self).pos <= old(self).tokens@.len(),
        ensures
            final(self).tokens == old(self).tokens,
            final(self).pos as nat == step_pos(old(self).tokens@, old(self).pos as nat),
    {
        if self.pos < self.tokens.len() {
            self.pos = self.pos + 1;
        }
    }

    /// Consumes one token and returns its identifier text, or `default` for
    /// any other token.
    fn take_identifier(&mut self, default: &str) -> (r: String)
        requires
            old(self).pos <= old(self).tokens@.len(),
        ensures
            final(self).tokens == old(self).tokens,
            final(self).pos as nat == step_pos(old(self).tokens@, old(self).pos as nat),
            r@ == ident_at(old(self).tokens@, old(self).pos as nat, default@),
    {
        let mut out: Option<String> = None;
        if self.pos < self.tokens.len() {
            if let Token::Identifier(s) = &self.tokens[self.pos] {
                out = Some(s.clone());
            }
        }
        self.bump();
        match out {
            Some(s) => s,
            None => default.to_owned(),
        }
    }

    /// Consumes one token and returns its numeric value, or 0 for any other
    /// token.
    fn take_number(&mut self) -> (r: u64)
        requires
            old(self).pos <= old(self).tokens@.len(),
        ensures
            final(self).tokens == old(self).tokens,
            final(self).pos as nat == step_pos(old(self).tokens@, old(self).pos as nat),
            r == number_at(old(self).tokens@, old(self).pos as nat),
    {
        let mut out: u64 = 0;
        if self.pos < self.tokens.len() {
            if let Token::Number(n) = &self.tokens[self.pos] {
                out = *n;
            }
        }
        self.bump();
        out
    }

    /// Consumes one token and reads it as a comparison operator; anything
    /// that is not strictly `>` or `<` is the equality comparison.
    fn take_cmp_op(&mut self) -> (r: CmpOp)
        requires
            old(self).pos <= old(self).tokens@.len(),
        ensures
            final(self).tokens == old(self).tokens,
            final(self).pos as nat == step_pos(old(self).tokens@, old(self).pos as nat),
            r == cmp_op_at(old(self).tokens@, old(self).pos as nat),
    {
        let k = self.peek_kind();
        self.bump();
        match k {
            TokenKind::Greater => CmpOp::Greater,
            TokenKind::Less => CmpOp::Less,
            _ => CmpOp::Equal,
        }
    }

    /// Consumes one token and reads it as an update operator; anything that
    /// is not strictly `-` is addition.
    fn take_math_op(&mut self) -> (r: MathOp)
        requires
            old(self).pos <= old(self).tokens@.len(),
        ensures
            final(self).tokens == old(self).tokens,
            final(self).pos as nat == step_pos(old(self).tokens@, old(self).pos as nat),
            r == math_op_at(old(self).tokens@, old(self).pos as nat),
    {
        let k = self.peek_kind();
        self.bump();
        match k {
            TokenKind::Minus => MathOp::Sub,
            _ => MathOp::Add,
        }
    }

    /// Reads a dotted path, exactly as [`spec_parse_path`] describes.
    #[verifier::loop_isolation(false)]
    pub fn parse_path(&mut self) -> (r: Vec<String>)
        requires
            old(self).pos <= old(self).tokens@.len(),
        ensures
            final(self).tokens == old(self).tokens,
            old(self).pos <= final(self).pos <= final(self).tokens@.len(),
            (r.deep_view(), final(self).pos as nat) == spec_parse_path(
                old(self).tokens@,
                old(self).pos as nat,
            ),
    {
        let ghost ts = self.tokens@;
        let ghost p0 = self.pos as nat;
        let mut path: Vec<String> = Vec::new();
        let mut first: Option<String> = None;
        if self.pos < self.tokens.len() {
            if let Token::Identifier(s) = &self.tokens[self.pos] {
                first = Some(s.clone());
            }
        }
        match first {
            None => {
                proof {
                    assert(path.deep_view() =~= spec_parse_path(ts, p0).0);
                }
                path
            },
            Some(s) => {
                self.bump();
                path.push(s);
                proof {
                    assert(path.deep_view() =~= seq![ident_at(ts, p0, Seq::<char>::empty())]);
                }
                while self.peek_kind() == TokenKind::Dot
                    invariant
                        self.tokens == old(self).tokens,
                        p0 < self.pos <= self.tokens@.len(),
                        path@.len() > 0,
                        spec_parse_path(ts, p0).0 =~= path.deep_view() + path_rest(
                            ts,
                            self.pos as nat,
                        ).0,
                        spec_parse_path(ts, p0).1 == path_rest(ts, self.pos as nat).1,
                    decreases self.tokens@.len() - self.pos,
                {
                    let ghost p = self.pos as nat;
                    self.bump();
                    let mut seg: Option<String> = None;
                    if self.pos < self.tokens.len() {
                        if let Token::Identifier(s2) = &self.tokens[self.pos] {
                            seg = Some(s2.clone());
                        }
                    }
                    match seg {
                        Some(s2) => {
                            self.bump();
                            path.push(s2);
                            proof {
                                assert(path.deep_view() =~= path.deep_view().drop_last().push(
                                    ident_at(ts, p + 1, Seq::<char>::empty()),
                                ));
                                assert(path.deep_view() + path_rest(ts, self.pos as nat).0
                                    =~= path.deep_view().drop_last() + path_rest(ts, p).0);
                            }
                        },
                        None => {
                            proof {
                                assert(path_rest(ts, p).0 =~= Seq::<Seq<char>>::empty());
                                assert(path.deep_view() + path_rest(ts, p).0 =~= path.deep_view());
                            }
                            return path;
                        },
                    }
                }
                proof {
                    assert(path_rest(ts, self.pos as nat).0 =~= Seq::<Seq<char>>::empty());
                    assert(path.deep_view() + path_rest(ts, self.pos as nat).0 =~= path.deep_view());
                }
                path
            },
        }
    }

    /// Reads one statement, exactly as [`spec_parse_stmt`] describes.
    /// Parsing is permissive: missing pieces fall back to defaults, and an
    /// unrecognised statement head is consumed (one token) and lowered to a
    /// harmless raw `nop` line, so at least one token is always consumed and
    /// parsing never fails.
    #[verifier::loop_isolation(false)]
    #[verifier::rlimit(100)]
    pub fn parse_statement(&mut self) -> (s: Stmt)
        requires
            old(self).pos < old(self).tokens@.len(),
        ensures
            final(self).tokens == old(self).tokens,
            old(self).pos < final(self).pos <= final(self).tokens@.len(),
            (stmt_view(s), final(self).pos as nat) == spec_parse_stmt(
                old(self).tokens@,
                old(self).pos as nat,
            ),
        decreases old(self).tokens@.len() - old(self).pos, 1int,
    {
        let ghost ts = self.tokens@;
        let ghost p0 = self.pos as nat;
        match self.peek_kind() {
            TokenKind::Get => {
                // Inclusion is resolved by the front end before lexing; a
                // surviving inclusion token lowers to a comment line.
                self.bump();
                let name = self.take_identifier("lib");
                let mut text = String::new();
                text.append("// unresolved include ");
                text.append(name.as_str());
                let s = Stmt::RawInstruction { text };
                proof {
                    assert(text@ =~= "// unresolved include "@ + name@);
                    assert((stmt_view(s), self.pos as nat) == spec_parse_stmt(ts, p0));
                }
                s
            },
            TokenKind::At => self.parse_raw_block(),
            TokenKind::Local => {
                self.bump();
                let name = self.take_identifier("tmp");
                if self.peek_kind() == TokenKind::Assign {
                    self.bump();
                }
                let s = if self.peek_kind() == TokenKind::New {
                    self.bump();
                    let cn = self.take_identifier("Object");
                    Stmt::HeapAlloc { var_name: name, class_name: cn }
                } else {
                    let value = self.take_number();
                    Stmt::LocalAssign { name, value }
                };
                proof {
                    assert((stmt_view(s), self.pos as nat) == spec_parse_stmt(ts, p0));
                }
                s
            },
            TokenKind::Class => self.parse_class_def(),
            TokenKind::Rest => {
                self.bump();
                let seconds = self.take_number();
                let s = Stmt::Rest { seconds };
                proof {
                    assert((stmt_view(s), self.pos as nat) == spec_parse_stmt(ts, p0));
                }
                s
            },
            TokenKind::Print => self.parse_print(),
            TokenKind::If => self.parse_if_stmt(),
            TokenKind::While => self.parse_while_stmt(),
            _ => self.parse_other(),
        }
    }

    /// The `@` raw-block statement (see [`spec_parse_stmt`]).
    #[verifier::loop_isolation(false)]
    #[verifier::rlimit(100)]
    fn parse_raw_block(&mut self) -> (s: Stmt)
        requires
            old(self).pos < old(self).tokens@.len(),
            old(self).peek_kind_spec() == TokenKind::At,
        ensures
            final(self).tokens == old(self).tokens,
            old(self).pos < final(self).pos <= final(self).tokens@.len(),
            (stmt_view(s), final(self).pos as nat) == spec_parse_stmt(
                old(self).tokens@,
                old(self).pos as nat,
            ),
        decreases old(self).tokens@.len() - old(self).pos, 0int,
    {
        let ghost ts = self.tokens@;
        let ghost p0 = self.pos as nat;
        self.bump();
        // the block's kind tag is consumed; every kind lowers to a
        // verbatim raw block
        self.bump();
        if self.peek_kind() == TokenKind::Is {
            self.bump();
        }
        let ghost b0 = self.pos as nat;
        let mut content = String::new();
        while self.peek_kind() != TokenKind::Done && self.peek_kind() != TokenKind::EOF
            invariant
                self.tokens == old(self).tokens,
                p0 < self.pos <= self.tokens@.len(),
                raw_block_text(ts, b0).0 =~= content@ + raw_block_text(ts, self.pos as nat).0,
                raw_block_text(ts, b0).1 == raw_block_text(ts, self.pos as nat).1,
            decreases self.tokens@.len() - self.pos,
        {
            let ghost p = self.pos as nat;
            let ghost c0 = content@;
            match &self.tokens[self.pos] {
                Token::Identifier(id) => {
                    content.append(id.as_str());
                    content.append(" ");
                },
                Token::Number(n) => {
                    push_dec(&mut content, *n);
                    content.append(" ");
                },
                Token::StringLit(t) => {
                    content.append("\"");
                    content.append(t.as_str());
                    content.append("\" ");
                },
                Token::Comma => content.append(", "),
                Token::LeftBracket => content.append("[ "),
                Token::RightBracket => content.append("] "),
                _ => {},
            }
            self.bump();
            proof {
                assert(c0 + raw_block_text(ts, p).0 =~= content@ + raw_block_text(
                    ts,
                    self.pos as nat,
                ).0);
            }
        }
        if self.peek_kind() == TokenKind::Done {
            self.bump();
        }
        let s = Stmt::RawInstruction { text: content };
        proof {
            assert(raw_block_text(ts, b0).0 =~= content@);
            assert((stmt_view(s), self.pos as nat) == spec_parse_stmt(ts, p0));
        }
        s
    }

    /// The `class` statement (see [`spec_parse_stmt`]).
    #[verifier::loop_isolation(false)]
    #[verifier::rlimit(100)]
    fn parse_class_def(&mut self) -> (s: Stmt)
        requires
            old(self).pos < old(self).tokens@.len(),
            old(self).peek_kind_spec() == TokenKind::Class,
        ensures
            final(self).tokens == old(self).tokens,
            old(self).pos < final(self).pos <= final(self).tokens@.len(),
            (stmt_view(s), final(self).pos as nat) == spec_parse_stmt(
                old(self).tokens@,
                old(self).pos as nat,
            ),
        decreases old(self).tokens@.len() - old(self).pos, 0int,
    {
        let ghost ts = self.tokens@;
        let ghost p0 = self.pos as nat;
        self.bump();
        let name = self.take_identifier("Unnamed");
        if self.peek_kind() == TokenKind::Is {
            self.bump();
        }
        let ghost b0 = self.pos as nat;
        let mut fields: Vec<String> = Vec::new();
        while self.peek_kind() != TokenKind::Done && self.peek_kind() != TokenKind::EOF
            invariant
                self.tokens == old(self).tokens,
                p0 < self.pos <= self.tokens@.len(),
                class_fields(ts, b0).0 =~= fields.deep_view() + class_fields(
                    ts,
                    self.pos as nat,
                ).0,
                class_fields(ts, b0).1 == class_fields(ts, self.pos as nat).1,
            decreases self.tokens@.len() - self.pos,
        {
            let ghost p = self.pos as nat;
            let ghost f0 = fields.deep_view();
            if let Token::Identifier(f) = &self.tokens[self.pos] {
                fields.push(f.clone());
                proof {
                    assert(fields.deep_view() =~= f0.push(ts[p as int]->Identifier_0@));
                }
            }
            self.bump();
            proof {
                assert(f0 + class_fields(ts, p).0 =~= fields.deep_view() + class_fields(
                    ts,
                    self.pos as nat,
                ).0);
            }
        }
        if self.peek_kind() == TokenKind::Done {
            self.bump();
        }
        let s = Stmt::ClassDef { name, fields };
        proof {
            assert(class_fields(ts, b0).0 =~= fields.deep_view());
            assert((stmt_view(s), self.pos as nat) == spec_parse_stmt(ts, p0));
        }
        s
    }

    /// The `print` statement (see [`spec_parse_stmt`]).
    #[verifier::loop_isolation(false)]
    #[verifier::rlimit(100)]
    fn parse_print(&mut self) -> (s: Stmt)
        requires
            old(self).pos < old(self).tokens@.len(),
            old(self).peek_kind_spec() == TokenKind::Print,
        ensures
            final(self).tokens == old(self).tokens,
            old(self).pos < final(self).pos <= final(self).tokens@.len(),
            (stmt_view(s), final(self).pos as nat) == spec_parse_stmt(
                old(self).tokens@,
                old(self).pos as nat,
            ),
        decreases old(self).tokens@.len() - old(self).pos, 0int,
    {
        let ghost ts = self.tokens@;
        let ghost p0 = self.pos as nat;
        self.bump();
        let mut lit: Option<String> = None;
        if self.pos < self.tokens.len() {
            if let Token::StringLit(t) = &self.tokens[self.pos] {
                lit = Some(t.clone());
            }
        }
        let s = match lit {
            Some(text) => {
                self.bump();
                Stmt::PrintString { text }
            },
            None => {
                let path = self.parse_path();
                if path.len() > 1 {
                    Stmt::PrintField { path }
                } else if path.len() == 1 {
                    let name = path[0].clone();
                    Stmt::PrintVar { name }
                } else {
                    Stmt::PrintVar { name: String::new() }
                }
            },
        };
        proof {
            assert((stmt_view(s), self.pos as nat) == spec_parse_stmt(ts, p0));
        }
        s
    }

    /// The `if` statement, plain or probabilistic (see [`spec_parse_stmt`]).
    #[verifier::loop_isolation(false)]
    #[verifier::rlimit(100)]
    fn parse_if_stmt(&mut self) -> (s: Stmt)
        requires
            old(self).pos < old(self).tokens@.len(),
            old(self).peek_kind_spec() == TokenKind::If,
        ensures
            final(self).tokens == old(self).tokens,
            old(self).pos < final(self).pos <= final(self).tokens@.len(),
            (stmt_view(s), final(self).pos as nat) == spec_parse_stmt(
                old(self).tokens@,
                old(self).pos as nat,
            ),
        decreases old(self).tokens@.len() - old(self).pos, 0int,
    {
        let ghost ts = self.tokens@;
        let ghost p0 = self.pos as nat;
        self.bump();
        let s = if self.peek_kind() == TokenKind::Quest {
            self.bump();
            while self.peek_kind() == TokenKind::Less || self.peek_kind() == TokenKind::Percent
                invariant
                    self.tokens == old(self).tokens,
                    p0 < self.pos <= self.tokens@.len(),
                    skip_chance_prefix(ts, self.pos as nat) == skip_chance_prefix(ts, p0 + 2),
                decreases self.tokens@.len() - self.pos,
            {
                self.bump();
            }
            let chance = self.take_number();
            let ghost a0 = self.pos as nat;
            while self.peek_kind() == TokenKind::Greater || self.peek_kind() == TokenKind::Is
                || self.peek_kind() == TokenKind::Then
                invariant
                    self.tokens == old(self).tokens,
                    p0 < self.pos <= self.tokens@.len(),
                    skip_chance_suffix(ts, self.pos as nat) == skip_chance_suffix(ts, a0),
                decreases self.tokens@.len() - self.pos,
            {
                self.bump();
            }
            let body = self.parse_block();
            if self.peek_kind() == TokenKind::Done {
                self.bump();
            }
            Stmt::ProbIf { chance, body }
        } else {
            let path = self.parse_path();
            let op = self.take_cmp_op();
            let rhs_val = self.take_number();
            let ghost a0 = self.pos as nat;
            while self.peek_kind() == TokenKind::Then || self.peek_kind() == TokenKind::Is
                invariant
                    self.tokens == old(self).tokens,
                    p0 < self.pos <= self.tokens@.len(),
                    skip_then_is(ts, self.pos as nat) == skip_then_is(ts, a0),
                decreases self.tokens@.len() - self.pos,
            {
                self.bump();
            }
            let body = self.parse_block();
            if self.peek_kind() == TokenKind::Done {
                self.bump();
            }
            Stmt::IfStmt { path, op, rhs_val, body }
        };
        proof {
            assert((stmt_view(s), self.pos as nat) == spec_parse_stmt(ts, p0));
        }
        s
    }

    /// The `while` statement (see [`spec_parse_stmt`]).
    #[verifier::loop_isolation(false)]
    #[verifier::rlimit(100)]
    fn parse_while_stmt(&mut self) -> (s: Stmt)
        requires
            old(self).pos < old(self).tokens@.len(),
            old(self).peek_kind_spec() == TokenKind::While,
        ensures
            final(self).tokens == old(self).tokens,
            old(self).pos < final(self).pos <= final(self).tokens@.len(),
            (stmt_view(s), final(self).pos as nat) == spec_parse_stmt(
                old(self).tokens@,
                old(self).pos as nat,
            ),
        decreases old(self).tokens@.len() - old(self).pos, 0int,
    {
        let ghost ts = self.tokens@;
        let ghost p0 = self.pos as nat;
        self.bump();
        let path = self.parse_path();
        let op = self.take_cmp_op();
        let rhs_val = self.take_number();
        let ghost a0 = self.pos as nat;
        while self.peek_kind() == TokenKind::Do || self.peek_kind() == TokenKind::Is
            invariant
                self.tokens == old(self).tokens,
                p0 < self.pos <= self.tokens@.len(),
                skip_do_is(ts, self.pos as nat) == skip_do_is(ts, a0),
            decreases self.tokens@.len() - self.pos,
        {
            self.bump();
        }
        let body = self.parse_block();
        if self.peek_kind() == TokenKind::Done {
            self.bump();
        }
        let s = Stmt::WhileStmt { path, op, rhs_val, body };
        proof {
            assert((stmt_view(s), self.pos as nat) == spec_parse_stmt(ts, p0));
        }
        s
    }

    /// The fallback statement head: an assignment, an update, or permissive
    /// recovery to a raw `nop` line (see [`spec_parse_stmt`]).
    #[verifier::loop_isolation(false)]
    #[verifier::rlimit(100)]
    fn parse_other(&mut self) -> (s: Stmt)
        requires
            old(self).pos < old(self).tokens@.len(),
            !(old(self).peek_kind_spec() == TokenKind::Get),
            !(old(self).peek_kind_spec() == TokenKind::At),
            !(old(self).peek_kind_spec() == TokenKind::Local),
            !(old(self).peek_kind_spec() == TokenKind::Class),
            !(old(self).peek_kind_spec() == TokenKind::Rest),
            !(old(self).peek_kind_spec() == TokenKind::Print),
            !(old(self).peek_kind_spec() == TokenKind::If),
            !(old(self).peek_kind_spec() == TokenKind::While),
        ensures
            final(self).tokens == old(self).tokens,
            old(self).pos < final(self).pos <= final(self).tokens@.len(),
            (stmt_view(s), final(self).pos as nat) == spec_parse_stmt(
                old(self).tokens@,
                old(self).pos as nat,
            ),
        decreases old(self).tokens@.len() - old(self).pos, 0int,
    {
        let ghost ts = self.tokens@;
        let ghost p0 = self.pos as nat;
        let path = self.parse_path();
        let s = if self.peek_kind() == TokenKind::Assign {
            self.bump();
            let mut lit: Option<u64> = None;
            if self.pos < self.tokens.len() {
                if let Token::Number(n) = &self.tokens[self.pos] {
                    lit = Some(*n);
                }
            }
            match lit {
                Some(value) => {
                    self.bump();
                    Stmt::FieldAssign { path, value }
                },
                None => {
                    // an update of the form `path = path op value`:
                    // skip the self-reference, then read op and value
                    self.bump();
                    let op = self.take_math_op();
                    let rhs_val = self.take_number();
                    Stmt::FieldMath { path, op, rhs_val }
                },
            }
        } else {
            self.bump();
            Stmt::RawInstruction { text: "nop".to_owned() }
        };
        proof {
            assert((stmt_view(s), self.pos as nat) == spec_parse_stmt(ts, p0));
        }
        s
    }

    /// Reads statements until `done` or the end of the input, exactly as
    /// [`spec_parse_block`] describes; the stopping token is left for the
    /// caller.
    #[verifier::loop_isolation(false)]
    fn parse_block(&mut self) -> (r: Vec<Stmt>)
        requires
            old(self).pos <= old(self).tokens@.len(),
        ensures
            final(self).tokens == old(self).tokens,
            old(self).pos <= final(self).pos <= final(self).tokens@.len(),
            (stmts_view(r@), final(self).pos as nat) == spec_parse_block(
                old(self).tokens@,
                old(self).pos as nat,
            ),
        decreases old(self).tokens@.len() - old(self).pos, 2int,
    {
        let ghost ts = self.tokens@;
        let ghost b0 = self.pos as nat;
        let mut body: Vec<Stmt> = Vec::new();
        while self.peek_kind() != TokenKind::Done && self.peek_kind() != TokenKind::EOF
            invariant
                self.tokens == old(self).tokens,
                b0 <= self.pos <= self.tokens@.len(),
                spec_parse_block(ts, b0).0 =~= stmts_view(body@) + spec_parse_block(
                    ts,
                    self.pos as nat,
                ).0,
                spec_parse_block(ts, b0).1 == spec_parse_block(ts, self.pos as nat).1,
            decreases self.tokens@.len() - self.pos,
        {
            let ghost p = self.pos as nat;
            let ghost v0 = stmts_view(body@);
            let s = self.parse_statement();
            proof {
                assert(resume_at(ts, p, self.pos as nat) == self.pos as nat);
                lemma_stmts_view_snoc(body@, s);
            }
            body.push(s);
            proof {
                assert(v0 + spec_parse_block(ts, p).0 =~= stmts_view(body@) + spec_parse_block(
                    ts,
                    self.pos as nat,
                ).0);
            }
        }
        proof {
            assert(spec_parse_block(ts, self.pos as nat).0 =~= Seq::<StmtV>::empty());
            assert(stmts_view(body@) + spec_parse_block(ts, self.pos as nat).0 =~= stmts_view(
                body@,
            ));
        }
        body
    }

    /// Reads statements until the end marker, exactly as
    /// [`spec_parse_program`] describes.
    #[verifier::loop_isolation(false)]
    pub fn parse_program(&mut self) -> (r: Vec<Stmt>)
        requires
            old(self).pos <= old(self).tokens@.len(),
        ensures
            final(self).tokens == old(self).tokens,
            old(self).pos <= final(self).pos <= final(self).tokens@.len(),
            final(self).peek_kind_spec() == TokenKind::EOF,
            (stmts_view(r@), final(self).pos as nat) == spec_parse_program(
                old(self).tokens@,
                old(self).pos as nat,
            ),
    {
        let ghost ts = self.tokens@;
        let ghost b0 = self.pos as nat;
        let mut stmts: Vec<Stmt> = Vec::new();
        while self.peek_kind() != TokenKind::EOF
            invariant
                self.tokens == old(self).tokens,
                b0 <= self.pos <= self.tokens@.len(),
                spec_parse_program(ts, b0).0 =~= stmts_view(stmts@) + spec_parse_program(
                    ts,
                    self.pos as nat,
                ).0,
                spec_parse_program(ts, b0).1 == spec_parse_program(ts, self.pos as nat).1,
            decreases self.tokens@.len() - self.pos,
        {
            let ghost p = self.pos as nat;
            let ghost v0 = stmts_view(stmts@);
            let s = self.parse_statement();
            proof {
                assert(resume_at(ts, p, self.pos as nat) == self.pos as nat);
                lemma_stmts_view_snoc(stmts@, s);
            }
            stmts.push(s);
            proof {
                assert(v0 + spec_parse_program(ts, p).0 =~= stmts_view(stmts@)
                    + spec_parse_program(ts, self.pos as nat).0);
            }
        }
        proof {
            assert(spec_parse_program(ts, self.pos as nat).0 =~= Seq::<StmtV>::empty());
            assert(stmts_view(stmts@) + spec_parse_program(ts, self.pos as nat).0 =~= stmts_view(
                stmts@,
            ));
        }
        stmts
    }
}

} // verus!
