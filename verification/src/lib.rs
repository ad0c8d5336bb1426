//! A one-pass compiler for a small imperative scripting language, lowering an
//! abstract syntax tree to textual machine code for a 64-bit RISC target.
//!
//! The pipeline is: [`lexer`] turns source text into tokens, [`parser`] builds
//! statement nodes, and [`generator`] — the core — walks the tree once and
//! emits a complete program (entry sequence, per-statement instructions, exit
//! sequence) as a sequence of structured instructions ([`instr`]) that render
//! to text. [`machine`] gives the emitted instructions a straight-line
//! evaluation semantics and proves the main behavioural laws over it.

pub mod lexer;
pub mod numfmt;
pub mod instr;
pub mod parser;
pub mod generator;
pub mod machine;
pub mod imports;
