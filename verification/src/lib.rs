//! A verified core for a small C-like language: a scoped symbol table,
//! a diagnostic-accumulating semantic analyzer, a lowering pass from the
//! syntax tree to three-address intermediate code, and two text backends
//! (a readable TAC listing and x64 assembly with Windows calling convention).
//!
//! Lexing, parsing and the reference interpreter are external collaborators:
//! this crate consumes a finished syntax tree and returns text.

pub mod ast;
pub mod codegen_tac;
pub mod codegen_x64_windows;
pub mod ir;
pub mod lower;
pub mod semantic;
pub mod symbol;
pub mod text;
