//! A backend code generator for a small register/stack machine.
//!
//! The library walks a typed, already-parsed program tree and emits a linear
//! sequence of symbolic assembly instructions.  Type resolution and
//! scope-aware symbol binding are performed as part of code generation; any
//! failure aborts generation with a structured error value.

pub mod instr;
pub mod ast;
pub mod codegen;
pub mod error;
pub mod lexer;
pub mod scope;
pub mod types;
