//! A single-pass compiler for arithmetic expressions and the stack machine
//! that runs what it emits.
//!
//! Source text is scanned into tokens ([`scanner`]), parsed by precedence
//! climbing and turned on the way into a bytecode [`chunk`]
//! ([`compiler`]); the chunk is then run against an operand stack ([`vm`]).
//! [`grammar`] says what a well-formed expression is and proves that each one
//! compiles to its postfix form; [`semantics`] says what an expression means
//! and proves that the machine computes it.
//!
//! Numbers are doubles, and this crate holds no floating-point code. A number
//! is carried as the sixty-four bits of its double ([`value::Value`]), a
//! literal as the place where it stands in the source ([`value::Literal`]).
//! Where a literal has to be read as a number, or two numbers combined, the
//! machine stops and names what it needs ([`vm::Action`]); its caller does
//! that one thing, pushes the result and lets the machine run on.

pub mod chunk;
pub mod compiler;
pub mod debug;
pub mod grammar;
pub mod scanner;
pub mod semantics;
pub mod value;
pub mod vm;
