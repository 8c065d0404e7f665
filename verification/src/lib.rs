//! A single-pass compiler from a structured, typed intermediate representation
//! to a flat program of basic blocks for a small register machine.
//!
//! The input language supports scalar and extension-field arithmetic, integer
//! loop variables, pointers into a bump-allocated heap, conditional branches,
//! and structured loops with early break. The compiler assigns every symbolic
//! value a fixed frame-relative address, linearizes nested control flow into
//! basic blocks joined by explicit branches, and patches forward references
//! once the surrounding construct has finished compiling.

pub mod assemble;
pub mod build_args;
pub mod compiler;
pub mod field;
pub mod instr;
pub mod ir;
pub mod machine;
