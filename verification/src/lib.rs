//! A static binary analyzer and source-to-source recompiler for legacy
//! machine-code programs.
//!
//! The crate recovers control flow from a raw program image by abstract
//! interpretation over a lattice of abstract values, partitions the recovered
//! instructions into procedures, and emits equivalent high-level source text.

pub mod analyse;
pub mod bit;
pub mod callgraph;
pub mod chip8;
pub mod compile;
pub mod errors;
pub mod graph;
pub mod lattice;
pub mod laws;
pub mod lower;
pub mod mem;
pub mod regs;
pub mod state;
pub mod text;
pub mod vset;
