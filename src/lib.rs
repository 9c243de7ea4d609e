//! A small dynamically typed scripting language: a bytecode compiler from
//! syntax trees to a flat instruction stream, and a stack-based virtual
//! machine that runs that stream.
//!
//! Floating-point arithmetic, number formatting and I/O are left to the host:
//! numbers travel through the library as their IEEE-754 bit patterns, and the
//! machine hands every step that needs them to the host as an [`backend::vm::Effect`].
pub mod backend;
pub mod frontend;
pub mod stdlib;

pub use frontend::fix_str;
