//! Compiler and virtual machine.
pub mod compiler;
pub mod instruction;
pub mod memory;
pub mod names;
pub mod scope;
pub mod stack;
pub mod stdlib;
pub mod text;
pub mod vm;
