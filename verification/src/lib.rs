//! A small bytecode virtual machine: reference-counted heap, shared operand
//! stack with frame-relative addressing, named-variable environments, and a
//! dispatch loop whose behaviour is stated against a mathematical model of
//! the machine and proved.

pub mod code;
pub mod env;
pub mod heap;
pub mod infer;
pub mod interp;
pub mod laws;
pub mod machine;
pub mod stack;
pub mod text;
pub mod value;
