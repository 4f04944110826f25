//! A minimal stack-based virtual machine.
//!
//! The library has two halves.  The decoder turns a program text — one
//! instruction per line, whitespace-separated tokens — into a sequence of
//! [`bytecode::ByteCode`] values.  The interpreter executes such a sequence
//! against an operand stack and a named-variable store, one instruction at a
//! time, until the program returns a value, falls off the end, runs out of
//! its step budget, or fails.

pub mod bytecode;
pub mod decode;
pub mod encode;
pub mod error;
pub mod interp;
pub mod laws;
pub mod opcode;
pub mod semantics;
