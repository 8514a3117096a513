//! Loader and just-in-time compiler for E# executable images.
//!
//! The loader turns the bytes of an image into its tables; the compiler turns
//! the bytecode of one function into x86-64 machine code and tracks the
//! protection of the page that holds it.
pub mod bin;
pub mod class;
pub mod constant;
pub mod decode;
pub mod error;
pub mod field;
pub mod function;
pub mod jit;
pub mod native;
pub mod offset;
pub mod opcode;
pub mod platform;
pub mod types;
