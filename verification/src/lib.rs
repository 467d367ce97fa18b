//! A compact binary module format, modelled on a WebAssembly-style container,
//! together with the encoder that writes it, the decoder that reads it back and
//! a stack machine that runs one exported function of a decoded module.
//!
//! The byte layout is stated once, as specification functions in [`layout`];
//! the encoder in [`compiler`] and the decoder in [`runtime::disassembler`] are
//! both proved against it, and [`laws`] proves that the two agree.

pub mod ast;
pub mod compiler;
pub mod laws;
pub mod layout;
pub mod op_codes;
pub mod runtime;
