//! Loading and running a binary module.

use crate::runtime::error::RuntimeError;
use crate::runtime::reader::Reader;
use vstd::prelude::*;

pub mod disassembler;
pub mod error;
pub mod interpreter;
pub mod reader;

verus! {

/// Decodes `binary` and calls its export `func` on `args`.
///
/// Whatever goes wrong comes back as the one error that stopped the work: the
/// error of the decoder where the buffer is no module, else the error of the
/// call.
pub fn invoke_function(binary: Vec<u8>, func: &str, args: &[i32]) -> (r: Result<i32, RuntimeError>)
    ensures
        r == match crate::layout::parse_module(binary@, 0) {
            Err(e) => Err(e),
            Ok((m, _)) => crate::runtime::interpreter::invoke(m, func@, args@),
        },
{
    let mut reader = Reader::new(binary);
    let module = match crate::runtime::disassembler::parse_binary(&mut reader) {
        Ok(module) => module,
        Err(e) => return Err(e),
    };
    crate::runtime::interpreter::execute(&module, func, args)
}

} // verus!
