use vstd::prelude::*;

verus! {

/// Everything that can go wrong between a byte buffer and a result value.
///
/// Decoding stops at the first structural error; nothing is retried and no
/// partial module is ever handed out.
#[derive(Debug, Clone, Copy, PartialEq, Eq)]
pub enum RuntimeError {
    /// Fewer than eight bytes are available for the header.
    ModuleTooShort,
    /// The first four bytes are not `\0asm`.
    WrongMagicHeader,
    /// The version field is not 1.
    WrongVersionHeader,
    /// A section does not start with the tag expected at its position.
    InvalidSectionCode,
    /// A value-type byte is neither `0x7F` nor `0x7E`.
    InvalidValueType,
    /// An instruction tag is not part of the instruction set.
    InvalidInstruction,
    /// An export name is not valid UTF-8.
    InvalidExportName,
    /// An export-kind byte other than `0x00`.
    InvalidExportType,
    /// A read asked for more bytes than remain in the buffer.
    UnexpectedEndOfInput,
    /// The function and code sections differ in length, or an index points
    /// outside the table it refers to.
    InvalidModule,
    /// No export carries the requested name.
    ExportNotFound,
    /// The number of arguments differs from the signature's parameter count.
    ArgumentCountMismatch,
    /// The export does not describe a function.
    UnsupportedExportKind,
    /// An instruction needed more operands than the stack holds.
    StackUnderflow,
    /// `LocalGet` names a slot beyond the frame.
    LocalIndexOutOfRange,
    /// The body ended with a stack that does not hold exactly one value.
    ResultArityMismatch,
}

} // verus!
