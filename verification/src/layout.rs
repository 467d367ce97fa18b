//! The byte layout of a module, stated as mathematics.
//!
//! `encode_module` says which bytes stand for a module; `parse_module` says
//! what a buffer decodes to, or with which error decoding stops. Both work on
//! sequences and unbounded integers. A parser takes the buffer and the offset
//! at which to start, and yields the value together with the offset just
//! behind it.
//!
//! A module is laid out as an eight byte header followed by four sections in
//! fixed order: types, functions, exports, code. A section is a tag byte, a
//! size byte, a count byte and that many entries. Counts, indices and lengths
//! are single bytes; the two kinds of size byte (section and function body)
//! carry the length of what follows them modulo 256 and are not consulted
//! when decoding.

use crate::ast::{
    BodyView, EDesc, ExportView, FuncView, Instr, ModuleView, SignatureView, ValueType,
};
use crate::op_codes::section;
use crate::op_codes::{
    END, EXPORT_FUNC, EXPORT_RESERVED, FUNC_TYPE, I32_ADD, LOCAL_GET, MAGIC_0, MAGIC_1, MAGIC_2,
    MAGIC_3, MAX_COUNT, TYPE_I32, TYPE_I64, VERSION,
};
use crate::runtime::error::RuntimeError;
use vstd::prelude::*;
use vstd::utf8::{decode_utf8, encode_utf8, valid_utf8};

verus! {

// ---------------------------------------------------------------------------
// Single bytes
// ---------------------------------------------------------------------------

/// The byte that stands for a value type.
pub open spec fn value_type_byte(vt: ValueType) -> u8 {
    match vt {
        ValueType::I32 => TYPE_I32,
        ValueType::I64 => TYPE_I64,
    }
}

/// The value type that a byte stands for, if any.
pub open spec fn byte_value_type(b: u8) -> Option<ValueType> {
    if b == TYPE_I32 {
        Some(ValueType::I32)
    } else if b == TYPE_I64 {
        Some(ValueType::I64)
    } else {
        None
    }
}

/// The two mappings between value types and bytes undo each other: each
/// value type has one byte, and no byte stands for two value types.
pub proof fn lemma_value_type_bytes(vt: ValueType, b: u8)
    ensures
        byte_value_type(value_type_byte(vt)) == Some(vt),
        byte_value_type(b) == Some(vt) <==> value_type_byte(vt) == b,
{
}

/// The low eight bits of `n`: `n` itself when it fits into a byte.
pub open spec fn low_byte(n: int) -> u8 {
    (n % 256) as u8
}

/// The value of four bytes read as a little-endian 32-bit integer.
pub open spec fn le_u32(b0: u8, b1: u8, b2: u8, b3: u8) -> int {
    b0 + 256 * b1 + 65536 * b2 + 16777216 * b3
}

/// The four bytes that spell `n` as a little-endian 32-bit integer.
pub open spec fn le_bytes(n: u32) -> Seq<u8> {
    seq![
        (n % 256) as u8,
        (n / 256 % 256) as u8,
        (n / 65536 % 256) as u8,
        (n / 16777216) as u8,
    ]
}

/// Reading the four bytes that spell `n` gives `n`.
pub proof fn lemma_le_bytes(n: u32)
    ensures
        le_bytes(n).len() == 4,
        le_u32(le_bytes(n)[0], le_bytes(n)[1], le_bytes(n)[2], le_bytes(n)[3]) == n,
{
}

/// `true` if `n` can be written as one count, index or length byte.
pub open spec fn fits_byte(n: int) -> bool {
    0 <= n <= MAX_COUNT
}

// ---------------------------------------------------------------------------
// What can be encoded
// ---------------------------------------------------------------------------

/// An instruction whose operand fits its byte.
pub open spec fn instr_encodable(i: Instr) -> bool {
    match i {
        Instr::LocalGet(k) => fits_byte(k as int),
        Instr::I32Add => true,
    }
}

/// A signature with at most 255 parameters and at most 255 results.
pub open spec fn signature_encodable(sig: SignatureView) -> bool {
    fits_byte(sig.params.len() as int) && fits_byte(sig.results.len() as int)
}

/// A function whose type index, local count and local indices fit a byte.
/// The length of the body is not limited: it is ended by a marker.
pub open spec fn func_encodable(f: FuncView) -> bool {
    &&& fits_byte(f.f_type as int)
    &&& fits_byte(f.locals.len() as int)
    &&& forall|i: int| 0 <= i < f.body.len() ==> instr_encodable(#[trigger] f.body[i])
}

/// An export whose name takes at most 255 bytes of UTF-8 and whose function
/// index fits a byte.
pub open spec fn export_encodable(e: ExportView) -> bool {
    &&& fits_byte(encode_utf8(e.name).len() as int)
    &&& match e.e_desc {
        EDesc::FuncExport(k) => fits_byte(k as int),
    }
}

/// A module that the format can hold: at most 255 of every countable item.
pub open spec fn module_encodable(m: ModuleView) -> bool {
    &&& fits_byte(m.types.len() as int)
    &&& fits_byte(m.funcs.len() as int)
    &&& fits_byte(m.exports.len() as int)
    &&& forall|i: int| 0 <= i < m.types.len() ==> signature_encodable(#[trigger] m.types[i])
    &&& forall|i: int| 0 <= i < m.funcs.len() ==> func_encodable(#[trigger] m.funcs[i])
    &&& forall|i: int| 0 <= i < m.exports.len() ==> export_encodable(#[trigger] m.exports[i])
}

// ---------------------------------------------------------------------------
// Encoding
// ---------------------------------------------------------------------------

/// The eight header bytes: the magic `\0asm`, then the version,
/// little-endian.
pub open spec fn encode_header() -> Seq<u8> {
    seq![MAGIC_0, MAGIC_1, MAGIC_2, MAGIC_3] + le_bytes(VERSION)
}

/// One byte per value type.
pub open spec fn encode_value_types(ts: Seq<ValueType>) -> Seq<u8> {
    ts.map_values(|t: ValueType| value_type_byte(t))
}

/// A list of value types behind its count byte.
pub open spec fn encode_counted_value_types(ts: Seq<ValueType>) -> Seq<u8> {
    seq![low_byte(ts.len() as int)] + encode_value_types(ts)
}

/// A signature: the marker `0x60`, the parameter count and the parameters,
/// the result count and the results.
pub open spec fn encode_signature(sig: SignatureView) -> Seq<u8> {
    seq![FUNC_TYPE] + encode_counted_value_types(sig.params) + encode_counted_value_types(
        sig.results,
    )
}

/// The encodings of the signatures of a type table, one by one.
pub open spec fn signature_encodings(sigs: Seq<SignatureView>) -> Seq<Seq<u8>> {
    sigs.map_values(|sig: SignatureView| encode_signature(sig))
}

/// The signatures of a type table, one behind the other.
pub open spec fn encode_signatures(sigs: Seq<SignatureView>) -> Seq<u8> {
    signature_encodings(sigs).flatten()
}

/// One byte per function: the index of its signature.
pub open spec fn encode_type_indices(funcs: Seq<FuncView>) -> Seq<u8> {
    funcs.map_values(|f: FuncView| low_byte(f.f_type as int))
}

/// The index byte of an export descriptor.
pub open spec fn export_index_byte(d: EDesc) -> u8 {
    match d {
        EDesc::FuncExport(k) => low_byte(k as int),
    }
}

/// An export: the length of its name in bytes, the name in UTF-8, the
/// reserved zero byte, the kind byte and the function index.
pub open spec fn encode_export(e: ExportView) -> Seq<u8> {
    seq![low_byte(encode_utf8(e.name).len() as int)] + encode_utf8(e.name)
        + seq![EXPORT_RESERVED, EXPORT_FUNC, export_index_byte(e.e_desc)]
}

/// The encodings of the exports of an export table, one by one.
pub open spec fn export_encodings(es: Seq<ExportView>) -> Seq<Seq<u8>> {
    es.map_values(|e: ExportView| encode_export(e))
}

/// The exports of an export table, one behind the other.
pub open spec fn encode_exports(es: Seq<ExportView>) -> Seq<u8> {
    export_encodings(es).flatten()
}

/// An instruction: its tag, then its operand where it has one.
pub open spec fn encode_instr(i: Instr) -> Seq<u8> {
    match i {
        Instr::LocalGet(k) => seq![LOCAL_GET, low_byte(k as int)],
        Instr::I32Add => seq![I32_ADD],
    }
}

/// The encodings of the instructions of a body, one by one.
pub open spec fn instr_encodings(is: Seq<Instr>) -> Seq<Seq<u8>> {
    is.map_values(|i: Instr| encode_instr(i))
}

/// The instructions of a body, one behind the other, without the end marker.
pub open spec fn encode_instrs(is: Seq<Instr>) -> Seq<u8> {
    instr_encodings(is).flatten()
}

/// What follows the size byte of a function body: the local count, the
/// locals, the instructions and the end marker.
pub open spec fn encode_body_payload(f: FuncView) -> Seq<u8> {
    encode_counted_value_types(f.locals) + encode_instrs(f.body) + seq![END]
}

/// A function body: its size byte, then its payload.
pub open spec fn encode_body(f: FuncView) -> Seq<u8> {
    seq![low_byte(encode_body_payload(f).len() as int)] + encode_body_payload(f)
}

/// The encodings of the bodies of a function table, one by one.
pub open spec fn body_encodings(funcs: Seq<FuncView>) -> Seq<Seq<u8>> {
    funcs.map_values(|f: FuncView| encode_body(f))
}

/// The bodies of a function table, one behind the other.
pub open spec fn encode_bodies(funcs: Seq<FuncView>) -> Seq<u8> {
    body_encodings(funcs).flatten()
}

/// A section: its tag, its size byte, the number of entries and the entries.
/// The size counts the count byte and the entries.
pub open spec fn encode_section(tag: u8, count: int, entries: Seq<u8>) -> Seq<u8> {
    seq![tag, low_byte(1 + entries.len() as int), low_byte(count)] + entries
}

pub open spec fn encode_type_section(sigs: Seq<SignatureView>) -> Seq<u8> {
    encode_section(section::TYPE, sigs.len() as int, encode_signatures(sigs))
}

pub open spec fn encode_func_section(funcs: Seq<FuncView>) -> Seq<u8> {
    encode_section(section::FUNC, funcs.len() as int, encode_type_indices(funcs))
}

pub open spec fn encode_export_section(es: Seq<ExportView>) -> Seq<u8> {
    encode_section(section::EXPORT, es.len() as int, encode_exports(es))
}

pub open spec fn encode_code_section(funcs: Seq<FuncView>) -> Seq<u8> {
    encode_section(section::CODE, funcs.len() as int, encode_bodies(funcs))
}

/// The bytes of a module: header, then the type, function, export and code
/// sections. The function and the code section are written from the same
/// table, so entry `i` of the one belongs to entry `i` of the other.
pub open spec fn encode_module(m: ModuleView) -> Seq<u8> {
    encode_header() + encode_type_section(m.types) + encode_func_section(m.funcs)
        + encode_export_section(m.exports) + encode_code_section(m.funcs)
}

// ---------------------------------------------------------------------------
// Decoding
// ---------------------------------------------------------------------------

/// The header at offset `p`: `ModuleTooShort` where fewer than eight bytes
/// remain, else `WrongMagicHeader` where the first four are not the magic,
/// else `WrongVersionHeader` where the next four do not spell version 1.
pub open spec fn parse_header(s: Seq<u8>, p: int) -> Result<((), int), RuntimeError> {
    if s.len() - p < 8 {
        Err(RuntimeError::ModuleTooShort)
    } else if !(s[p] == MAGIC_0 && s[p + 1] == MAGIC_1 && s[p + 2] == MAGIC_2 && s[p + 3]
        == MAGIC_3) {
        Err(RuntimeError::WrongMagicHeader)
    } else if le_u32(s[p + 4], s[p + 5], s[p + 6], s[p + 7]) != VERSION {
        Err(RuntimeError::WrongVersionHeader)
    } else {
        Ok(((), p + 8))
    }
}

/// The three bytes that open a section: the tag, which must be `tag`, the
/// size, which is skipped, and the number of entries, which is returned.
pub open spec fn parse_section_start(s: Seq<u8>, p: int, tag: u8) -> Result<
    (u8, int),
    RuntimeError,
> {
    if p >= s.len() {
        Err(RuntimeError::UnexpectedEndOfInput)
    } else if s[p] != tag {
        Err(RuntimeError::InvalidSectionCode)
    } else if p + 2 >= s.len() {
        Err(RuntimeError::UnexpectedEndOfInput)
    } else {
        Ok((s[p + 2], p + 3))
    }
}

/// `n` value types, one byte each.
pub open spec fn parse_value_types(s: Seq<u8>, p: int, n: nat) -> Result<
    (Seq<ValueType>, int),
    RuntimeError,
>
    decreases n,
{
    if n == 0 {
        Ok((Seq::empty(), p))
    } else if p >= s.len() {
        Err(RuntimeError::UnexpectedEndOfInput)
    } else {
        match byte_value_type(s[p]) {
            None => Err(RuntimeError::InvalidValueType),
            Some(vt) => match parse_value_types(s, p + 1, (n - 1) as nat) {
                Err(e) => Err(e),
                Ok((rest, q)) => Ok((seq![vt] + rest, q)),
            },
        }
    }
}

/// A list of value types behind its count byte.
pub open spec fn parse_counted_value_types(s: Seq<u8>, p: int) -> Result<
    (Seq<ValueType>, int),
    RuntimeError,
> {
    if p >= s.len() {
        Err(RuntimeError::UnexpectedEndOfInput)
    } else {
        parse_value_types(s, p + 1, s[p] as nat)
    }
}

/// One signature. The marker byte is skipped, whatever it holds.
pub open spec fn parse_signature(s: Seq<u8>, p: int) -> Result<(SignatureView, int), RuntimeError> {
    if p >= s.len() {
        Err(RuntimeError::UnexpectedEndOfInput)
    } else {
        match parse_counted_value_types(s, p + 1) {
            Err(e) => Err(e),
            Ok((params, q)) => match parse_counted_value_types(s, q) {
                Err(e) => Err(e),
                Ok((results, r)) => Ok((SignatureView { params, results }, r)),
            },
        }
    }
}

/// `n` signatures.
pub open spec fn parse_signatures(s: Seq<u8>, p: int, n: nat) -> Result<
    (Seq<SignatureView>, int),
    RuntimeError,
>
    decreases n,
{
    if n == 0 {
        Ok((Seq::empty(), p))
    } else {
        match parse_signature(s, p) {
            Err(e) => Err(e),
            Ok((sig, q)) => match parse_signatures(s, q, (n - 1) as nat) {
                Err(e) => Err(e),
                Ok((rest, r)) => Ok((seq![sig] + rest, r)),
            },
        }
    }
}

/// The type section.
pub open spec fn parse_type_section(s: Seq<u8>, p: int) -> Result<
    (Seq<SignatureView>, int),
    RuntimeError,
> {
    match parse_section_start(s, p, section::TYPE) {
        Err(e) => Err(e),
        Ok((n, q)) => parse_signatures(s, q, n as nat),
    }
}

/// The `n` bytes from offset `p` on, each read as a type index.
pub open spec fn type_indices_at(s: Seq<u8>, p: int, n: nat) -> Seq<i32> {
    Seq::new(n, |i: int| s[p + i] as i32)
}

/// The function section: one type index per function.
pub open spec fn parse_func_section(s: Seq<u8>, p: int) -> Result<(Seq<i32>, int), RuntimeError> {
    match parse_section_start(s, p, section::FUNC) {
        Err(e) => Err(e),
        Ok((n, q)) => if q + n > s.len() {
            Err(RuntimeError::UnexpectedEndOfInput)
        } else {
            Ok((type_indices_at(s, q, n as nat), q + n))
        },
    }
}

/// One export. The name must be valid UTF-8 and the kind must be `0x00`; the
/// reserved byte between them is skipped, whatever it holds.
pub open spec fn parse_export(s: Seq<u8>, p: int) -> Result<(ExportView, int), RuntimeError> {
    if p >= s.len() {
        Err(RuntimeError::UnexpectedEndOfInput)
    } else {
        let q = p + 1 + s[p];
        if q > s.len() {
            Err(RuntimeError::UnexpectedEndOfInput)
        } else if !valid_utf8(s.subrange(p + 1, q)) {
            Err(RuntimeError::InvalidExportName)
        } else if q + 1 >= s.len() {
            Err(RuntimeError::UnexpectedEndOfInput)
        } else if s[q + 1] != EXPORT_FUNC {
            Err(RuntimeError::InvalidExportType)
        } else if q + 2 >= s.len() {
            Err(RuntimeError::UnexpectedEndOfInput)
        } else {
            Ok(
                (
                    ExportView {
                        name: decode_utf8(s.subrange(p + 1, q)),
                        e_desc: EDesc::FuncExport(s[q + 2] as usize),
                    },
                    q + 3,
                ),
            )
        }
    }
}

/// `n` exports.
pub open spec fn parse_exports(s: Seq<u8>, p: int, n: nat) -> Result<
    (Seq<ExportView>, int),
    RuntimeError,
>
    decreases n,
{
    if n == 0 {
        Ok((Seq::empty(), p))
    } else {
        match parse_export(s, p) {
            Err(e) => Err(e),
            Ok((x, q)) => match parse_exports(s, q, (n - 1) as nat) {
                Err(e) => Err(e),
                Ok((rest, r)) => Ok((seq![x] + rest, r)),
            },
        }
    }
}

/// The export section.
pub open spec fn parse_export_section(s: Seq<u8>, p: int) -> Result<
    (Seq<ExportView>, int),
    RuntimeError,
> {
    match parse_section_start(s, p, section::EXPORT) {
        Err(e) => Err(e),
        Ok((n, q)) => parse_exports(s, q, n as nat),
    }
}

/// Instructions up to and including the end marker. No count precedes them:
/// the stream is as long as it takes to reach the marker.
pub open spec fn parse_instrs(s: Seq<u8>, p: int) -> Result<(Seq<Instr>, int), RuntimeError>
    decreases s.len() - p,
{
    if !(0 <= p < s.len()) {
        Err(RuntimeError::UnexpectedEndOfInput)
    } else if s[p] == END {
        Ok((Seq::empty(), p + 1))
    } else if s[p] == LOCAL_GET {
        if p + 1 >= s.len() {
            Err(RuntimeError::UnexpectedEndOfInput)
        } else {
            match parse_instrs(s, p + 2) {
                Err(e) => Err(e),
                Ok((rest, q)) => Ok((seq![Instr::LocalGet(s[p + 1] as usize)] + rest, q)),
            }
        }
    } else if s[p] == I32_ADD {
        match parse_instrs(s, p + 1) {
            Err(e) => Err(e),
            Ok((rest, q)) => Ok((seq![Instr::I32Add] + rest, q)),
        }
    } else {
        Err(RuntimeError::InvalidInstruction)
    }
}

/// One function body. The size byte is skipped.
pub open spec fn parse_body(s: Seq<u8>, p: int) -> Result<(BodyView, int), RuntimeError> {
    if p >= s.len() {
        Err(RuntimeError::UnexpectedEndOfInput)
    } else {
        match parse_counted_value_types(s, p + 1) {
            Err(e) => Err(e),
            Ok((locals, q)) => match parse_instrs(s, q) {
                Err(e) => Err(e),
                Ok((instrs, r)) => Ok((BodyView { locals, instrs }, r)),
            },
        }
    }
}

/// `n` function bodies.
pub open spec fn parse_bodies(s: Seq<u8>, p: int, n: nat) -> Result<
    (Seq<BodyView>, int),
    RuntimeError,
>
    decreases n,
{
    if n == 0 {
        Ok((Seq::empty(), p))
    } else {
        match parse_body(s, p) {
            Err(e) => Err(e),
            Ok((x, q)) => match parse_bodies(s, q, (n - 1) as nat) {
                Err(e) => Err(e),
                Ok((rest, r)) => Ok((seq![x] + rest, r)),
            },
        }
    }
}

/// The code section.
pub open spec fn parse_code_section(s: Seq<u8>, p: int) -> Result<
    (Seq<BodyView>, int),
    RuntimeError,
> {
    match parse_section_start(s, p, section::CODE) {
        Err(e) => Err(e),
        Ok((n, q)) => parse_bodies(s, q, n as nat),
    }
}

/// The function table made of the function section and the code section:
/// function `i` has type index `i` and body `i`.
pub open spec fn join_funcs(indices: Seq<i32>, bodies: Seq<BodyView>) -> Seq<FuncView> {
    Seq::new(
        indices.len(),
        |i: int| FuncView { f_type: indices[i], locals: bodies[i].locals, body: bodies[i].instrs },
    )
}

/// A whole module at offset `p`: the header, then the four sections in the
/// order types, functions, exports, code. The first error met ends decoding.
/// Where the function and the code section differ in length the module is
/// rejected with `InvalidModule`. Bytes behind the code section are left alone.
pub open spec fn parse_module(s: Seq<u8>, p: int) -> Result<(ModuleView, int), RuntimeError> {
    match parse_header(s, p) {
        Err(e) => Err(e),
        Ok((_, p0)) => match parse_type_section(s, p0) {
            Err(e) => Err(e),
            Ok((types, p1)) => match parse_func_section(s, p1) {
                Err(e) => Err(e),
                Ok((indices, p2)) => match parse_export_section(s, p2) {
                    Err(e) => Err(e),
                    Ok((exports, p3)) => match parse_code_section(s, p3) {
                        Err(e) => Err(e),
                        Ok((bodies, p4)) => if indices.len() != bodies.len() {
                            Err(RuntimeError::InvalidModule)
                        } else {
                            Ok(
                                (
                                    ModuleView {
                                        types,
                                        funcs: join_funcs(indices, bodies),
                                        exports,
                                    },
                                    p4,
                                ),
                            )
                        },
                    },
                },
            },
        },
    }
}

// ---------------------------------------------------------------------------
// Encoding a list one entry at a time
// ---------------------------------------------------------------------------

/// Encoding one more value type appends its byte.
pub proof fn lemma_encode_value_types_push(ts: Seq<ValueType>, t: ValueType)
    ensures
        encode_value_types(ts.push(t)) == encode_value_types(ts).push(value_type_byte(t)),
{
    assert(encode_value_types(ts.push(t)) =~= encode_value_types(ts).push(value_type_byte(t)));
}

/// Encoding one more signature appends its encoding.
pub proof fn lemma_encode_signatures_push(sigs: Seq<SignatureView>, sig: SignatureView)
    ensures
        encode_signatures(sigs.push(sig)) == encode_signatures(sigs) + encode_signature(sig),
{
    assert(signature_encodings(sigs.push(sig)) =~= signature_encodings(sigs).push(
        encode_signature(sig),
    ));
    signature_encodings(sigs).lemma_flatten_push(encode_signature(sig));
}

/// Encoding one more type index appends its byte.
pub proof fn lemma_encode_type_indices_push(funcs: Seq<FuncView>, f: FuncView)
    ensures
        encode_type_indices(funcs.push(f)) == encode_type_indices(funcs).push(
            low_byte(f.f_type as int),
        ),
{
    assert(encode_type_indices(funcs.push(f)) =~= encode_type_indices(funcs).push(
        low_byte(f.f_type as int),
    ));
}

/// Encoding one more export appends its encoding.
pub proof fn lemma_encode_exports_push(es: Seq<ExportView>, e: ExportView)
    ensures
        encode_exports(es.push(e)) == encode_exports(es) + encode_export(e),
{
    assert(export_encodings(es.push(e)) =~= export_encodings(es).push(encode_export(e)));
    export_encodings(es).lemma_flatten_push(encode_export(e));
}

/// Encoding one more instruction appends its encoding.
pub proof fn lemma_encode_instrs_push(is: Seq<Instr>, i: Instr)
    ensures
        encode_instrs(is.push(i)) == encode_instrs(is) + encode_instr(i),
{
    assert(instr_encodings(is.push(i)) =~= instr_encodings(is).push(encode_instr(i)));
    instr_encodings(is).lemma_flatten_push(encode_instr(i));
}

/// Encoding one more body appends its encoding.
pub proof fn lemma_encode_bodies_push(funcs: Seq<FuncView>, f: FuncView)
    ensures
        encode_bodies(funcs.push(f)) == encode_bodies(funcs) + encode_body(f),
{
    assert(body_encodings(funcs.push(f)) =~= body_encodings(funcs).push(encode_body(f)));
    body_encodings(funcs).lemma_flatten_push(encode_body(f));
}

} // verus!
