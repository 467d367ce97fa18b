//! The encoder: from a module to its bytes.
//!
//! `compile` is proved to produce exactly `encode_module` of the module's
//! view. The format has no room for more than 255 of anything it counts, so
//! `compile` asks for a module that fits; `is_encodable` tells whether one does.

use crate::ast::{signature_view, EDesc, Export, Func, Instr, Module, StackType, Type, ValueType};
use crate::layout::{
    encode_bodies, encode_body, encode_body_payload, encode_counted_value_types, encode_export,
    encode_exports, encode_header, encode_instr, encode_instrs, encode_module, encode_section,
    encode_signature, encode_signatures, encode_type_indices, encode_value_types, export_encodable,
    fits_byte, func_encodable, instr_encodable, le_bytes, lemma_encode_bodies_push,
    lemma_encode_exports_push,
    lemma_encode_instrs_push, lemma_encode_signatures_push, lemma_encode_type_indices_push,
    lemma_encode_value_types_push, low_byte, module_encodable, signature_encodable, value_type_byte,
};
use crate::op_codes::section;
use crate::op_codes::{
    END, EXPORT_FUNC, EXPORT_RESERVED, FUNC_TYPE, I32_ADD, LOCAL_GET, MAGIC_0, MAGIC_1, MAGIC_2,
    MAGIC_3, MAX_COUNT, TYPE_I32, TYPE_I64, VERSION,
};
use vstd::prelude::*;

verus! {

/// The byte of a value type.
fn value_type_code(vt: ValueType) -> (b: u8)
    ensures
        b == value_type_byte(vt),
{
    match vt {
        ValueType::I32 => TYPE_I32,
        ValueType::I64 => TYPE_I64,
    }
}

/// Appends `bytes` to `out`.
fn emit_bytes(out: &mut Vec<u8>, bytes: &[u8])
    ensures
        final(out)@ == old(out)@ + bytes@,
{
    let mut i: usize = 0;
    while i < bytes.len()
        invariant
            i <= bytes.len(),
            out@ == old(out)@ + bytes@.take(i as int),
        decreases bytes.len() - i,
    {
        out.push(bytes[i]);
        proof {
            assert(bytes@.take(i + 1) =~= bytes@.take(i as int).push(bytes@[i as int]));
        }
        i = i + 1;
    }
    proof {
        assert(bytes@.take(i as int) =~= bytes@);
    }
}

/// Appends `n` as four bytes, little-endian.
fn emit_dword(out: &mut Vec<u8>, n: u32)
    ensures
        final(out)@ == old(out)@ + le_bytes(n),
{
    out.push((n % 256) as u8);
    out.push((n / 256 % 256) as u8);
    out.push((n / 65536 % 256) as u8);
    out.push((n / 16777216) as u8);
    proof {
        assert(out@ =~= old(out)@ + le_bytes(n));
    }
}

/// Appends a count byte and the bytes of that many value types.
fn emit_value_types(out: &mut Vec<u8>, ts: &StackType)
    requires
        fits_byte(ts@.len() as int),
    ensures
        final(out)@ == old(out)@ + encode_counted_value_types(ts@),
{
    out.push(ts.len() as u8);
    let mut i: usize = 0;
    while i < ts.len()
        invariant
            i <= ts.len(),
            fits_byte(ts@.len() as int),
            out@ == old(out)@ + seq![low_byte(ts@.len() as int)] + encode_value_types(
                ts@.take(i as int),
            ),
        decreases ts.len() - i,
    {
        out.push(value_type_code(ts[i]));
        proof {
            assert(ts@.take(i + 1) =~= ts@.take(i as int).push(ts@[i as int]));
            lemma_encode_value_types_push(ts@.take(i as int), ts@[i as int]);
        }
        i = i + 1;
    }
    proof {
        assert(ts@.take(i as int) =~= ts@);
    }
}

/// Appends one signature.
fn emit_signature(out: &mut Vec<u8>, t: &Type)
    requires
        signature_encodable(signature_view(*t)),
    ensures
        final(out)@ == old(out)@ + encode_signature(signature_view(*t)),
{
    out.push(FUNC_TYPE);
    emit_value_types(out, &t.0);
    emit_value_types(out, &t.1);
}

/// Appends one export.
fn emit_export(out: &mut Vec<u8>, e: &Export)
    requires
        export_encodable(e@),
    ensures
        final(out)@ == old(out)@ + encode_export(e@),
{
    let name = e.name.as_str().as_bytes();
    out.push(name.len() as u8);
    emit_bytes(out, name);
    out.push(EXPORT_RESERVED);
    match e.e_desc {
        EDesc::FuncExport(index) => {
            out.push(EXPORT_FUNC);
            out.push(index as u8);
        },
    }
}

/// Appends one instruction.
fn emit_instr(out: &mut Vec<u8>, i: &Instr)
    requires
        instr_encodable(*i),
    ensures
        final(out)@ == old(out)@ + encode_instr(*i),
{
    match i {
        Instr::LocalGet(index) => {
            out.push(LOCAL_GET);
            out.push(*index as u8);
        },
        Instr::I32Add => {
            out.push(I32_ADD);
        },
    }
}

/// The low eight bits of one more than `n`.
fn size_byte(n: usize) -> (b: u8)
    ensures
        b == low_byte(1 + n),
{
    ((n % 256 + 1) % 256) as u8
}

/// Appends one function body behind its size byte.
fn emit_body(out: &mut Vec<u8>, f: &Func)
    requires
        func_encodable(f@),
    ensures
        final(out)@ == old(out)@ + encode_body(f@),
{
    let mut payload: Vec<u8> = Vec::new();
    emit_value_types(&mut payload, &f.locals);
    let ghost head = payload@;
    let mut i: usize = 0;
    while i < f.body.len()
        invariant
            i <= f.body.len(),
            func_encodable(f@),
            payload@ == head + encode_instrs(f.body@.take(i as int)),
        decreases f.body.len() - i,
    {
        proof {
            assert(instr_encodable(f@.body[i as int]));
        }
        emit_instr(&mut payload, &f.body[i]);
        proof {
            assert(f.body@.take(i + 1) =~= f.body@.take(i as int).push(f.body@[i as int]));
            lemma_encode_instrs_push(f.body@.take(i as int), f.body@[i as int]);
        }
        i = i + 1;
    }
    payload.push(END);
    proof {
        assert(f.body@.take(i as int) =~= f.body@);
        assert(payload@ =~= encode_body_payload(f@));
    }
    let size: usize = payload.len();
    out.push((size % 256) as u8);
    emit_bytes(out, payload.as_slice());
}

/// Appends a section: its tag, its size, the count and the entries.
fn emit_section(out: &mut Vec<u8>, tag: u8, count: u8, entries: &Vec<u8>)
    ensures
        final(out)@ == old(out)@ + encode_section(tag, count as int, entries@),
{
    out.push(tag);
    out.push(size_byte(entries.len()));
    out.push(count);
    emit_bytes(out, entries.as_slice());
}

/// Tells whether the format can hold `module`: whether it has at most 255 of
/// every item that the format counts or indexes with a byte.
pub fn is_encodable(module: &Module) -> (b: bool)
    ensures
        b == module_encodable(module@),
{
    if module.types.len() > MAX_COUNT || module.funcs.len() > MAX_COUNT || module.exports.len()
        > MAX_COUNT {
        return false;
    }
    let mut i: usize = 0;
    while i < module.types.len()
        invariant
            i <= module.types.len(),
            forall|j: int| 0 <= j < i ==> signature_encodable(#[trigger] module@.types[j]),
        decreases module.types.len() - i,
    {
        if module.types[i].0.len() > MAX_COUNT || module.types[i].1.len() > MAX_COUNT {
            proof {
                assert(!signature_encodable(module@.types[i as int]));
            }
            return false;
        }
        i = i + 1;
    }
    let mut i: usize = 0;
    while i < module.funcs.len()
        invariant
            i <= module.funcs.len(),
            forall|j: int| 0 <= j < i ==> func_encodable(#[trigger] module@.funcs[j]),
        decreases module.funcs.len() - i,
    {
        let f = &module.funcs[i];
        if f.f_type < 0 || f.f_type > 255 || f.locals.len() > MAX_COUNT {
            proof {
                assert(!func_encodable(module@.funcs[i as int]));
            }
            return false;
        }
        let mut k: usize = 0;
        while k < f.body.len()
            invariant
                k <= f.body.len(),
                i < module.funcs.len(),
                *f == module.funcs@[i as int],
                forall|j: int| 0 <= j < k ==> instr_encodable(#[trigger] f.body@[j]),
            decreases f.body.len() - k,
        {
            match f.body[k] {
                Instr::LocalGet(index) => {
                    if index > MAX_COUNT {
                        proof {
                            assert(module@.funcs[i as int] == f@);
                            assert(!instr_encodable(f@.body[k as int]));
                            assert(!func_encodable(module@.funcs[i as int]));
                        }
                        return false;
                    }
                },
                Instr::I32Add => {},
            }
            k = k + 1;
        }
        i = i + 1;
    }
    let mut i: usize = 0;
    while i < module.exports.len()
        invariant
            i <= module.exports.len(),
            forall|j: int| 0 <= j < i ==> export_encodable(#[trigger] module@.exports[j]),
        decreases module.exports.len() - i,
    {
        let e = &module.exports[i];
        let fits: bool = match e.e_desc {
            EDesc::FuncExport(index) => index <= MAX_COUNT,
        };
        if e.name.as_str().as_bytes().len() > MAX_COUNT || !fits {
            proof {
                assert(!export_encodable(module@.exports[i as int]));
            }
            return false;
        }
        i = i + 1;
    }
    true
}

/// Encodes `module`: the header, then the type, function, export and code
/// sections. Function `i` is written as entry `i` of the function section and
/// as entry `i` of the code section.
pub fn compile(module: &Module) -> (binary: Vec<u8>)
    requires
        module_encodable(module@),
    ensures
        binary@ == encode_module(module@),
{
    let mut out: Vec<u8> = Vec::new();
    out.push(MAGIC_0);
    out.push(MAGIC_1);
    out.push(MAGIC_2);
    out.push(MAGIC_3);
    emit_dword(&mut out, VERSION);
    proof {
        assert(out@ =~= encode_header());
    }

    let ghost m = module@;
    let mut entries: Vec<u8> = Vec::new();
    let mut i: usize = 0;
    while i < module.types.len()
        invariant
            i <= module.types.len(),
            m == module@,
            module_encodable(m),
            entries@ == encode_signatures(m.types.take(i as int)),
        decreases module.types.len() - i,
    {
        proof {
            assert(m.types[i as int] == signature_view(module.types@[i as int]));
            assert(m.types.take(i + 1) =~= m.types.take(i as int).push(m.types[i as int]));
            lemma_encode_signatures_push(m.types.take(i as int), m.types[i as int]);
        }
        emit_signature(&mut entries, &module.types[i]);
        i = i + 1;
    }
    proof {
        assert(m.types.take(i as int) =~= m.types);
    }
    emit_section(&mut out, section::TYPE, module.types.len() as u8, &entries);

    let mut entries: Vec<u8> = Vec::new();
    let mut i: usize = 0;
    while i < module.funcs.len()
        invariant
            i <= module.funcs.len(),
            m == module@,
            module_encodable(m),
            entries@ == encode_type_indices(m.funcs.take(i as int)),
        decreases module.funcs.len() - i,
    {
        proof {
            assert(m.funcs[i as int] == module.funcs@[i as int]@);
            assert(m.funcs.take(i + 1) =~= m.funcs.take(i as int).push(m.funcs[i as int]));
            lemma_encode_type_indices_push(m.funcs.take(i as int), m.funcs[i as int]);
        }
        entries.push(module.funcs[i].f_type as u8);
        i = i + 1;
    }
    proof {
        assert(m.funcs.take(i as int) =~= m.funcs);
    }
    emit_section(&mut out, section::FUNC, module.funcs.len() as u8, &entries);

    let mut entries: Vec<u8> = Vec::new();
    let mut i: usize = 0;
    while i < module.exports.len()
        invariant
            i <= module.exports.len(),
            m == module@,
            module_encodable(m),
            entries@ == encode_exports(m.exports.take(i as int)),
        decreases module.exports.len() - i,
    {
        proof {
            assert(m.exports[i as int] == module.exports@[i as int]@);
            assert(m.exports.take(i + 1) =~= m.exports.take(i as int).push(m.exports[i as int]));
            lemma_encode_exports_push(m.exports.take(i as int), m.exports[i as int]);
        }
        emit_export(&mut entries, &module.exports[i]);
        i = i + 1;
    }
    proof {
        assert(m.exports.take(i as int) =~= m.exports);
    }
    emit_section(&mut out, section::EXPORT, module.exports.len() as u8, &entries);

    let mut entries: Vec<u8> = Vec::new();
    let mut i: usize = 0;
    while i < module.funcs.len()
        invariant
            i <= module.funcs.len(),
            m == module@,
            module_encodable(m),
            entries@ == encode_bodies(m.funcs.take(i as int)),
        decreases module.funcs.len() - i,
    {
        proof {
            assert(m.funcs[i as int] == module.funcs@[i as int]@);
            assert(m.funcs.take(i + 1) =~= m.funcs.take(i as int).push(m.funcs[i as int]));
            lemma_encode_bodies_push(m.funcs.take(i as int), m.funcs[i as int]);
        }
        emit_body(&mut entries, &module.funcs[i]);
        i = i + 1;
    }
    proof {
        assert(m.funcs.take(i as int) =~= m.funcs);
    }
    emit_section(&mut out, section::CODE, module.funcs.len() as u8, &entries);
    out
}

} // verus!
