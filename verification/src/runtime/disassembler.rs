//! The decoder: from a byte buffer back to a module.
//!
//! Each function here reads one piece of the layout through the cursor and is
//! proved to return exactly what the parser of the same name in
//! [`crate::layout`] yields at the cursor's offset: the same value, the same
//! end offset, or the same error.

use crate::ast::{
    bodies_view, body_view, exports_view, funcs_view, signature_view, signatures_view, BodyView,
    EDesc, Export, ExportView, Func, Instr, Module, SignatureView, StackType, Type, ValueType,
};
use crate::layout::{join_funcs, type_indices_at};
use crate::op_codes::section;
use crate::op_codes::{
    END, EXPORT_FUNC, I32_ADD, LOCAL_GET, MAGIC_0, MAGIC_1, MAGIC_2, MAGIC_3, TYPE_I32, TYPE_I64,
    VERSION,
};
use crate::runtime::error::RuntimeError;
use crate::runtime::reader::Reader;
use vstd::prelude::*;
use vstd::utf8::{decode_utf8, valid_utf8};

verus! {

/// The error of `core::str::from_utf8`, carried through as it is: nothing is
/// claimed of what it holds.
#[verifier::external_type_specification]
#[verifier::external_body]
pub struct ExUtf8Error(core::str::Utf8Error);

/// `core::str::from_utf8` succeeds exactly on the byte sequences that are
/// well-formed UTF-8, and the string it then returns holds the characters that
/// those bytes encode.
pub assume_specification[ core::str::from_utf8 ](v: &[u8]) -> (r: Result<
    &str,
    core::str::Utf8Error,
>)
    ensures
        r is Ok <==> valid_utf8(v@),
        r matches Ok(s) ==> s@ == decode_utf8(v@),
;

/// Checks the eight header bytes.
pub fn check_header(binary: &mut Reader) -> (r: Result<(), RuntimeError>)
    ensures
        final(binary).follows(*old(binary)),
        match crate::layout::parse_header(old(binary).buffer(), old(binary).offset() as int) {
            Ok((_, end)) => r is Ok && final(binary).offset() == end,
            Err(e) => r == Err::<(), RuntimeError>(e),
        },
{
    if binary.remaining() < 8 {
        return Err(RuntimeError::ModuleTooShort);
    }
    let magic = match binary.bytes(4) {
        Ok(m) => m,
        Err(e) => return Err(e),
    };
    if !(magic[0] == MAGIC_0 && magic[1] == MAGIC_1 && magic[2] == MAGIC_2 && magic[3] == MAGIC_3) {
        return Err(RuntimeError::WrongMagicHeader);
    }
    let version: u32 = match binary.dword() {
        Ok(v) => v,
        Err(e) => return Err(e),
    };
    if version != VERSION {
        return Err(RuntimeError::WrongVersionHeader);
    }
    Ok(())
}

/// Reads the tag, size and count bytes that open a section, and returns the
/// count. The tag must be `tag`; the size is skipped.
fn section_start(binary: &mut Reader, tag: u8) -> (r: Result<u8, RuntimeError>)
    ensures
        final(binary).follows(*old(binary)),
        match crate::layout::parse_section_start(
            old(binary).buffer(),
            old(binary).offset() as int,
            tag,
        ) {
            Ok((n, end)) => r == Ok::<u8, RuntimeError>(n) && final(binary).offset() == end,
            Err(e) => r == Err::<u8, RuntimeError>(e),
        },
{
    let code: u8 = match binary.byte() {
        Ok(b) => b,
        Err(e) => return Err(e),
    };
    if code != tag {
        return Err(RuntimeError::InvalidSectionCode);
    }
    let _size: u8 = match binary.byte() {
        Ok(b) => b,
        Err(e) => return Err(e),
    };
    binary.byte()
}

/// Reads one value type.
fn parse_valuetype(binary: &mut Reader) -> (r: Result<ValueType, RuntimeError>)
    ensures
        final(binary).follows(*old(binary)),
        match crate::layout::parse_value_types(
            old(binary).buffer(),
            old(binary).offset() as int,
            1,
        ) {
            Ok((vts, end)) => r == Ok::<ValueType, RuntimeError>(vts[0]) && final(binary).offset()
                == end,
            Err(e) => r == Err::<ValueType, RuntimeError>(e),
        },
{
    let b: u8 = match binary.byte() {
        Ok(b) => b,
        Err(e) => return Err(e),
    };
    proof {
        reveal_with_fuel(crate::layout::parse_value_types, 2);
    }
    if b == TYPE_I32 {
        Ok(ValueType::I32)
    } else if b == TYPE_I64 {
        Ok(ValueType::I64)
    } else {
        Err(RuntimeError::InvalidValueType)
    }
}

/// Reads a count byte and that many value types.
fn parse_valuetypes(binary: &mut Reader) -> (r: Result<StackType, RuntimeError>)
    ensures
        final(binary).follows(*old(binary)),
        match crate::layout::parse_counted_value_types(
            old(binary).buffer(),
            old(binary).offset() as int,
        ) {
            Ok((vts, end)) => r matches Ok(out) && out@ == vts && final(binary).offset() == end,
            Err(e) => r matches Err(x) && x == e,
        },
{
    let n: u8 = match binary.byte() {
        Ok(b) => b,
        Err(e) => return Err(e),
    };
    let ghost s = binary.buffer();
    let ghost start = binary.offset() as int;
    let mut out: StackType = Vec::new();
    let mut i: u8 = 0;
    while i < n
        invariant
            i <= n,
            binary.follows(*old(binary)),
            binary.buffer() == s,
            start <= binary.offset(),
            crate::layout::parse_counted_value_types(
                old(binary).buffer(),
                old(binary).offset() as int,
            ) == crate::layout::parse_value_types(s, start, n as nat),
            crate::layout::parse_value_types(s, start, n as nat)
                == match crate::layout::parse_value_types(
                s,
                binary.offset() as int,
                (n - i) as nat,
            ) {
                Ok((rest, end)) => Ok((out@ + rest, end)),
                Err(e) => Err(e),
            },
        decreases n - i,
    {
                let ghost before = out@;
        let vt: ValueType = match parse_valuetype(binary) {
            Ok(v) => v,
            Err(e) => {
                proof {
                    reveal_with_fuel(crate::layout::parse_value_types, 2);
                }
                return Err(e);
            },
        };
        out.push(vt);
        proof {
            reveal_with_fuel(crate::layout::parse_value_types, 2);
            assert forall|rest: Seq<ValueType>| (before + (seq![vt] + rest)) == #[trigger] (
            before.push(vt) + rest) by {
                assert((before + (seq![vt] + rest)) =~= (before.push(vt) + rest));
            }
        }
        i = i + 1;
    }
    proof {
        assert(out@ + Seq::<ValueType>::empty() =~= out@);
    }
    Ok(out)
}

/// Reads one signature: the marker byte, the parameters, the results.
fn parse_signature(binary: &mut Reader) -> (r: Result<Type, RuntimeError>)
    ensures
        final(binary).follows(*old(binary)),
        match crate::layout::parse_signature(old(binary).buffer(), old(binary).offset() as int) {
            Ok((sig, end)) => r matches Ok(t) && signature_view(t) == sig && final(binary).offset()
                == end,
            Err(e) => r matches Err(x) && x == e,
        },
{
    let _func: u8 = match binary.byte() {
        Ok(b) => b,
        Err(e) => return Err(e),
    };
    let params: StackType = match parse_valuetypes(binary) {
        Ok(v) => v,
        Err(e) => return Err(e),
    };
    let results: StackType = match parse_valuetypes(binary) {
        Ok(v) => v,
        Err(e) => return Err(e),
    };
    Ok((params, results))
}

/// Reads the type section: the table of function signatures.
pub fn parse_type_section(binary: &mut Reader) -> (r: Result<Vec<Type>, RuntimeError>)
    ensures
        final(binary).follows(*old(binary)),
        match crate::layout::parse_type_section(old(binary).buffer(), old(binary).offset() as int) {
            Ok((sigs, end)) => r matches Ok(types) && signatures_view(types@) == sigs && final(
                binary).offset() == end,
            Err(e) => r matches Err(x) && x == e,
        },
{
    let num_types: u8 = match section_start(binary, section::TYPE) {
        Ok(n) => n,
        Err(e) => return Err(e),
    };
    let ghost s = binary.buffer();
    let ghost start = binary.offset() as int;
    let mut types: Vec<Type> = Vec::new();
    let mut i: u8 = 0;
    while i < num_types
        invariant
            i <= num_types,
            binary.follows(*old(binary)),
            binary.buffer() == s,
            start <= binary.offset(),
            crate::layout::parse_type_section(old(binary).buffer(), old(binary).offset() as int)
                == crate::layout::parse_signatures(s, start, num_types as nat),
            crate::layout::parse_signatures(s, start, num_types as nat)
                == match crate::layout::parse_signatures(
                s,
                binary.offset() as int,
                (num_types - i) as nat,
            ) {
                Ok((rest, end)) => Ok((signatures_view(types@) + rest, end)),
                Err(e) => Err(e),
            },
        decreases num_types - i,
    {
        let ghost before = types@;
        let t: Type = match parse_signature(binary) {
            Ok(t) => t,
            Err(e) => return Err(e),
        };
        let ghost sig = signature_view(t);
        types.push(t);
        proof {
            assert(signatures_view(types@) =~= signatures_view(before).push(sig));
            assert forall|rest: Seq<SignatureView>|
                (signatures_view(before) + (seq![sig] + rest)) == #[trigger] (signatures_view(
                    before,
                ).push(sig) + rest) by {
                assert((signatures_view(before) + (seq![sig] + rest)) =~= (signatures_view(
                    before,
                ).push(sig) + rest));
            }
        }
        i = i + 1;
    }
    proof {
        assert(signatures_view(types@) + Seq::<SignatureView>::empty()
            =~= signatures_view(types@));
    }
    Ok(types)
}

/// Reads the function section: for each function, the index of its signature.
pub fn parse_func_section(binary: &mut Reader) -> (r: Result<Vec<i32>, RuntimeError>)
    ensures
        final(binary).follows(*old(binary)),
        match crate::layout::parse_func_section(old(binary).buffer(), old(binary).offset() as int) {
            Ok((indices, end)) => r matches Ok(f_types) && f_types@ == indices && final(
                binary).offset() == end,
            Err(e) => r matches Err(x) && x == e,
        },
{
    let num: u8 = match section_start(binary, section::FUNC) {
        Ok(n) => n,
        Err(e) => return Err(e),
    };
    let ghost s = binary.buffer();
    let ghost start = binary.offset() as int;
    let mut f_types: Vec<i32> = Vec::new();
    let mut i: u8 = 0;
    while i < num
        invariant
            i <= num,
            binary.follows(*old(binary)),
            binary.buffer() == s,
            binary.offset() == start + i,
            crate::layout::parse_func_section(old(binary).buffer(), old(binary).offset() as int)
                == (
            if start + num > s.len() {
                Err::<(Seq<i32>, int), RuntimeError>(RuntimeError::UnexpectedEndOfInput)
            } else {
                Ok((type_indices_at(s, start, num as nat), start + num))
            }),
            f_types@ == type_indices_at(s, start, i as nat),
        decreases num - i,
    {
        let b: u8 = match binary.byte() {
            Ok(b) => b,
            Err(e) => return Err(e),
        };
        f_types.push(b as i32);
        proof {
            assert(f_types@ =~= type_indices_at(s, start, (i + 1) as nat));
        }
        i = i + 1;
    }
    Ok(f_types)
}

/// Reads one export: its name, the reserved byte, its kind and its index.
fn parse_export(binary: &mut Reader) -> (r: Result<Export, RuntimeError>)
    ensures
        final(binary).follows(*old(binary)),
        match crate::layout::parse_export(old(binary).buffer(), old(binary).offset() as int) {
            Ok((x, end)) => r matches Ok(export) && export@ == x && final(binary).offset() == end,
            Err(e) => r matches Err(x) && x == e,
        },
{
    let length: u8 = match binary.byte() {
        Ok(b) => b,
        Err(e) => return Err(e),
    };
    let name: String = match binary.bytes(length as usize) {
        Ok(raw) => match core::str::from_utf8(raw) {
            Ok(n) => n.to_owned(),
            Err(_) => return Err(RuntimeError::InvalidExportName),
        },
        Err(e) => return Err(e),
    };
    let _zero: u8 = match binary.byte() {
        Ok(b) => b,
        Err(e) => return Err(e),
    };
    let kind: u8 = match binary.byte() {
        Ok(b) => b,
        Err(e) => return Err(e),
    };
    if kind != EXPORT_FUNC {
        return Err(RuntimeError::InvalidExportType);
    }
    let index: u8 = match binary.byte() {
        Ok(b) => b,
        Err(e) => return Err(e),
    };
    Ok(Export { name, e_desc: EDesc::FuncExport(index as usize) })
}

/// Reads the export section: the table of named entry points.
pub fn parse_export_section(binary: &mut Reader) -> (r: Result<Vec<Export>, RuntimeError>)
    ensures
        final(binary).follows(*old(binary)),
        match crate::layout::parse_export_section(
            old(binary).buffer(),
            old(binary).offset() as int,
        ) {
            Ok((xs, end)) => r matches Ok(exports) && exports_view(exports@) == xs && final(
                binary).offset() == end,
            Err(e) => r matches Err(x) && x == e,
        },
{
    let num: u8 = match section_start(binary, section::EXPORT) {
        Ok(n) => n,
        Err(e) => return Err(e),
    };
    let ghost s = binary.buffer();
    let ghost start = binary.offset() as int;
    let mut exports: Vec<Export> = Vec::new();
    let mut i: u8 = 0;
    while i < num
        invariant
            i <= num,
            binary.follows(*old(binary)),
            binary.buffer() == s,
            crate::layout::parse_export_section(old(binary).buffer(), old(binary).offset() as int)
                == crate::layout::parse_exports(s, start, num as nat),
            crate::layout::parse_exports(s, start, num as nat)
                == match crate::layout::parse_exports(s, binary.offset() as int, (num - i) as nat) {
                Ok((rest, end)) => Ok((exports_view(exports@) + rest, end)),
                Err(e) => Err(e),
            },
        decreases num - i,
    {
        let ghost before = exports_view(exports@);
        let export: Export = match parse_export(binary) {
            Ok(x) => x,
            Err(e) => return Err(e),
        };
        let ghost x = export@;
        exports.push(export);
        proof {
            assert(exports_view(exports@) =~= before.push(x));
            assert forall|rest: Seq<ExportView>|
                (before + (seq![x] + rest)) == #[trigger] (before.push(x) + rest) by {
                assert((before + (seq![x] + rest)) =~= (before.push(x) + rest));
            }
        }
        i = i + 1;
    }
    proof {
        assert(exports_view(exports@) + Seq::<ExportView>::empty() =~= exports_view(exports@));
    }
    Ok(exports)
}

/// Reads instructions until the end marker.
fn parse_instrs(binary: &mut Reader) -> (r: Result<Vec<Instr>, RuntimeError>)
    ensures
        final(binary).follows(*old(binary)),
        match crate::layout::parse_instrs(old(binary).buffer(), old(binary).offset() as int) {
            Ok((is, end)) => r matches Ok(instrs) && instrs@ == is && final(binary).offset() == end,
            Err(e) => r matches Err(x) && x == e,
        },
{
    let ghost s = binary.buffer();
    let ghost start = binary.offset() as int;
    let mut instrs: Vec<Instr> = Vec::new();
    loop
        invariant
            binary.buffer() == s,
            s == old(binary).buffer(),
            start == old(binary).offset(),
            start <= binary.offset(),
            crate::layout::parse_instrs(s, start) == match crate::layout::parse_instrs(
                s,
                binary.offset() as int,
            ) {
                Ok((rest, end)) => Ok((instrs@ + rest, end)),
                Err(e) => Err(e),
            },
        decreases s.len() - binary.offset(),
    {
        let ghost before = instrs@;
        let tag: u8 = match binary.byte() {
            Ok(b) => b,
            Err(e) => return Err(e),
        };
        if tag == LOCAL_GET {
            let index: u8 = match binary.byte() {
                Ok(b) => b,
                Err(e) => return Err(e),
            };
            instrs.push(Instr::LocalGet(index as usize));
        } else if tag == I32_ADD {
            instrs.push(Instr::I32Add);
        } else if tag == END {
            proof {
                assert(instrs@ + Seq::<Instr>::empty() =~= instrs@);
            }
            return Ok(instrs);
        } else {
            return Err(RuntimeError::InvalidInstruction);
        }
        proof {
            let x = instrs@.last();
            assert(instrs@ =~= before.push(x));
            assert forall|rest: Seq<Instr>|
                (before + (seq![x] + rest)) == #[trigger] (before.push(x) + rest) by {
                assert((before + (seq![x] + rest)) =~= (before.push(x) + rest));
            }
        }
    }
}

/// Reads one function body: the size byte, the locals, the instructions.
fn parse_body(binary: &mut Reader) -> (r: Result<(StackType, Vec<Instr>), RuntimeError>)
    ensures
        final(binary).follows(*old(binary)),
        match crate::layout::parse_body(old(binary).buffer(), old(binary).offset() as int) {
            Ok((x, end)) => r matches Ok(body) && body_view(body) == x && final(binary).offset()
                == end,
            Err(e) => r matches Err(x) && x == e,
        },
{
    let _size: u8 = match binary.byte() {
        Ok(b) => b,
        Err(e) => return Err(e),
    };
    let locals: StackType = match parse_valuetypes(binary) {
        Ok(v) => v,
        Err(e) => return Err(e),
    };
    let instrs: Vec<Instr> = match parse_instrs(binary) {
        Ok(v) => v,
        Err(e) => return Err(e),
    };
    Ok((locals, instrs))
}

/// Reads the code section: for each function, its locals and its body.
pub fn parse_code_section(binary: &mut Reader) -> (r: Result<
    Vec<(StackType, Vec<Instr>)>,
    RuntimeError,
>)
    ensures
        final(binary).follows(*old(binary)),
        match crate::layout::parse_code_section(old(binary).buffer(), old(binary).offset() as int) {
            Ok((xs, end)) => r matches Ok(code) && bodies_view(code@) == xs && final(
                binary).offset() == end,
            Err(e) => r matches Err(x) && x == e,
        },
{
    let num: u8 = match section_start(binary, section::CODE) {
        Ok(n) => n,
        Err(e) => return Err(e),
    };
    let ghost s = binary.buffer();
    let ghost start = binary.offset() as int;
    let mut code: Vec<(StackType, Vec<Instr>)> = Vec::new();
    let mut i: u8 = 0;
    while i < num
        invariant
            i <= num,
            binary.follows(*old(binary)),
            binary.buffer() == s,
            crate::layout::parse_code_section(old(binary).buffer(), old(binary).offset() as int)
                == crate::layout::parse_bodies(s, start, num as nat),
            crate::layout::parse_bodies(s, start, num as nat) == match crate::layout::parse_bodies(
                s,
                binary.offset() as int,
                (num - i) as nat,
            ) {
                Ok((rest, end)) => Ok((bodies_view(code@) + rest, end)),
                Err(e) => Err(e),
            },
        decreases num - i,
    {
        let ghost before = bodies_view(code@);
        let body: (StackType, Vec<Instr>) = match parse_body(binary) {
            Ok(x) => x,
            Err(e) => return Err(e),
        };
        let ghost x = body_view(body);
        code.push(body);
        proof {
            assert(bodies_view(code@) =~= before.push(x));
            assert forall|rest: Seq<BodyView>|
                (before + (seq![x] + rest)) == #[trigger] (before.push(x) + rest) by {
                assert((before + (seq![x] + rest)) =~= (before.push(x) + rest));
            }
        }
        i = i + 1;
    }
    proof {
        assert(bodies_view(code@) + Seq::<BodyView>::empty() =~= bodies_view(code@));
    }
    Ok(code)
}

/// Decodes a whole module from the cursor's position: the header, then the
/// type, function, export and code sections in that order. Function `i` gets
/// its type index from entry `i` of the function section and its locals and
/// body from entry `i` of the code section; where the two sections differ in
/// length the module is rejected.
pub fn parse_binary(binary: &mut Reader) -> (r: Result<Module, RuntimeError>)
    ensures
        final(binary).follows(*old(binary)),
        match crate::layout::parse_module(old(binary).buffer(), old(binary).offset() as int) {
            Ok((m, end)) => r matches Ok(module) && module@ == m && final(binary).offset() == end,
            Err(e) => r matches Err(x) && x == e,
        },
{
    match check_header(binary) {
        Ok(_) => {},
        Err(e) => return Err(e),
    }
    let types: Vec<Type> = match parse_type_section(binary) {
        Ok(x) => x,
        Err(e) => return Err(e),
    };
    let f_types: Vec<i32> = match parse_func_section(binary) {
        Ok(x) => x,
        Err(e) => return Err(e),
    };
    let exports: Vec<Export> = match parse_export_section(binary) {
        Ok(x) => x,
        Err(e) => return Err(e),
    };
    let code: Vec<(StackType, Vec<Instr>)> = match parse_code_section(binary) {
        Ok(x) => x,
        Err(e) => return Err(e),
    };
    if f_types.len() != code.len() {
        return Err(RuntimeError::InvalidModule);
    }
    let ghost joined = join_funcs(f_types@, bodies_view(code@));
    let mut funcs: Vec<Func> = Vec::new();
    let mut i: usize = 0;
    while i < f_types.len()
        invariant
            i <= f_types.len(),
            f_types.len() == code.len(),
            joined == join_funcs(f_types@, bodies_view(code@)),
            funcs_view(funcs@) == joined.take(i as int),
        decreases f_types.len() - i,
    {
        let ghost before = funcs_view(funcs@);
        let func = Func { f_type: f_types[i], locals: code[i].0.clone(), body: code[i].1.clone() };
        proof {
            assert(func.locals@ == code[i as int].0@);
            assert(func.body@ == code[i as int].1@);
        }
        let ghost x = func@;
        funcs.push(func);
        proof {
            assert(funcs_view(funcs@) =~= before.push(x));
            assert(joined.take(i + 1) =~= joined.take(i as int).push(x));
        }
        i = i + 1;
    }
    proof {
        assert(joined.take(i as int) =~= joined);
    }
    Ok(Module { types, funcs, exports })
}

} // verus!
