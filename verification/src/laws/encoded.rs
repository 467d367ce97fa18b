//! Decoding what the encoder wrote: for each piece of the layout, a buffer
//! that holds the piece's encoding at some offset decodes there to the piece
//! and ends just behind the encoding.

use crate::ast::{BodyView, ExportView, FuncView, Instr, ModuleView, SignatureView, ValueType};
use crate::layout::{
    body_encodings, byte_value_type, encode_bodies, encode_body, encode_body_payload,
    encode_code_section, encode_counted_value_types, encode_export, encode_export_section,
    encode_exports, encode_func_section, encode_header, encode_instr, encode_instrs,
    encode_module, encode_section, encode_signature, encode_signatures, encode_type_indices,
    encode_type_section, encode_value_types, export_encodable, export_encodings, fits_byte,
    func_encodable, instr_encodable, instr_encodings, join_funcs, low_byte, module_encodable,
    parse_bodies, parse_body, parse_code_section, parse_counted_value_types, parse_export,
    parse_export_section, parse_exports, parse_func_section, parse_header, parse_instrs,
    parse_module, parse_section_start, parse_signature, parse_signatures, parse_type_section,
    parse_value_types, signature_encodable, signature_encodings, type_indices_at,
    value_type_byte,
};
use crate::op_codes::section;
use crate::op_codes::END;
use crate::runtime::error::RuntimeError;
use vstd::prelude::*;
use vstd::utf8::{encode_utf8, encode_utf8_decode_utf8, encode_utf8_valid_utf8};

verus! {

/// The buffer `s` holds the bytes `e` from offset `p` on.
pub open spec fn holds_at(s: Seq<u8>, p: int, e: Seq<u8>) -> bool {
    &&& 0 <= p
    &&& p + e.len() <= s.len()
    &&& s.subrange(p, p + e.len()) == e
}

/// Byte `i` of what a buffer holds at `p` stands at offset `p + i`.
pub proof fn lemma_holds_at_index(s: Seq<u8>, p: int, e: Seq<u8>, i: int)
    requires
        holds_at(s, p, e),
        0 <= i < e.len(),
    ensures
        s[p + i] == e[i],
{
    assert(s.subrange(p, p + e.len())[i] == s[p + i]);
}

/// A buffer that holds `a + b` holds `a`, and `b` right behind it.
pub proof fn lemma_holds_at_split(s: Seq<u8>, p: int, a: Seq<u8>, b: Seq<u8>)
    requires
        holds_at(s, p, a + b),
    ensures
        holds_at(s, p, a),
        holds_at(s, p + a.len(), b),
{
    let whole = s.subrange(p, p + (a + b).len());
    assert(s.subrange(p, p + a.len()) =~= whole.subrange(0, a.len() as int));
    assert(whole.subrange(0, a.len() as int) =~= a);
    assert(s.subrange(p + a.len(), p + a.len() + b.len()) =~= whole.subrange(
        a.len() as int,
        (a + b).len() as int,
    ));
    assert(whole.subrange(a.len() as int, (a + b).len() as int) =~= b);
}

/// A buffer put together from four pieces holds the first piece at its start
/// and the two middle pieces right behind it.
pub proof fn lemma_holds_at_middle(a: Seq<u8>, b: Seq<u8>, c: Seq<u8>, d: Seq<u8>)
    ensures
        holds_at(a + b + c + d, 0, a),
        holds_at(a + b + c + d, a.len() as int, b + c),
{
    let s = a + b + c + d;
    assert(s.subrange(0, a.len() as int) =~= a);
    assert(s.subrange(a.len() as int, (a.len() + (b + c).len()) as int) =~= b + c);
}

/// A buffer holds itself at offset 0.
pub proof fn lemma_holds_at_self(s: Seq<u8>)
    ensures
        holds_at(s, 0, s),
{
    assert(s.subrange(0, s.len() as int) =~= s);
}

/// The value types of an encoding decode to themselves.
pub proof fn lemma_value_types(s: Seq<u8>, p: int, ts: Seq<ValueType>)
    requires
        holds_at(s, p, encode_value_types(ts)),
    ensures
        parse_value_types(s, p, ts.len()) == Ok::<(Seq<ValueType>, int), RuntimeError>(
            (ts, p + ts.len()),
        ),
    decreases ts.len(),
{
    if ts.len() > 0 {
        let first = seq![value_type_byte(ts[0])];
        let rest = ts.drop_first();
        assert(encode_value_types(ts) =~= first + encode_value_types(rest));
        lemma_holds_at_split(s, p, first, encode_value_types(rest));
        lemma_holds_at_index(s, p, first, 0);
        assert(byte_value_type(value_type_byte(ts[0])) == Some(ts[0]));
        lemma_value_types(s, p + 1, rest);
        assert(seq![ts[0]] + rest =~= ts);
    } else {
        assert(ts =~= Seq::<ValueType>::empty());
    }
}

/// A counted list of value types decodes to itself.
pub proof fn lemma_counted_value_types(s: Seq<u8>, p: int, ts: Seq<ValueType>)
    requires
        fits_byte(ts.len() as int),
        holds_at(s, p, encode_counted_value_types(ts)),
    ensures
        parse_counted_value_types(s, p) == Ok::<(Seq<ValueType>, int), RuntimeError>(
            (ts, p + encode_counted_value_types(ts).len()),
        ),
        encode_counted_value_types(ts).len() == 1 + ts.len(),
{
    let count = seq![low_byte(ts.len() as int)];
    lemma_holds_at_split(s, p, count, encode_value_types(ts));
    lemma_holds_at_index(s, p, count, 0);
    lemma_value_types(s, p + 1, ts);
}

/// A signature decodes to itself.
pub proof fn lemma_signature(s: Seq<u8>, p: int, sig: SignatureView)
    requires
        signature_encodable(sig),
        holds_at(s, p, encode_signature(sig)),
    ensures
        parse_signature(s, p) == Ok::<(SignatureView, int), RuntimeError>(
            (sig, p + encode_signature(sig).len()),
        ),
{
    let marker = seq![crate::op_codes::FUNC_TYPE];
    let params = encode_counted_value_types(sig.params);
    let results = encode_counted_value_types(sig.results);
    lemma_holds_at_split(s, p, marker + params, results);
    lemma_holds_at_split(s, p, marker, params);
    lemma_counted_value_types(s, p + 1, sig.params);
    lemma_counted_value_types(s, p + 1 + params.len(), sig.results);
}

/// A list of signatures decodes to itself.
pub proof fn lemma_signatures(s: Seq<u8>, p: int, sigs: Seq<SignatureView>)
    requires
        forall|i: int| 0 <= i < sigs.len() ==> signature_encodable(#[trigger] sigs[i]),
        holds_at(s, p, encode_signatures(sigs)),
    ensures
        parse_signatures(s, p, sigs.len()) == Ok::<(Seq<SignatureView>, int), RuntimeError>(
            (sigs, p + encode_signatures(sigs).len()),
        ),
    decreases sigs.len(),
{
    if sigs.len() > 0 {
        let first = encode_signature(sigs[0]);
        let rest = sigs.drop_first();
        assert(signature_encodings(sigs).drop_first() =~= signature_encodings(rest));
        assert(encode_signatures(sigs) == first + encode_signatures(rest));
        lemma_holds_at_split(s, p, first, encode_signatures(rest));
        lemma_signature(s, p, sigs[0]);
        assert forall|i: int| 0 <= i < rest.len() implies signature_encodable(
            #[trigger] rest[i],
        ) by {
            assert(rest[i] == sigs[i + 1]);
        }
        lemma_signatures(s, p + first.len(), rest);
        assert(seq![sigs[0]] + rest =~= sigs);
    } else {
        assert(sigs =~= Seq::<SignatureView>::empty());
        assert(signature_encodings(sigs) =~= Seq::<Seq<u8>>::empty());
    }
}

/// The start of an encoded section decodes to the section's count.
pub proof fn lemma_section_start(s: Seq<u8>, p: int, tag: u8, count: int, entries: Seq<u8>)
    requires
        fits_byte(count),
        holds_at(s, p, encode_section(tag, count, entries)),
    ensures
        parse_section_start(s, p, tag) == Ok::<(u8, int), RuntimeError>((count as u8, p + 3)),
        holds_at(s, p + 3, entries),
        encode_section(tag, count, entries).len() == 3 + entries.len(),
{
    let start = seq![tag, low_byte(1 + entries.len() as int), low_byte(count)];
    lemma_holds_at_split(s, p, start, entries);
    lemma_holds_at_index(s, p, start, 0);
    lemma_holds_at_index(s, p, start, 2);
}

/// An encoded type section decodes to its signatures.
pub proof fn lemma_type_section(s: Seq<u8>, p: int, sigs: Seq<SignatureView>)
    requires
        fits_byte(sigs.len() as int),
        forall|i: int| 0 <= i < sigs.len() ==> signature_encodable(#[trigger] sigs[i]),
        holds_at(s, p, encode_type_section(sigs)),
    ensures
        parse_type_section(s, p) == Ok::<(Seq<SignatureView>, int), RuntimeError>(
            (sigs, p + encode_type_section(sigs).len()),
        ),
{
    lemma_section_start(s, p, section::TYPE, sigs.len() as int, encode_signatures(sigs));
    lemma_signatures(s, p + 3, sigs);
}

/// An encoded function section decodes to the type indices of its functions.
pub proof fn lemma_func_section(s: Seq<u8>, p: int, funcs: Seq<FuncView>)
    requires
        fits_byte(funcs.len() as int),
        forall|i: int| 0 <= i < funcs.len() ==> fits_byte((#[trigger] funcs[i]).f_type as int),
        holds_at(s, p, encode_func_section(funcs)),
    ensures
        parse_func_section(s, p) matches Ok((indices, end)) && end == p + encode_func_section(
            funcs,
        ).len() && indices.len() == funcs.len() && forall|i: int|
            0 <= i < funcs.len() ==> indices[i] == (#[trigger] funcs[i]).f_type,
{
    let entries = encode_type_indices(funcs);
    lemma_section_start(s, p, section::FUNC, funcs.len() as int, entries);
    let indices = type_indices_at(s, p + 3, funcs.len());
    assert forall|i: int| 0 <= i < funcs.len() implies indices[i] == (
    #[trigger] funcs[i]).f_type by {
        lemma_holds_at_index(s, p + 3, entries, i);
    }
}

/// An encoded export decodes to itself.
pub proof fn lemma_export(s: Seq<u8>, p: int, e: ExportView)
    requires
        export_encodable(e),
        holds_at(s, p, encode_export(e)),
    ensures
        parse_export(s, p) == Ok::<(ExportView, int), RuntimeError>(
            (e, p + encode_export(e).len()),
        ),
{
    let name = encode_utf8(e.name);
    let length = seq![low_byte(name.len() as int)];
    let tail = seq![
        crate::op_codes::EXPORT_RESERVED,
        crate::op_codes::EXPORT_FUNC,
        crate::layout::export_index_byte(e.e_desc),
    ];
    lemma_holds_at_split(s, p, length + name, tail);
    lemma_holds_at_split(s, p, length, name);
    lemma_holds_at_index(s, p, length, 0);
    let q = p + 1 + name.len();
    encode_utf8_valid_utf8(e.name);
    encode_utf8_decode_utf8(e.name);
    lemma_holds_at_index(s, q, tail, 0);
    lemma_holds_at_index(s, q, tail, 1);
    lemma_holds_at_index(s, q, tail, 2);
}

/// A list of encoded exports decodes to itself.
pub proof fn lemma_exports(s: Seq<u8>, p: int, es: Seq<ExportView>)
    requires
        forall|i: int| 0 <= i < es.len() ==> export_encodable(#[trigger] es[i]),
        holds_at(s, p, encode_exports(es)),
    ensures
        parse_exports(s, p, es.len()) == Ok::<(Seq<ExportView>, int), RuntimeError>(
            (es, p + encode_exports(es).len()),
        ),
    decreases es.len(),
{
    if es.len() > 0 {
        let first = encode_export(es[0]);
        let rest = es.drop_first();
        assert(export_encodings(es).drop_first() =~= export_encodings(rest));
        assert(encode_exports(es) == first + encode_exports(rest));
        lemma_holds_at_split(s, p, first, encode_exports(rest));
        lemma_export(s, p, es[0]);
        assert forall|i: int| 0 <= i < rest.len() implies export_encodable(#[trigger] rest[i]) by {
            assert(rest[i] == es[i + 1]);
        }
        lemma_exports(s, p + first.len(), rest);
        assert(seq![es[0]] + rest =~= es);
    } else {
        assert(es =~= Seq::<ExportView>::empty());
        assert(export_encodings(es) =~= Seq::<Seq<u8>>::empty());
    }
}

/// An encoded export section decodes to its exports.
pub proof fn lemma_export_section(s: Seq<u8>, p: int, es: Seq<ExportView>)
    requires
        fits_byte(es.len() as int),
        forall|i: int| 0 <= i < es.len() ==> export_encodable(#[trigger] es[i]),
        holds_at(s, p, encode_export_section(es)),
    ensures
        parse_export_section(s, p) == Ok::<(Seq<ExportView>, int), RuntimeError>(
            (es, p + encode_export_section(es).len()),
        ),
{
    lemma_section_start(s, p, section::EXPORT, es.len() as int, encode_exports(es));
    lemma_exports(s, p + 3, es);
}

/// What decoding yields when `front` has been decoded and the rest of the
/// stream yields `rest`.
pub open spec fn after_instrs(front: Seq<Instr>, rest: Result<(Seq<Instr>, int), RuntimeError>)
    -> Result<(Seq<Instr>, int), RuntimeError> {
    match rest {
        Err(e) => Err(e),
        Ok((is, end)) => Ok((front + is, end)),
    }
}

/// Where a buffer holds encoded instructions, decoding passes over them and
/// goes on with what stands behind them.
pub proof fn lemma_instrs_then(s: Seq<u8>, p: int, is: Seq<Instr>)
    requires
        forall|i: int| 0 <= i < is.len() ==> instr_encodable(#[trigger] is[i]),
        holds_at(s, p, encode_instrs(is)),
        p + encode_instrs(is).len() < s.len(),
    ensures
        parse_instrs(s, p) == after_instrs(is, parse_instrs(s, p + encode_instrs(is).len())),
    decreases is.len(),
{
    if is.len() > 0 {
        let first = encode_instr(is[0]);
        let rest = is.drop_first();
        assert(instr_encodings(is).drop_first() =~= instr_encodings(rest));
        assert(encode_instrs(is) == first + encode_instrs(rest));
        lemma_holds_at_split(s, p, first, encode_instrs(rest));
        assert(instr_encodable(is[0]));
        lemma_holds_at_index(s, p, first, 0);
        assert forall|i: int| 0 <= i < rest.len() implies instr_encodable(#[trigger] rest[i]) by {
            assert(rest[i] == is[i + 1]);
        }
        lemma_instrs_then(s, p + first.len(), rest);
        match is[0] {
            Instr::LocalGet(k) => {
                lemma_holds_at_index(s, p, first, 1);
            },
            Instr::I32Add => {},
        }
        let behind = parse_instrs(s, p + encode_instrs(is).len());
        match behind {
            Ok((more, end)) => {
                assert(seq![is[0]] + (rest + more) =~= is + more);
            },
            Err(_) => {},
        }
    } else {
        assert(instr_encodings(is) =~= Seq::<Seq<u8>>::empty());
        match parse_instrs(s, p) {
            Ok((more, end)) => {
                assert(is + more =~= more);
            },
            Err(_) => {},
        }
    }
}

/// An encoded instruction stream with its end marker decodes to itself.
pub proof fn lemma_instrs(s: Seq<u8>, p: int, is: Seq<Instr>)
    requires
        forall|i: int| 0 <= i < is.len() ==> instr_encodable(#[trigger] is[i]),
        holds_at(s, p, encode_instrs(is) + seq![END]),
    ensures
        parse_instrs(s, p) == Ok::<(Seq<Instr>, int), RuntimeError>(
            (is, p + encode_instrs(is).len() + 1),
        ),
{
    let end = seq![END];
    lemma_holds_at_split(s, p, encode_instrs(is), end);
    let q = p + encode_instrs(is).len();
    lemma_holds_at_index(s, q, end, 0);
    lemma_instrs_then(s, p, is);
    assert(is + Seq::<Instr>::empty() =~= is);
}

/// The locals and instructions of a function.
pub open spec fn body_of(f: FuncView) -> BodyView {
    BodyView { locals: f.locals, instrs: f.body }
}

/// The bodies of a function table.
pub open spec fn bodies_of(funcs: Seq<FuncView>) -> Seq<BodyView> {
    funcs.map_values(|f: FuncView| body_of(f))
}

/// An encoded function body decodes to the function's locals and instructions.
pub proof fn lemma_body(s: Seq<u8>, p: int, f: FuncView)
    requires
        func_encodable(f),
        holds_at(s, p, encode_body(f)),
    ensures
        parse_body(s, p) == Ok::<(BodyView, int), RuntimeError>(
            (body_of(f), p + encode_body(f).len()),
        ),
{
    let payload = encode_body_payload(f);
    let size = seq![low_byte(payload.len() as int)];
    let locals = encode_counted_value_types(f.locals);
    let instrs = encode_instrs(f.body) + seq![END];
    assert(payload =~= locals + instrs);
    lemma_holds_at_split(s, p, size, payload);
    lemma_holds_at_split(s, p + 1, locals, instrs);
    lemma_counted_value_types(s, p + 1, f.locals);
    lemma_instrs(s, p + 1 + locals.len(), f.body);
}

/// What decoding yields when `front` has been decoded and the rest of the
/// list yields `rest`.
pub open spec fn after_bodies(
    front: Seq<BodyView>,
    rest: Result<(Seq<BodyView>, int), RuntimeError>,
) -> Result<(Seq<BodyView>, int), RuntimeError> {
    match rest {
        Err(e) => Err(e),
        Ok((bs, end)) => Ok((front + bs, end)),
    }
}

/// Where a buffer holds encoded bodies, decoding passes over them and goes on
/// with what stands behind them.
pub proof fn lemma_bodies_then(s: Seq<u8>, p: int, funcs: Seq<FuncView>, more: nat)
    requires
        forall|i: int| 0 <= i < funcs.len() ==> func_encodable(#[trigger] funcs[i]),
        holds_at(s, p, encode_bodies(funcs)),
    ensures
        parse_bodies(s, p, funcs.len() + more) == after_bodies(
            bodies_of(funcs),
            parse_bodies(s, p + encode_bodies(funcs).len(), more),
        ),
    decreases funcs.len(),
{
    if funcs.len() > 0 {
        let first = encode_body(funcs[0]);
        let rest = funcs.drop_first();
        assert(body_encodings(funcs).drop_first() =~= body_encodings(rest));
        assert(encode_bodies(funcs) == first + encode_bodies(rest));
        lemma_holds_at_split(s, p, first, encode_bodies(rest));
        lemma_body(s, p, funcs[0]);
        assert forall|i: int| 0 <= i < rest.len() implies func_encodable(#[trigger] rest[i]) by {
            assert(rest[i] == funcs[i + 1]);
        }
        lemma_bodies_then(s, p + first.len(), rest, more);
        assert(bodies_of(funcs).drop_first() =~= bodies_of(rest));
        match parse_bodies(s, p + encode_bodies(funcs).len(), more) {
            Ok((bs, end)) => {
                assert(seq![body_of(funcs[0])] + (bodies_of(rest) + bs) =~= bodies_of(funcs) + bs);
            },
            Err(_) => {},
        }
    } else {
        assert(body_encodings(funcs) =~= Seq::<Seq<u8>>::empty());
        match parse_bodies(s, p, more) {
            Ok((bs, end)) => {
                assert(bodies_of(funcs) + bs =~= bs);
            },
            Err(_) => {},
        }
    }
}

/// An encoded code section decodes to the bodies of its functions.
pub proof fn lemma_code_section(s: Seq<u8>, p: int, funcs: Seq<FuncView>)
    requires
        fits_byte(funcs.len() as int),
        forall|i: int| 0 <= i < funcs.len() ==> func_encodable(#[trigger] funcs[i]),
        holds_at(s, p, encode_code_section(funcs)),
    ensures
        parse_code_section(s, p) == Ok::<(Seq<BodyView>, int), RuntimeError>(
            (bodies_of(funcs), p + encode_code_section(funcs).len()),
        ),
{
    lemma_section_start(s, p, section::CODE, funcs.len() as int, encode_bodies(funcs));
    lemma_bodies_then(s, p + 3, funcs, 0);
    assert(bodies_of(funcs) + Seq::<BodyView>::empty() =~= bodies_of(funcs));
}

/// The header and the three sections that stand before the code section.
pub open spec fn encode_front(m: ModuleView) -> Seq<u8> {
    encode_header() + encode_type_section(m.types) + encode_func_section(m.funcs)
        + encode_export_section(m.exports)
}

/// The encoded header decodes.
pub proof fn lemma_header(s: Seq<u8>, p: int)
    requires
        holds_at(s, p, encode_header()),
    ensures
        parse_header(s, p) == Ok::<((), int), RuntimeError>(((), p + 8)),
{
    let header = encode_header();
    lemma_holds_at_index(s, p, header, 0);
    lemma_holds_at_index(s, p, header, 1);
    lemma_holds_at_index(s, p, header, 2);
    lemma_holds_at_index(s, p, header, 3);
    lemma_holds_at_index(s, p, header, 4);
    lemma_holds_at_index(s, p, header, 5);
    lemma_holds_at_index(s, p, header, 6);
    lemma_holds_at_index(s, p, header, 7);
}

/// What a module decodes to once its header and its first three sections
/// have been read as those of `m`, and the code section yields `code`.
pub open spec fn after_front(m: ModuleView, code: Result<(Seq<BodyView>, int), RuntimeError>)
    -> Result<(ModuleView, int), RuntimeError> {
    match code {
        Err(e) => Err(e),
        Ok((bodies, end)) => if m.funcs.len() != bodies.len() {
            Err(RuntimeError::InvalidModule)
        } else {
            Ok(
                (
                    ModuleView {
                        types: m.types,
                        funcs: join_funcs(m.funcs.map_values(|f: FuncView| f.f_type), bodies),
                        exports: m.exports,
                    },
                    end,
                ),
            )
        },
    }
}

/// Where a buffer holds the encoding of `m` up to the code section, decoding
/// reads the header and the first three sections as those of `m` and goes on
/// with the code section.
pub proof fn lemma_front(s: Seq<u8>, p: int, m: ModuleView)
    requires
        module_encodable(m),
        holds_at(s, p, encode_front(m)),
    ensures
        parse_module(s, p) == after_front(m, parse_code_section(s, p + encode_front(m).len())),
{
    let header = encode_header();
    let types = encode_type_section(m.types);
    let funcs = encode_func_section(m.funcs);
    let exports = encode_export_section(m.exports);
    lemma_holds_at_split(s, p, header + types + funcs, exports);
    lemma_holds_at_split(s, p, header + types, funcs);
    lemma_holds_at_split(s, p, header, types);
    lemma_header(s, p);
    let p1: int = p + 8 + types.len();
    let p2: int = p1 + funcs.len();
    lemma_type_section(s, p + 8, m.types);
    assert forall|i: int| 0 <= i < m.funcs.len() implies fits_byte(
        (#[trigger] m.funcs[i]).f_type as int,
    ) by {
        assert(func_encodable(m.funcs[i]));
    }
    lemma_func_section(s, p1, m.funcs);
    lemma_export_section(s, p2, m.exports);
    let indices = parse_func_section(s, p1)->Ok_0.0;
    assert(indices =~= m.funcs.map_values(|f: FuncView| f.f_type));
}

/// A buffer that holds the encoding of a module decodes there to the module,
/// and decoding ends just behind the encoding.
pub proof fn lemma_module(s: Seq<u8>, p: int, m: ModuleView)
    requires
        module_encodable(m),
        holds_at(s, p, encode_module(m)),
    ensures
        parse_module(s, p) == Ok::<(ModuleView, int), RuntimeError>(
            (m, p + encode_module(m).len()),
        ),
{
    lemma_holds_at_split(s, p, encode_front(m), encode_code_section(m.funcs));
    lemma_front(s, p, m);
    lemma_code_section(s, p + encode_front(m).len(), m.funcs);
    assert(join_funcs(m.funcs.map_values(|f: FuncView| f.f_type), bodies_of(m.funcs)) =~= m.funcs);
}

} // verus!
