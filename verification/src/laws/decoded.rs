//! What comes out of the decoder fits the format: every count, index and
//! length of a decoded module was read from a single byte.

use crate::layout::{
    export_encodable, fits_byte, func_encodable, instr_encodable, module_encodable, parse_bodies,
    parse_body, parse_code_section, parse_counted_value_types, parse_export, parse_export_section,
    parse_exports, parse_func_section, parse_instrs, parse_module, parse_section_start,
    parse_signature, parse_signatures, parse_type_section, parse_value_types, signature_encodable,
};
use crate::op_codes::section;
use vstd::prelude::*;
use vstd::utf8::decode_utf8_encode_utf8;

verus! {

/// Decoding `n` value types yields `n` of them.
pub proof fn lemma_value_types_count(s: Seq<u8>, p: int, n: nat)
    requires
        parse_value_types(s, p, n) is Ok,
    ensures
        parse_value_types(s, p, n)->Ok_0.0.len() == n,
    decreases n,
{
    if n > 0 {
        lemma_value_types_count(s, p + 1, (n - 1) as nat);
    }
}

/// A decoded signature has at most 255 parameters and results.
pub proof fn lemma_signature_fits(s: Seq<u8>, p: int)
    requires
        parse_signature(s, p) is Ok,
    ensures
        signature_encodable(parse_signature(s, p)->Ok_0.0),
{
    lemma_value_types_count(s, p + 2, s[p + 1] as nat);
    let q = parse_counted_value_types(s, p + 1)->Ok_0.1;
    lemma_value_types_count(s, q + 1, s[q] as nat);
}

/// Decoding `n` signatures yields `n` of them, each of which fits.
pub proof fn lemma_signatures_fit(s: Seq<u8>, p: int, n: nat)
    requires
        parse_signatures(s, p, n) is Ok,
    ensures
        ({
            let sigs = parse_signatures(s, p, n)->Ok_0.0;
            &&& sigs.len() == n
            &&& forall|i: int| 0 <= i < sigs.len() ==> signature_encodable(#[trigger] sigs[i])
        }),
    decreases n,
{
    if n > 0 {
        lemma_signature_fits(s, p);
        let q = parse_signature(s, p)->Ok_0.1;
        lemma_signatures_fit(s, q, (n - 1) as nat);
    }
}

/// A decoded export has a name of at most 255 bytes and an index that fits.
pub proof fn lemma_export_fits(s: Seq<u8>, p: int)
    requires
        0 <= p,
        parse_export(s, p) is Ok,
    ensures
        export_encodable(parse_export(s, p)->Ok_0.0),
{
    let q = p + 1 + s[p];
    decode_utf8_encode_utf8(s.subrange(p + 1, q));
}

/// Decoding `n` exports yields `n` of them, each of which fits.
pub proof fn lemma_exports_fit(s: Seq<u8>, p: int, n: nat)
    requires
        0 <= p,
        parse_exports(s, p, n) is Ok,
    ensures
        ({
            let es = parse_exports(s, p, n)->Ok_0.0;
            &&& es.len() == n
            &&& forall|i: int| 0 <= i < es.len() ==> export_encodable(#[trigger] es[i])
        }),
    decreases n,
{
    if n > 0 {
        lemma_export_fits(s, p);
        let q = parse_export(s, p)->Ok_0.1;
        lemma_exports_fit(s, q, (n - 1) as nat);
    }
}

/// Every decoded `LocalGet` has an index that fits.
pub proof fn lemma_instrs_fit(s: Seq<u8>, p: int)
    requires
        parse_instrs(s, p) is Ok,
    ensures
        ({
            let is = parse_instrs(s, p)->Ok_0.0;
            forall|i: int| 0 <= i < is.len() ==> instr_encodable(#[trigger] is[i])
        }),
    decreases s.len() - p,
{
    if s[p] == crate::op_codes::END {
    } else if s[p] == crate::op_codes::LOCAL_GET {
        lemma_instrs_fit(s, p + 2);
    } else {
        lemma_instrs_fit(s, p + 1);
    }
}

/// A decoded body has at most 255 locals and instructions that fit.
pub proof fn lemma_body_fits(s: Seq<u8>, p: int)
    requires
        parse_body(s, p) is Ok,
    ensures
        ({
            let body = parse_body(s, p)->Ok_0.0;
            &&& fits_byte(body.locals.len() as int)
            &&& forall|i: int|
                0 <= i < body.instrs.len() ==> instr_encodable(#[trigger] body.instrs[i])
        }),
{
    lemma_value_types_count(s, p + 2, s[p + 1] as nat);
    let q = parse_counted_value_types(s, p + 1)->Ok_0.1;
    lemma_instrs_fit(s, q);
}

/// Decoding `n` bodies yields `n` of them, each of which fits.
pub proof fn lemma_bodies_fit(s: Seq<u8>, p: int, n: nat)
    requires
        parse_bodies(s, p, n) is Ok,
    ensures
        ({
            let bs = parse_bodies(s, p, n)->Ok_0.0;
            &&& bs.len() == n
            &&& forall|i: int|
                0 <= i < bs.len() ==> fits_byte((#[trigger] bs[i]).locals.len() as int)
            &&& forall|i: int, k: int|
                0 <= i < bs.len() && 0 <= k < bs[i].instrs.len() ==> instr_encodable(
                    #[trigger] bs[i].instrs[k],
                )
        }),
    decreases n,
{
    if n > 0 {
        lemma_body_fits(s, p);
        let q = parse_body(s, p)->Ok_0.1;
        lemma_bodies_fit(s, q, (n - 1) as nat);
    }
}

/// A decoded module fits the format.
pub proof fn lemma_module_fits(s: Seq<u8>, p: int)
    requires
        0 <= p,
        parse_module(s, p) is Ok,
    ensures
        module_encodable(parse_module(s, p)->Ok_0.0),
{
    let m = parse_module(s, p)->Ok_0.0;
    let p0 = p + 8;
    let n0 = parse_section_start(s, p0, section::TYPE)->Ok_0.0;
    lemma_signatures_fit(s, p0 + 3, n0 as nat);
    let p1 = parse_type_section(s, p0)->Ok_0.1;
    let indices = parse_func_section(s, p1)->Ok_0.0;
    let p2 = parse_func_section(s, p1)->Ok_0.1;
    let n2 = parse_section_start(s, p2, section::EXPORT)->Ok_0.0;
    crate::laws::prefix::lemma_type_section_prefix(s, s, p0);
    crate::laws::prefix::lemma_func_section_prefix(s, s, p1);
    lemma_exports_fit(s, p2 + 3, n2 as nat);
    let p3 = parse_export_section(s, p2)->Ok_0.1;
    let n3 = parse_section_start(s, p3, section::CODE)->Ok_0.0;
    lemma_bodies_fit(s, p3 + 3, n3 as nat);
    let bodies = parse_code_section(s, p3)->Ok_0.0;
    assert forall|i: int| 0 <= i < m.funcs.len() implies func_encodable(#[trigger] m.funcs[i]) by {
        assert(m.funcs[i].locals == bodies[i].locals);
        assert(m.funcs[i].body == bodies[i].instrs);
        assert(m.funcs[i].f_type == indices[i]);
        assert forall|k: int| 0 <= k < m.funcs[i].body.len() implies instr_encodable(
            #[trigger] m.funcs[i].body[k],
        ) by {
            assert(instr_encodable(bodies[i].instrs[k]));
        }
    }
}

} // verus!
