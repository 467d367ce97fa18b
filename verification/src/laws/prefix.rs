//! Decoding reads forwards and never beyond where it ends: a successful parse
//! ends inside the buffer, at or behind its start, and any other buffer with
//! the same bytes up to that end decodes to the same value.

use crate::layout::{
    parse_bodies, parse_body, parse_code_section, parse_counted_value_types, parse_export,
    parse_export_section, parse_exports, parse_func_section, parse_header, parse_instrs,
    parse_section_start, parse_signature, parse_signatures, parse_type_section,
    parse_value_types, type_indices_at,
};
use crate::op_codes::section;
use vstd::prelude::*;

verus! {

/// The buffers `a` and `b` hold the same first `n` bytes.
pub open spec fn agree_upto(a: Seq<u8>, b: Seq<u8>, n: int) -> bool {
    &&& n <= a.len()
    &&& n <= b.len()
    &&& forall|i: int| 0 <= i < n ==> a[i] == b[i]
}

/// The header is read from the eight bytes at `p`.
pub proof fn lemma_header_prefix(a: Seq<u8>, b: Seq<u8>, p: int)
    requires
        0 <= p,
        parse_header(a, p) is Ok,
    ensures
        parse_header(a, p) matches Ok((_, end)) && end == p + 8 && end <= a.len() && (agree_upto(
            a,
            b,
            end,
        ) ==> parse_header(b, p) == parse_header(a, p)),
{
}

/// The start of a section is read from the three bytes at `p`, the first of
/// which is the tag.
pub proof fn lemma_section_start_prefix(a: Seq<u8>, b: Seq<u8>, p: int, tag: u8)
    requires
        0 <= p,
        parse_section_start(a, p, tag) is Ok,
    ensures
        parse_section_start(a, p, tag) matches Ok((_, end)) && end == p + 3 && end <= a.len()
            && a[p] == tag && (agree_upto(a, b, end) ==> parse_section_start(b, p, tag)
            == parse_section_start(a, p, tag)),
{
}

/// `n` value types are read from the bytes between `p` and where they end.
pub proof fn lemma_value_types_prefix(a: Seq<u8>, b: Seq<u8>, p: int, n: nat)
    requires
        0 <= p <= a.len(),
        parse_value_types(a, p, n) is Ok,
    ensures
        parse_value_types(a, p, n) matches Ok((_, end)) && p <= end <= a.len() && (agree_upto(
            a,
            b,
            end,
        ) ==> parse_value_types(b, p, n) == parse_value_types(a, p, n)),
    decreases n,
{
    if n > 0 {
        lemma_value_types_prefix(a, b, p + 1, (n - 1) as nat);
    }
}

/// A counted list of value types is read from the bytes between `p` and
/// where it ends, of which there is at least one.
pub proof fn lemma_counted_value_types_prefix(a: Seq<u8>, b: Seq<u8>, p: int)
    requires
        0 <= p,
        parse_counted_value_types(a, p) is Ok,
    ensures
        parse_counted_value_types(a, p) matches Ok((_, end)) && p < end <= a.len() && (agree_upto(
            a,
            b,
            end,
        ) ==> parse_counted_value_types(b, p) == parse_counted_value_types(a, p)),
{
    lemma_value_types_prefix(a, b, p + 1, a[p] as nat);
}

/// A signature is read from the bytes between `p` and where it ends.
pub proof fn lemma_signature_prefix(a: Seq<u8>, b: Seq<u8>, p: int)
    requires
        0 <= p,
        parse_signature(a, p) is Ok,
    ensures
        parse_signature(a, p) matches Ok((_, end)) && p < end <= a.len() && (agree_upto(a, b, end)
            ==> parse_signature(b, p) == parse_signature(a, p)),
{
    lemma_counted_value_types_prefix(a, b, p + 1);
    let q = parse_counted_value_types(a, p + 1)->Ok_0.1;
    lemma_counted_value_types_prefix(a, b, q);
}

/// `n` signatures are read from the bytes between `p` and where they end.
pub proof fn lemma_signatures_prefix(a: Seq<u8>, b: Seq<u8>, p: int, n: nat)
    requires
        0 <= p <= a.len(),
        parse_signatures(a, p, n) is Ok,
    ensures
        parse_signatures(a, p, n) matches Ok((_, end)) && p <= end <= a.len() && (agree_upto(
            a,
            b,
            end,
        ) ==> parse_signatures(b, p, n) == parse_signatures(a, p, n)),
    decreases n,
{
    if n > 0 {
        lemma_signature_prefix(a, b, p);
        let q = parse_signature(a, p)->Ok_0.1;
        lemma_signatures_prefix(a, b, q, (n - 1) as nat);
    }
}

/// A type section starts with its tag and is read from the bytes between `p`
/// and where it ends.
pub proof fn lemma_type_section_prefix(a: Seq<u8>, b: Seq<u8>, p: int)
    requires
        0 <= p,
        parse_type_section(a, p) is Ok,
    ensures
        parse_type_section(a, p) matches Ok((_, end)) && p < end <= a.len() && a[p]
            == section::TYPE && (agree_upto(a, b, end) ==> parse_type_section(b, p)
            == parse_type_section(a, p)),
{
    lemma_section_start_prefix(a, b, p, section::TYPE);
    let n = parse_section_start(a, p, section::TYPE)->Ok_0.0;
    lemma_signatures_prefix(a, b, p + 3, n as nat);
}

/// A function section starts with its tag and is read from the bytes between
/// `p` and where it ends.
pub proof fn lemma_func_section_prefix(a: Seq<u8>, b: Seq<u8>, p: int)
    requires
        0 <= p,
        parse_func_section(a, p) is Ok,
    ensures
        parse_func_section(a, p) matches Ok((_, end)) && p < end <= a.len() && a[p]
            == section::FUNC && (agree_upto(a, b, end) ==> parse_func_section(b, p)
            == parse_func_section(a, p)),
{
    lemma_section_start_prefix(a, b, p, section::FUNC);
    let n = parse_section_start(a, p, section::FUNC)->Ok_0.0;
    if agree_upto(a, b, p + 3 + n) {
        assert(type_indices_at(a, p + 3, n as nat) =~= type_indices_at(b, p + 3, n as nat));
    }
}

/// An export is read from the bytes between `p` and where it ends.
pub proof fn lemma_export_prefix(a: Seq<u8>, b: Seq<u8>, p: int)
    requires
        0 <= p,
        parse_export(a, p) is Ok,
    ensures
        parse_export(a, p) matches Ok((_, end)) && p < end <= a.len() && (agree_upto(a, b, end)
            ==> parse_export(b, p) == parse_export(a, p)),
{
    let q = p + 1 + a[p];
    if agree_upto(a, b, q + 3) {
        assert(a.subrange(p + 1, q) =~= b.subrange(p + 1, q));
    }
}

/// `n` exports are read from the bytes between `p` and where they end.
pub proof fn lemma_exports_prefix(a: Seq<u8>, b: Seq<u8>, p: int, n: nat)
    requires
        0 <= p <= a.len(),
        parse_exports(a, p, n) is Ok,
    ensures
        parse_exports(a, p, n) matches Ok((_, end)) && p <= end <= a.len() && (agree_upto(
            a,
            b,
            end,
        ) ==> parse_exports(b, p, n) == parse_exports(a, p, n)),
    decreases n,
{
    if n > 0 {
        lemma_export_prefix(a, b, p);
        let q = parse_export(a, p)->Ok_0.1;
        lemma_exports_prefix(a, b, q, (n - 1) as nat);
    }
}

/// An export section starts with its tag and is read from the bytes between
/// `p` and where it ends.
pub proof fn lemma_export_section_prefix(a: Seq<u8>, b: Seq<u8>, p: int)
    requires
        0 <= p,
        parse_export_section(a, p) is Ok,
    ensures
        parse_export_section(a, p) matches Ok((_, end)) && p < end <= a.len() && a[p]
            == section::EXPORT && (agree_upto(a, b, end) ==> parse_export_section(b, p)
            == parse_export_section(a, p)),
{
    lemma_section_start_prefix(a, b, p, section::EXPORT);
    let n = parse_section_start(a, p, section::EXPORT)->Ok_0.0;
    lemma_exports_prefix(a, b, p + 3, n as nat);
}

/// An instruction stream is read from the bytes between `p` and its end
/// marker.
pub proof fn lemma_instrs_prefix(a: Seq<u8>, b: Seq<u8>, p: int)
    requires
        0 <= p,
        parse_instrs(a, p) is Ok,
    ensures
        parse_instrs(a, p) matches Ok((_, end)) && p < end <= a.len() && (agree_upto(a, b, end)
            ==> parse_instrs(b, p) == parse_instrs(a, p)),
    decreases a.len() - p,
{
    if a[p] == crate::op_codes::END {
    } else if a[p] == crate::op_codes::LOCAL_GET {
        lemma_instrs_prefix(a, b, p + 2);
    } else {
        lemma_instrs_prefix(a, b, p + 1);
    }
}

/// A function body is read from the bytes between `p` and where it ends.
pub proof fn lemma_body_prefix(a: Seq<u8>, b: Seq<u8>, p: int)
    requires
        0 <= p,
        parse_body(a, p) is Ok,
    ensures
        parse_body(a, p) matches Ok((_, end)) && p < end <= a.len() && (agree_upto(a, b, end)
            ==> parse_body(b, p) == parse_body(a, p)),
{
    lemma_counted_value_types_prefix(a, b, p + 1);
    let q = parse_counted_value_types(a, p + 1)->Ok_0.1;
    lemma_instrs_prefix(a, b, q);
}

/// `n` function bodies are read from the bytes between `p` and where they
/// end.
pub proof fn lemma_bodies_prefix(a: Seq<u8>, b: Seq<u8>, p: int, n: nat)
    requires
        0 <= p <= a.len(),
        parse_bodies(a, p, n) is Ok,
    ensures
        parse_bodies(a, p, n) matches Ok((_, end)) && p <= end <= a.len() && (agree_upto(a, b, end)
            ==> parse_bodies(b, p, n) == parse_bodies(a, p, n)),
    decreases n,
{
    if n > 0 {
        lemma_body_prefix(a, b, p);
        let q = parse_body(a, p)->Ok_0.1;
        lemma_bodies_prefix(a, b, q, (n - 1) as nat);
    }
}

/// A code section starts with its tag and is read from the bytes between `p`
/// and where it ends.
pub proof fn lemma_code_section_prefix(a: Seq<u8>, b: Seq<u8>, p: int)
    requires
        0 <= p,
        parse_code_section(a, p) is Ok,
    ensures
        parse_code_section(a, p) matches Ok((_, end)) && p < end <= a.len() && a[p]
            == section::CODE && (agree_upto(a, b, end) ==> parse_code_section(b, p)
            == parse_code_section(a, p)),
{
    lemma_section_start_prefix(a, b, p, section::CODE);
    let n = parse_section_start(a, p, section::CODE)->Ok_0.0;
    lemma_bodies_prefix(a, b, p + 3, n as nat);
}

} // verus!
