//! What holds of the format as a whole: the decoder undoes the encoder, a
//! damaged header is rejected, sections cannot change places, and an unknown
//! instruction tag fails decoding.
//!
//! The laws are stated over `encode_module` and `parse_module`, the functions
//! by which `compile` and `parse_binary` state what they return.

use crate::ast::{BodyView, FuncView, Instr, ModuleView, ValueType};
use crate::laws::encoded::{
    encode_front, holds_at, lemma_bodies_then, lemma_counted_value_types, lemma_front,
    lemma_holds_at_index, lemma_holds_at_middle, lemma_holds_at_self, lemma_holds_at_split,
    lemma_instrs_then, lemma_module,
};
use crate::laws::prefix::{
    agree_upto, lemma_code_section_prefix, lemma_export_section_prefix,
    lemma_func_section_prefix, lemma_type_section_prefix,
};
use crate::layout::{
    encode_bodies, encode_body, encode_body_payload, encode_counted_value_types, encode_instr,
    encode_header, encode_instrs, encode_module, fits_byte, func_encodable, instr_encodable,
    low_byte, module_encodable, parse_bodies, parse_body, parse_code_section, parse_export_section,
    parse_func_section, parse_instrs, parse_module, parse_type_section,
};
use crate::op_codes::section;
use crate::op_codes::{END, I32_ADD, LOCAL_GET};
use crate::runtime::error::RuntimeError;
use vstd::prelude::*;

pub mod decoded;
pub mod encoded;
pub mod prefix;

verus! {

// ---------------------------------------------------------------------------
// Round trip
// ---------------------------------------------------------------------------

/// Decoding the encoding of a module gives the module back, whatever the
/// module holds, as long as the format has room for it; and decoding reads the
/// encoding to its last byte.
pub proof fn lemma_round_trip(m: ModuleView)
    requires
        module_encodable(m),
    ensures
        parse_module(encode_module(m), 0) == Ok::<(ModuleView, int), RuntimeError>(
            (m, encode_module(m).len() as int),
        ),
{
    lemma_holds_at_self(encode_module(m));
    lemma_module(encode_module(m), 0, m);
}

/// The same holds where the encoding stands inside a longer buffer: bytes
/// before and behind it do not disturb decoding.
pub proof fn lemma_round_trip_embedded(before: Seq<u8>, m: ModuleView, behind: Seq<u8>)
    requires
        module_encodable(m),
    ensures
        parse_module(before + encode_module(m) + behind, before.len() as int) == Ok::<
            (ModuleView, int),
            RuntimeError,
        >((m, (before.len() + encode_module(m).len()) as int)),
{
    let s = before + encode_module(m) + behind;
    assert(s.subrange(before.len() as int, (before.len() + encode_module(m).len()) as int)
        =~= encode_module(m));
    lemma_module(s, before.len() as int, m);
}

/// Whatever the decoder accepts, the encoder can write again, and decoding
/// that gives the same module: the bytes that decoding skipped are all that
/// may differ between the two buffers.
pub proof fn lemma_decoded_round_trip(s: Seq<u8>, p: int)
    requires
        0 <= p,
        parse_module(s, p) is Ok,
    ensures
        ({
            let m = parse_module(s, p)->Ok_0.0;
            &&& module_encodable(m)
            &&& parse_module(encode_module(m), 0) == Ok::<(ModuleView, int), RuntimeError>(
                (m, encode_module(m).len() as int),
            )
        }),
{
    crate::laws::decoded::lemma_module_fits(s, p);
    lemma_round_trip(parse_module(s, p)->Ok_0.0);
}

// ---------------------------------------------------------------------------
// Header
// ---------------------------------------------------------------------------

/// A buffer of fewer than eight bytes is too short to be a module.
pub proof fn lemma_short_buffer_rejected(s: Seq<u8>)
    requires
        s.len() < 8,
    ensures
        parse_module(s, 0) == Err::<(ModuleView, int), RuntimeError>(
            RuntimeError::ModuleTooShort,
        ),
{
}

/// A buffer of eight bytes or more in which one of the first four bytes is not
/// the magic's byte at that place is rejected for its magic.
pub proof fn lemma_wrong_magic_rejected(s: Seq<u8>, i: int)
    requires
        s.len() >= 8,
        0 <= i < 4,
        s[i] != encode_header()[i],
    ensures
        parse_module(s, 0) == Err::<(ModuleView, int), RuntimeError>(
            RuntimeError::WrongMagicHeader,
        ),
{
}

/// A buffer of eight bytes or more that starts with the magic and in which
/// one byte of the version field is not the byte of version 1 at that place is
/// rejected for its version: the field then spells another number.
pub proof fn lemma_wrong_version_rejected(s: Seq<u8>, i: int)
    requires
        s.len() >= 8,
        forall|k: int| 0 <= k < 4 ==> s[k] == encode_header()[k],
        4 <= i < 8,
        s[i] != encode_header()[i],
    ensures
        parse_module(s, 0) == Err::<(ModuleView, int), RuntimeError>(
            RuntimeError::WrongVersionHeader,
        ),
{
    assert(s[0] == encode_header()[0]);
    assert(s[1] == encode_header()[1]);
    assert(s[2] == encode_header()[2]);
    assert(s[3] == encode_header()[3]);
}

/// Altering one of the first four bytes of a buffer that decodes gives a
/// buffer that is rejected for its magic.
pub proof fn lemma_altered_magic_rejected(s: Seq<u8>, i: int, v: u8)
    requires
        parse_module(s, 0) is Ok,
        0 <= i < 4,
        v != s[i],
    ensures
        parse_module(s.update(i, v), 0) == Err::<(ModuleView, int), RuntimeError>(
            RuntimeError::WrongMagicHeader,
        ),
{
    lemma_wrong_magic_rejected(s.update(i, v), i);
}

/// Altering one byte of the version field of a buffer that decodes gives a
/// buffer that is rejected for its version.
pub proof fn lemma_altered_version_rejected(s: Seq<u8>, i: int, v: u8)
    requires
        parse_module(s, 0) is Ok,
        4 <= i < 8,
        v != s[i],
    ensures
        parse_module(s.update(i, v), 0) == Err::<(ModuleView, int), RuntimeError>(
            RuntimeError::WrongVersionHeader,
        ),
{
    lemma_wrong_version_rejected(s.update(i, v), i);
}

// ---------------------------------------------------------------------------
// Section order
// ---------------------------------------------------------------------------

/// The offsets at which the four sections of a module at offset 0 start,
/// followed by the offset at which the last one ends.
pub open spec fn section_offsets(s: Seq<u8>) -> Seq<int> {
    let p0: int = 8;
    let p1 = parse_type_section(s, p0)->Ok_0.1;
    let p2 = parse_func_section(s, p1)->Ok_0.1;
    let p3 = parse_export_section(s, p2)->Ok_0.1;
    let p4 = parse_code_section(s, p3)->Ok_0.1;
    seq![p0, p1, p2, p3, p4]
}

/// The buffer `s` with its sections `i` and `j` in each other's place, where
/// `i` comes before `j`. Everything else stays where it is.
pub open spec fn swap_sections(s: Seq<u8>, i: int, j: int) -> Seq<u8> {
    let at = section_offsets(s);
    s.subrange(0, at[i]) + s.subrange(at[j], at[j + 1]) + s.subrange(at[i + 1], at[j])
        + s.subrange(at[i], at[i + 1]) + s.subrange(at[j + 1], s.len() as int)
}

/// The sections of a module follow one another without gaps, each is at least
/// three bytes long, and each starts with its own tag.
pub proof fn lemma_section_offsets(s: Seq<u8>)
    requires
        parse_module(s, 0) is Ok,
    ensures
        ({
            let at = section_offsets(s);
            &&& at[0] == 8
            &&& at[0] < at[1] < at[2] < at[3] < at[4] <= s.len()
            &&& s[at[0]] == section::TYPE
            &&& s[at[1]] == section::FUNC
            &&& s[at[2]] == section::EXPORT
            &&& s[at[3]] == section::CODE
            &&& parse_module(s, 0)->Ok_0.1 == at[4]
        }),
{
    let at = section_offsets(s);
    lemma_type_section_prefix(s, s, at[0]);
    lemma_func_section_prefix(s, s, at[1]);
    lemma_export_section_prefix(s, s, at[2]);
    lemma_code_section_prefix(s, s, at[3]);
}

/// The buffer made of `s` by letting the stretches `a..b` and `c..d` change
/// places is as long as `s`, holds the bytes of `s` up to `a`, and holds at `a`
/// what `s` holds at `c`.
proof fn lemma_swap_shape(s: Seq<u8>, a: int, b: int, c: int, d: int)
    requires
        0 <= a < b <= c < d <= s.len(),
    ensures
        ({
            let t = s.subrange(0, a) + s.subrange(c, d) + s.subrange(b, c) + s.subrange(a, b)
                + s.subrange(d, s.len() as int);
            &&& t.len() == s.len()
            &&& agree_upto(s, t, a)
            &&& t[a] == s[c]
        }),
{
}

/// A buffer that holds what a module holds up to the start of one of the
/// first three sections, and another section's tag there, is rejected for
/// that tag.
proof fn lemma_section_out_of_place(s: Seq<u8>, t: Seq<u8>, i: int)
    requires
        parse_module(s, 0) is Ok,
        0 <= i < 3,
        agree_upto(s, t, section_offsets(s)[i]),
        section_offsets(s)[i] < t.len(),
        t[section_offsets(s)[i]] != s[section_offsets(s)[i]],
    ensures
        parse_module(t, 0) == Err::<(ModuleView, int), RuntimeError>(
            RuntimeError::InvalidSectionCode,
        ),
{
    let at = section_offsets(s);
    lemma_section_offsets(s);
    crate::laws::prefix::lemma_header_prefix(s, t, 0);
    if i >= 1 {
        lemma_type_section_prefix(s, t, at[0]);
    }
    if i >= 2 {
        lemma_func_section_prefix(s, t, at[1]);
    }
}

/// Swapping two sections of a buffer that decodes gives a buffer that does
/// not: decoding stops with `InvalidSectionCode` at the first section that is
/// out of place.
pub proof fn lemma_swapped_sections_rejected(s: Seq<u8>, i: int, j: int)
    requires
        parse_module(s, 0) is Ok,
        0 <= i < j < 4,
    ensures
        parse_module(swap_sections(s, i, j), 0) == Err::<(ModuleView, int), RuntimeError>(
            RuntimeError::InvalidSectionCode,
        ),
{
    let at = section_offsets(s);
    lemma_section_offsets(s);
    lemma_swap_shape(s, at[i], at[i + 1], at[j], at[j + 1]);
    lemma_section_out_of_place(s, swap_sections(s, i, j), i);
}

// ---------------------------------------------------------------------------
// Unknown instructions
// ---------------------------------------------------------------------------

/// The three bytes that can stand where an instruction starts.
pub open spec fn known_tag(t: u8) -> bool {
    t == LOCAL_GET || t == I32_ADD || t == END
}

/// An instruction stream in which, behind any number of well-formed
/// instructions, a byte stands that is no tag, fails with
/// `InvalidInstruction`.
pub proof fn lemma_unknown_instruction_rejected(s: Seq<u8>, p: int, is: Seq<Instr>, t: u8)
    requires
        forall|i: int| 0 <= i < is.len() ==> instr_encodable(#[trigger] is[i]),
        holds_at(s, p, encode_instrs(is) + seq![t]),
        !known_tag(t),
    ensures
        parse_instrs(s, p) == Err::<(Seq<Instr>, int), RuntimeError>(
            RuntimeError::InvalidInstruction,
        ),
{
    let tag = seq![t];
    lemma_holds_at_split(s, p, encode_instrs(is), tag);
    let q: int = p + encode_instrs(is).len();
    lemma_holds_at_index(s, q, tag, 0);
    lemma_instrs_then(s, p, is);
}

/// The bytes of a code section of `count` entries up to an instruction of
/// the entry that follows the entries `done`: the section's first three bytes,
/// the encoded entries, and of the next entry the size byte, the locals and
/// the instructions `is`.
pub open spec fn code_before_instr(
    size: u8,
    count: u8,
    done: Seq<FuncView>,
    body_size: u8,
    locals: Seq<ValueType>,
    is: Seq<Instr>,
) -> Seq<u8> {
    seq![section::CODE, size, count] + encode_bodies(done) + seq![body_size]
        + encode_counted_value_types(locals) + encode_instrs(is)
}

/// A code section in which a byte that is no tag stands where an instruction
/// starts fails with `InvalidInstruction`, whichever entry it stands in and
/// whatever the size bytes say.
pub proof fn lemma_unknown_instruction_in_code_section(
    s: Seq<u8>,
    p: int,
    size: u8,
    count: u8,
    done: Seq<FuncView>,
    body_size: u8,
    locals: Seq<ValueType>,
    is: Seq<Instr>,
    t: u8,
)
    requires
        done.len() < count,
        forall|i: int| 0 <= i < done.len() ==> func_encodable(#[trigger] done[i]),
        fits_byte(locals.len() as int),
        forall|i: int| 0 <= i < is.len() ==> instr_encodable(#[trigger] is[i]),
        holds_at(s, p, code_before_instr(size, count, done, body_size, locals, is) + seq![t]),
        !known_tag(t),
    ensures
        parse_code_section(s, p) == Err::<(Seq<BodyView>, int), RuntimeError>(
            RuntimeError::InvalidInstruction,
        ),
{
    let start = seq![section::CODE, size, count];
    let bodies = encode_bodies(done);
    let body_start = seq![body_size];
    let types = encode_counted_value_types(locals);
    let instrs = encode_instrs(is);
    let tag = seq![t];
    assert(code_before_instr(size, count, done, body_size, locals, is) + tag =~= start + (bodies
        + (body_start + (types + (instrs + tag)))));
    lemma_holds_at_split(s, p, start, bodies + (body_start + (types + (instrs + tag))));
    lemma_holds_at_index(s, p, start, 0);
    lemma_holds_at_index(s, p, start, 2);
    let p1: int = p + 3;
    lemma_holds_at_split(s, p1, bodies, body_start + (types + (instrs + tag)));
    let q: int = p1 + bodies.len();
    lemma_holds_at_split(s, q, body_start, types + (instrs + tag));
    lemma_holds_at_split(s, q + 1, types, instrs + tag);
    let more = (count - done.len()) as nat;
    lemma_bodies_then(s, p1, done, more);
    lemma_counted_value_types(s, q + 1, locals);
    lemma_unknown_instruction_rejected(s, q + 1 + types.len(), is, t);
    assert(parse_body(s, q) == Err::<(BodyView, int), RuntimeError>(
        RuntimeError::InvalidInstruction,
    ));
    assert(parse_bodies(s, q, more) == Err::<(Seq<BodyView>, int), RuntimeError>(
        RuntimeError::InvalidInstruction,
    ));
}

/// The encoding of `m` up to, and without, instruction `j` of function `k`.
pub open spec fn encoding_before_instr(m: ModuleView, k: int, j: int) -> Seq<u8> {
    encode_front(m) + code_before_instr(
        low_byte(1 + encode_bodies(m.funcs).len() as int),
        low_byte(m.funcs.len() as int),
        m.funcs.take(k),
        low_byte(encode_body_payload(m.funcs[k]).len() as int),
        m.funcs[k].locals,
        m.funcs[k].body.take(j),
    )
}

/// The encoding of a list of instructions is the encoding of its front
/// followed by the encoding of its back.
proof fn lemma_encode_instrs_concat(a: Seq<Instr>, b: Seq<Instr>)
    ensures
        encode_instrs(a + b) == encode_instrs(a) + encode_instrs(b),
    decreases b.len(),
{
    if b.len() == 0 {
        assert(a + b =~= a);
        assert(crate::layout::instr_encodings(b) =~= Seq::<Seq<u8>>::empty());
        assert(encode_instrs(a) + encode_instrs(b) =~= encode_instrs(a));
    } else {
        let front = b.drop_last();
        lemma_encode_instrs_concat(a, front);
        assert(a + b =~= (a + front).push(b.last()));
        assert(b =~= front.push(b.last()));
        crate::layout::lemma_encode_instrs_push(a + front, b.last());
        crate::layout::lemma_encode_instrs_push(front, b.last());
        assert(encode_instrs(a) + encode_instrs(front) + encode_instr(b.last()) =~= encode_instrs(
            a,
        ) + (encode_instrs(front) + encode_instr(b.last())));
    }
}

/// The encoding of a list of bodies is the encoding of its front followed by
/// the encoding of its back.
proof fn lemma_encode_bodies_concat(a: Seq<FuncView>, b: Seq<FuncView>)
    ensures
        encode_bodies(a + b) == encode_bodies(a) + encode_bodies(b),
    decreases b.len(),
{
    if b.len() == 0 {
        assert(a + b =~= a);
        assert(crate::layout::body_encodings(b) =~= Seq::<Seq<u8>>::empty());
        assert(encode_bodies(a) + encode_bodies(b) =~= encode_bodies(a));
    } else {
        let front = b.drop_last();
        lemma_encode_bodies_concat(a, front);
        assert(a + b =~= (a + front).push(b.last()));
        assert(b =~= front.push(b.last()));
        crate::layout::lemma_encode_bodies_push(a + front, b.last());
        crate::layout::lemma_encode_bodies_push(front, b.last());
        assert(encode_bodies(a) + encode_bodies(front) + encode_body(b.last()) =~= encode_bodies(
            a,
        ) + (encode_bodies(front) + encode_body(b.last())));
    }
}

/// `encoding_before_instr` is what its name says: the encoding of the module
/// starts with it, and goes on with the instructions from `j` on, the end
/// marker and the bodies of the functions behind `k`.
pub proof fn lemma_encoding_before_instr(m: ModuleView, k: int, j: int)
    requires
        module_encodable(m),
        0 <= k < m.funcs.len(),
        0 <= j <= m.funcs[k].body.len(),
    ensures
        encode_module(m) == encoding_before_instr(m, k, j) + encode_instrs(
            m.funcs[k].body.skip(j),
        ) + seq![END] + encode_bodies(m.funcs.skip(k + 1)),
{
    let f = m.funcs[k];
    let done = m.funcs.take(k);
    let rest = m.funcs.skip(k + 1);
    let front = f.body.take(j);
    let back = f.body.skip(j);
    assert(m.funcs =~= done + (seq![f] + rest));
    lemma_encode_bodies_concat(done, seq![f] + rest);
    lemma_encode_bodies_concat(seq![f], rest);
    assert(encode_bodies(seq![f]) == encode_body(f)) by {
        assert(seq![f] =~= Seq::<FuncView>::empty().push(f));
        crate::layout::lemma_encode_bodies_push(Seq::<FuncView>::empty(), f);
        assert(crate::layout::body_encodings(Seq::<FuncView>::empty()) =~= Seq::<
            Seq<u8>,
        >::empty());
        assert(encode_bodies(Seq::<FuncView>::empty()) + encode_body(f) =~= encode_body(f));
    }
    assert(f.body =~= front + back);
    lemma_encode_instrs_concat(front, back);
    assert(fits_byte(m.funcs.len() as int));
    lemma_regroup(
        encode_front(m),
        seq![
            section::CODE,
            low_byte(1 + encode_bodies(m.funcs).len() as int),
            low_byte(m.funcs.len() as int),
        ],
        encode_bodies(done),
        seq![low_byte(encode_body_payload(f).len() as int)],
        encode_counted_value_types(f.locals),
        encode_instrs(front),
        encode_instrs(back),
        seq![END],
        encode_bodies(rest),
    );
}

/// Nine pieces in a row are the same bytes however they are grouped.
proof fn lemma_regroup(
    a: Seq<u8>,
    b: Seq<u8>,
    c: Seq<u8>,
    d: Seq<u8>,
    e: Seq<u8>,
    f: Seq<u8>,
    g: Seq<u8>,
    h: Seq<u8>,
    i: Seq<u8>,
)
    ensures
        a + (b + (c + ((d + (e + (f + g) + h)) + i))) == a + (b + c + d + e + f) + g + h + i,
{
    assert(a + (b + (c + ((d + (e + (f + g) + h)) + i))) =~= a + (b + c + d + e + f) + g + h + i);
}

/// A buffer that holds the front of a module and, behind it, a code section
/// with a byte that is no tag where an instruction starts, fails decoding
/// with `InvalidInstruction`.
proof fn lemma_unknown_instruction_behind_front(
    s: Seq<u8>,
    m: ModuleView,
    k: int,
    j: int,
    t: u8,
)
    requires
        module_encodable(m),
        0 <= k < m.funcs.len(),
        0 <= j <= m.funcs[k].body.len(),
        !known_tag(t),
        holds_at(s, 0, encode_front(m)),
        holds_at(
            s,
            encode_front(m).len() as int,
            code_before_instr(
                low_byte(1 + encode_bodies(m.funcs).len() as int),
                low_byte(m.funcs.len() as int),
                m.funcs.take(k),
                low_byte(encode_body_payload(m.funcs[k]).len() as int),
                m.funcs[k].locals,
                m.funcs[k].body.take(j),
            ) + seq![t],
        ),
    ensures
        parse_module(s, 0) == Err::<(ModuleView, int), RuntimeError>(
            RuntimeError::InvalidInstruction,
        ),
{
    let f = m.funcs[k];
    let done = m.funcs.take(k);
    let front = f.body.take(j);
    lemma_front(s, 0, m);
    assert(func_encodable(f));
    assert forall|i: int| 0 <= i < done.len() implies func_encodable(#[trigger] done[i]) by {
        assert(done[i] == m.funcs[i]);
    }
    assert forall|i: int| 0 <= i < front.len() implies instr_encodable(#[trigger] front[i]) by {
        assert(front[i] == f.body[i]);
    }
    lemma_unknown_instruction_in_code_section(
        s,
        encode_front(m).len() as int,
        low_byte(1 + encode_bodies(m.funcs).len() as int),
        low_byte(m.funcs.len() as int),
        done,
        low_byte(encode_body_payload(f).len() as int),
        f.locals,
        front,
        t,
    );
}

/// A module in whose code section a byte that is no tag stands where an
/// instruction starts fails decoding with `InvalidInstruction`, wherever in
/// the code section that is and whatever follows.
pub proof fn lemma_unknown_instruction_in_module(
    m: ModuleView,
    k: int,
    j: int,
    t: u8,
    behind: Seq<u8>,
)
    requires
        module_encodable(m),
        0 <= k < m.funcs.len(),
        0 <= j <= m.funcs[k].body.len(),
        !known_tag(t),
    ensures
        parse_module(encoding_before_instr(m, k, j) + seq![t] + behind, 0) == Err::<
            (ModuleView, int),
            RuntimeError,
        >(RuntimeError::InvalidInstruction),
{
    let code = code_before_instr(
        low_byte(1 + encode_bodies(m.funcs).len() as int),
        low_byte(m.funcs.len() as int),
        m.funcs.take(k),
        low_byte(encode_body_payload(m.funcs[k]).len() as int),
        m.funcs[k].locals,
        m.funcs[k].body.take(j),
    );
    lemma_holds_at_middle(encode_front(m), code, seq![t], behind);
    lemma_unknown_instruction_behind_front(
        encoding_before_instr(m, k, j) + seq![t] + behind,
        m,
        k,
        j,
        t,
    );
}

} // verus!
