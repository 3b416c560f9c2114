//! The wire format, the other way round: the bytes that denote a value. No
//! executable code writes them; they say which buffers hold a given chunk,
//! so that reading can be held against them.

use vstd::prelude::*;
use vstd::utf8::encode_utf8;
use crate::binary_chunk::{
    BinaryChunkView, ConstantValueView, ConstantView, Header, LocVarView, PrototypeView, UpValue,
};
use crate::format::{TAG_BOOLEAN, TAG_INTEGER, TAG_NIL, TAG_NUMBER, TAG_STRING};

verus! {

/// The buffer `s` holds the bytes `image` at offset `pos`.
#[verifier::opaque]
pub open spec fn holds_at(s: Seq<u8>, pos: int, image: Seq<u8>) -> bool {
    0 <= pos && pos + image.len() <= s.len() && s.subrange(pos, pos + image.len()) == image
}

/// The four bytes of `v`, least significant first.
#[verifier::opaque]
pub open spec fn encode_u32(v: u32) -> Seq<u8> {
    seq![
        (v % 0x100) as u8,
        (v / 0x100 % 0x100) as u8,
        (v / 0x1_0000 % 0x100) as u8,
        (v / 0x100_0000) as u8,
    ]
}

/// The eight bytes of `v`, least significant first.
#[verifier::opaque]
pub open spec fn encode_u64(v: u64) -> Seq<u8> {
    encode_u32((v % 0x1_0000_0000) as u32) + encode_u32((v / 0x1_0000_0000) as u32)
}

/// The 64-bit two's complement pattern of `v`.
pub open spec fn as_unsigned(v: i64) -> u64 {
    if v >= 0 {
        v as u64
    } else {
        (v + 0x1_0000_0000_0000_0000) as u64
    }
}

/// The bytes of a text: its UTF-8 encoding and a zero byte.
pub open spec fn encode_string(t: Seq<char>) -> Seq<u8> {
    encode_utf8(t) + seq![0u8]
}

/// A text can be written where its UTF-8 encoding holds no zero byte: the
/// zero byte ends it.
pub open spec fn encodable_text(t: Seq<char>) -> bool {
    forall|i: int| 0 <= i < encode_utf8(t).len() ==> encode_utf8(t)[i] != 0
}

/// The pieces, one behind the other.
pub open spec fn concat(pieces: Seq<Seq<u8>>) -> Seq<u8>
    decreases pieces.len(),
{
    if pieces.len() == 0 {
        Seq::empty()
    } else {
        concat(pieces.drop_last()) + pieces.last()
    }
}

/// A counted list: the number of pieces in 32 bits, then the pieces.
pub open spec fn encode_counted(pieces: Seq<Seq<u8>>) -> Seq<u8> {
    encode_u32(pieces.len() as u32) + concat(pieces)
}

/// The bytes of each word.
pub open spec fn word_pieces(words: Seq<u32>) -> Seq<Seq<u8>> {
    Seq::new(words.len(), |i: int| encode_u32(words[i]))
}

/// The bytes of each text.
pub open spec fn text_pieces(texts: Seq<Seq<char>>) -> Seq<Seq<u8>> {
    Seq::new(texts.len(), |i: int| encode_string(texts[i]))
}

/// The bytes of a constant: its tag, then its payload.
pub open spec fn encode_constant(c: ConstantView) -> Seq<u8> {
    seq![c.tag] + match c.value {
        ConstantValueView::Nil => Seq::empty(),
        ConstantValueView::Boolean(b) => seq![if b { 1u8 } else { 0u8 }],
        ConstantValueView::Integer(i) => encode_u64(as_unsigned(i)),
        ConstantValueView::Number(bits) => encode_u64(bits),
        ConstantValueView::Str(t) => encode_string(t),
    }
}

/// A constant can be written where its tag is the one of its kind, and its
/// text, if it is one, can be written.
pub open spec fn encodable_constant(c: ConstantView) -> bool {
    match c.value {
        ConstantValueView::Nil => c.tag == TAG_NIL,
        ConstantValueView::Boolean(_) => c.tag == TAG_BOOLEAN,
        ConstantValueView::Integer(_) => c.tag == TAG_INTEGER,
        ConstantValueView::Number(_) => c.tag == TAG_NUMBER,
        ConstantValueView::Str(t) => c.tag == TAG_STRING && encodable_text(t),
    }
}

/// The bytes of each constant.
pub open spec fn constant_pieces(constants: Seq<ConstantView>) -> Seq<Seq<u8>> {
    Seq::new(constants.len(), |i: int| encode_constant(constants[i]))
}

/// The two bytes of a captured-variable descriptor.
pub open spec fn encode_up_value(u: UpValue) -> Seq<u8> {
    seq![u.instack, u.idx]
}

/// The bytes of each captured-variable descriptor.
pub open spec fn up_value_pieces(up_values: Seq<UpValue>) -> Seq<Seq<u8>> {
    Seq::new(up_values.len(), |i: int| encode_up_value(up_values[i]))
}

/// The bytes of the scope of a local variable.
pub open spec fn encode_loc_var(v: LocVarView) -> Seq<u8> {
    encode_string(v.var_name) + encode_u32(v.start_pc) + encode_u32(v.end_pc)
}

/// The bytes of each scope.
pub open spec fn loc_var_pieces(loc_vars: Seq<LocVarView>) -> Seq<Seq<u8>> {
    Seq::new(loc_vars.len(), |i: int| encode_loc_var(loc_vars[i]))
}

/// The bytes of each function of a list.
pub open spec fn proto_pieces(protos: Seq<PrototypeView>) -> Seq<Seq<u8>>
    decreases protos, 0int,
{
    Seq::new(
        protos.len(),
        |i: int|
            if 0 <= i < protos.len() {
                encode_proto(protos[i])
            } else {
                Seq::empty()
            },
    )
}

/// The bytes of each field of a function prototype, in stream order, the
/// name written out as it stands.
pub open spec fn proto_parts(p: PrototypeView) -> Seq<Seq<u8>>
    decreases p, 1int,
{
    seq![
        encode_string(p.source),
        encode_u32(p.line_defined),
        encode_u32(p.last_line_defined),
        seq![p.num_params],
        seq![p.is_vararg],
        seq![p.max_stack_size],
        encode_counted(word_pieces(p.code)),
        encode_counted(constant_pieces(p.constants)),
        encode_counted(up_value_pieces(p.up_values)),
        encode_counted(proto_pieces(p.protos)),
        encode_counted(word_pieces(p.line_info)),
        encode_counted(loc_var_pieces(p.loc_vars)),
        encode_counted(text_pieces(p.up_value_names)),
    ]
}

/// The bytes of a function prototype, nested functions included.
pub open spec fn encode_proto(p: PrototypeView) -> Seq<u8>
    decreases p, 2int,
{
    concat(proto_parts(p))
}

/// A function prototype can be written, to be read again under the inherited
/// name `inherited`, where its lists can be counted in 32 bits, its texts and
/// constants can be written, and its name is empty only where the inherited
/// one is: an empty name is read as the inherited one. The same holds of the
/// functions nested in it, which inherit its name.
pub open spec fn encodable_proto(p: PrototypeView, inherited: Seq<char>) -> bool
    decreases p,
{
    &&& encodable_text(p.source)
    &&& p.source.len() == 0 ==> inherited.len() == 0
    &&& p.code.len() <= u32::MAX
    &&& p.constants.len() <= u32::MAX
    &&& p.up_values.len() <= u32::MAX
    &&& p.protos.len() <= u32::MAX
    &&& p.line_info.len() <= u32::MAX
    &&& p.loc_vars.len() <= u32::MAX
    &&& p.up_value_names.len() <= u32::MAX
    &&& forall|i: int| 0 <= i < p.constants.len() ==> encodable_constant(#[trigger] p.constants[i])
    &&& forall|i: int|
        0 <= i < p.protos.len() ==> encodable_proto(#[trigger] p.protos[i], p.source)
    &&& forall|i: int|
        0 <= i < p.loc_vars.len() ==> encodable_text((#[trigger] p.loc_vars[i]).var_name)
    &&& forall|i: int|
        0 <= i < p.up_value_names.len() ==> encodable_text(#[trigger] p.up_value_names[i])
}

/// The 33 bytes of the header that every chunk carries.
pub open spec fn encode_header() -> Seq<u8> {
    seq![
        0x1bu8, 0x4c, 0x75, 0x61, 0x53, 0x00, 0x19, 0x93, 0x0d, 0x0a, 0x1a, 0x0a, 4, 8, 4, 8, 8,
        0x00, 0x00, 0x00, 0x00, 0x00, 0x28, 0x77, 0x40, 0x78, 0x56, 0x00, 0x00, 0x00, 0x00, 0x00,
        0x00,
    ]
}

/// The bytes of a chunk: the header, the number of captured variables of the
/// main function, and the main function.
pub open spec fn encode_chunk(c: BinaryChunkView) -> Seq<u8> {
    encode_header() + seq![c.size_up_values] + encode_proto(c.main_func)
}

/// A chunk can be written where its header is the expected one and its main
/// function can be written, to be read again with nothing to inherit.
pub open spec fn encodable_chunk(c: BinaryChunkView) -> bool {
    c.header == Header::expected() && encodable_proto(c.main_func, Seq::empty())
}

} // verus!
