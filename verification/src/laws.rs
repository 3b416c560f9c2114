//! What holds of the decoder as a whole.

use vstd::prelude::*;
use crate::binary_chunk::{BinaryChunkView, ConstantView};
use crate::bounds::lemma_proto_bounds;
use crate::encode::{
    encodable_chunk, encodable_constant, encode_chunk, encode_constant, holds_at,
};
use crate::error::ErrorKind;
use crate::format::{
    mismatch, parse_chunk, parse_constant, parse_header, Parsed, HEADER_LEN, TAG_BOOLEAN,
    TAG_INTEGER, TAG_NIL, TAG_NUMBER, TAG_STRING,
};
use crate::rejection::{field_of, lemma_header_byte_matters, lemma_header_ignores_rest};
use crate::roundtrip::{
    lemma_chunk_roundtrip, lemma_constant_roundtrip, lemma_parsed_chunk_encodable,
};
use crate::truncation::lemma_cut_chunk;

verus! {

/// Round trip: a chunk that can be written, written, decodes to itself, and
/// the decoding ends where the bytes end.
pub proof fn law_written_chunk_decodes_to_itself(c: BinaryChunkView)
    requires
        encodable_chunk(c),
    ensures
        parse_chunk(encode_chunk(c)).is_value(c, encode_chunk(c).len() as int),
{
    lemma_chunk_roundtrip(c);
}

/// Round trip: every chunk that is decoded from some buffer can be written,
/// and what is written decodes to an equal chunk.
pub proof fn law_decoded_chunk_survives_reencoding(s: Seq<u8>)
    requires
        parse_chunk(s) is Value,
    ensures
        encodable_chunk(parse_chunk(s)->value),
        parse_chunk(encode_chunk(parse_chunk(s)->value)) is Value,
        parse_chunk(encode_chunk(parse_chunk(s)->value))->value == parse_chunk(s)->value,
{
    lemma_parsed_chunk_encodable(s);
    lemma_chunk_roundtrip(parse_chunk(s)->value);
}

/// Header rejection: change any one byte of the header of a buffer that
/// decodes, and the buffer is refused at the field of that byte: as an
/// unsupported platform where the byte is one of the five widths, as a
/// malformed header where it belongs to the signature, the version, the
/// format, the transport canary or one of the two sentinels.
pub proof fn law_changed_header_byte_is_refused(s: Seq<u8>, i: int, b: u8)
    requires
        parse_chunk(s) is Value,
        0 <= i < HEADER_LEN,
        b != s[i],
    ensures
        parse_chunk(s.update(i, b)) matches Parsed::Failure { kind, offset } && {
            &&& offset == field_of(i).offset()
            &&& exists|actual: u64| kind == mismatch(field_of(i), actual)
            &&& kind is UnsupportedPlatform <==> field_of(i).is_size()
            &&& kind is MalformedHeader <==> !field_of(i).is_size()
        },
{
    lemma_header_byte_matters(s, i, b);
}

/// The header check is independent of what follows the header: two buffers
/// that agree on their first 33 bytes pass it or fail it alike, and fail it
/// in the same way.
pub proof fn law_header_check_ignores_what_follows(s: Seq<u8>, t: Seq<u8>)
    requires
        s.len() >= HEADER_LEN,
        t.len() >= HEADER_LEN,
        s.take(HEADER_LEN as int) == t.take(HEADER_LEN as int),
    ensures
        parse_header(s, 0) == parse_header(t, 0),
{
    lemma_header_ignores_rest(s, t);
}

/// Truncation: a buffer that holds a chunk, cut at any offset before the end
/// of that chunk, is refused for want of input. It is not refused for any
/// other reason, and nothing is decoded from it.
pub proof fn law_truncated_chunk_is_refused(s: Seq<u8>, k: int)
    requires
        parse_chunk(s) is Value,
        0 <= k < parse_chunk(s)->next,
    ensures
        parse_chunk(s.take(k)).is_truncated(),
{
    lemma_proto_bounds(s, parse_header(s, 0)->next + 1, Seq::empty());
    lemma_cut_chunk(s, k);
}

/// Whether `tag` is one of the five tags of the format.
pub open spec fn defined_tag(tag: u8) -> bool {
    tag == TAG_NIL || tag == TAG_BOOLEAN || tag == TAG_NUMBER || tag == TAG_INTEGER || tag
        == TAG_STRING
}

/// Tag totality: the buffer that holds exactly the tag and the payload of a
/// constant decodes to that constant, whichever of the five kinds it is.
pub proof fn law_minimal_constant_decodes(c: ConstantView)
    requires
        encodable_constant(c),
    ensures
        defined_tag(c.tag),
        parse_constant(encode_constant(c), 0).is_value(c, encode_constant(c).len() as int),
{
    let e = encode_constant(c);
    assert(holds_at(e, 0, e)) by {
        reveal(holds_at);
        assert(e.subrange(0, e.len() as int) =~= e);
    }
    lemma_constant_roundtrip(e, 0, c);
}

/// Tag totality: a tag decides the kind of the constant, and a tag outside
/// the five defined ones is refused as unknown, at the tag, whatever follows.
pub proof fn law_tag_decides_kind(s: Seq<u8>, pos: int)
    requires
        0 <= pos < s.len(),
    ensures
        match parse_constant(s, pos) {
            Parsed::Value { value, .. } => {
                &&& value.tag == s[pos]
                &&& s[pos] == TAG_NIL <==> value.value is Nil
                &&& s[pos] == TAG_BOOLEAN <==> value.value is Boolean
                &&& s[pos] == TAG_NUMBER <==> value.value is Number
                &&& s[pos] == TAG_INTEGER <==> value.value is Integer
                &&& s[pos] == TAG_STRING <==> value.value is Str
            },
            Parsed::Failure { kind, offset } => if defined_tag(s[pos]) {
                offset == pos + 1 && (kind == ErrorKind::TruncatedInput || kind
                    == ErrorKind::InvalidText)
            } else {
                offset == pos && kind == (ErrorKind::UnknownConstantTag { tag: s[pos] })
            },
        },
{
}

} // verus!
