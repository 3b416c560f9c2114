//! Which buffers pass the header check: exactly those that hold the 33 bytes
//! of the expected header. A buffer that differs from such a buffer in one
//! header byte is refused, and the refusal names the field of that byte.

use vstd::prelude::*;
use crate::binary_chunk::Header;
use crate::encode::{encode_header, holds_at};
use crate::error::{ErrorKind, HeaderField};
use crate::format::{
    le_value, lemma_le_value_1, lemma_le_value_4, lemma_le_value_6, lemma_le_value_8, mismatch,
    parse_header, parse_header_field, Parsed, HEADER_LEN,
};

verus! {

/// The field of the header starting at `pos` holds what the expected header
/// holds there.
pub open spec fn field_matches(s: Seq<u8>, pos: int, field: HeaderField) -> bool {
    &&& 0 <= pos + field.offset()
    &&& pos + field.offset() + field.width() <= s.len()
    &&& s.subrange(pos + field.offset(), pos + field.offset() + field.width())
        == encode_header().subrange(field.offset(), field.offset() + field.width())
}

/// The field of the header starting at `pos` lies within the buffer.
pub open spec fn field_present(s: Seq<u8>, pos: int, field: HeaderField) -> bool {
    0 <= pos + field.offset() && pos + field.offset() + field.width() <= s.len()
}

/// A header field is accepted exactly where it holds its expected bytes.
/// Where it is there in full and holds others, the refusal is the mismatch
/// of that field; where it is not there in full, it is the want of input.
pub proof fn lemma_header_field_exact(s: Seq<u8>, pos: int, field: HeaderField)
    ensures
        match parse_header_field(s, pos, field) {
            Parsed::Value { value, next } => field_matches(s, pos, field) && next == pos
                + field.offset() + field.width(),
            Parsed::Failure { kind, offset } => {
                &&& !field_matches(s, pos, field)
                &&& offset == pos + field.offset()
                &&& if field_present(s, pos, field) {
                    exists|actual: u64| kind == mismatch(field, actual)
                } else {
                    kind == ErrorKind::TruncatedInput
                }
            },
        },
{
    if field_present(s, pos, field) {
        let at = pos + field.offset();
        let bytes = s.subrange(at, at + field.width());
        let image = encode_header().subrange(field.offset(), field.offset() + field.width());
        match field {
            HeaderField::Signature => {
                lemma_le_value_4(bytes);
                lemma_le_value_4(image);
            },
            HeaderField::LuacData => {
                lemma_le_value_6(bytes);
                lemma_le_value_6(image);
            },
            HeaderField::LuacNum => {
                lemma_le_value_8(bytes);
                lemma_le_value_8(image);
            },
            HeaderField::LuacInt => {
                lemma_le_value_8(bytes);
                lemma_le_value_8(image);
            },
            _ => {
                lemma_le_value_1(bytes);
                lemma_le_value_1(image);
            },
        }
        assert(le_value(image) == field.expected());
        if le_value(bytes) == field.expected() {
            assert(bytes =~= image);
        } else {
            assert(parse_header_field(s, pos, field)->kind == mismatch(
                field,
                le_value(bytes) as u64,
            ));
        }
    }
}

/// A buffer that holds the expected header holds each of its fields.
pub proof fn lemma_field_from_image(s: Seq<u8>, pos: int, field: HeaderField)
    requires
        holds_at(s, pos, encode_header()),
    ensures
        field_matches(s, pos, field),
{
    reveal(holds_at);
    let whole = s.subrange(pos, pos + encode_header().len());
    assert(s.subrange(pos + field.offset(), pos + field.offset() + field.width())
        =~= whole.subrange(field.offset(), field.offset() + field.width()));
}

/// A buffer that holds each field of the expected header holds the header.
pub proof fn lemma_image_from_fields(s: Seq<u8>, pos: int)
    requires
        field_matches(s, pos, HeaderField::Signature),
        field_matches(s, pos, HeaderField::Version),
        field_matches(s, pos, HeaderField::Format),
        field_matches(s, pos, HeaderField::LuacData),
        field_matches(s, pos, HeaderField::CIntSize),
        field_matches(s, pos, HeaderField::SizeTSize),
        field_matches(s, pos, HeaderField::InstructionSize),
        field_matches(s, pos, HeaderField::LuaIntegerSize),
        field_matches(s, pos, HeaderField::LuaNumberSize),
        field_matches(s, pos, HeaderField::LuacNum),
        field_matches(s, pos, HeaderField::LuacInt),
    ensures
        holds_at(s, pos, encode_header()),
{
    reveal(holds_at);
    let image = encode_header();
    let whole = s.subrange(pos, pos + 33);
    assert forall|k: int| 0 <= k < 33 implies whole[k] == image[k] by {
        let field = field_of(k);
        let at = field.offset();
        let own = s.subrange(pos + at, pos + at + field.width());
        assert(own[k - at] == image.subrange(at, at + field.width())[k - at]);
    }
    assert(whole =~= image);
}

/// The header field that the header byte with index `i` belongs to.
pub open spec fn field_of(i: int) -> HeaderField {
    if i < 4 {
        HeaderField::Signature
    } else if i < 5 {
        HeaderField::Version
    } else if i < 6 {
        HeaderField::Format
    } else if i < 12 {
        HeaderField::LuacData
    } else if i < 13 {
        HeaderField::CIntSize
    } else if i < 14 {
        HeaderField::SizeTSize
    } else if i < 15 {
        HeaderField::InstructionSize
    } else if i < 16 {
        HeaderField::LuaIntegerSize
    } else if i < 17 {
        HeaderField::LuaNumberSize
    } else if i < 25 {
        HeaderField::LuacNum
    } else {
        HeaderField::LuacInt
    }
}

/// The header check passes exactly on the buffers that hold the 33 bytes of
/// the expected header; it then gives that header and ends behind it.
pub proof fn lemma_header_exact(s: Seq<u8>, pos: int)
    ensures
        parse_header(s, pos) is Value <==> holds_at(s, pos, encode_header()),
        parse_header(s, pos) is Value ==> parse_header(s, pos).is_value(
            Header::expected(),
            pos + HEADER_LEN,
        ),
{
    lemma_header_field_exact(s, pos, HeaderField::Signature);
    lemma_header_field_exact(s, pos, HeaderField::Version);
    lemma_header_field_exact(s, pos, HeaderField::Format);
    lemma_header_field_exact(s, pos, HeaderField::LuacData);
    lemma_header_field_exact(s, pos, HeaderField::CIntSize);
    lemma_header_field_exact(s, pos, HeaderField::SizeTSize);
    lemma_header_field_exact(s, pos, HeaderField::InstructionSize);
    lemma_header_field_exact(s, pos, HeaderField::LuaIntegerSize);
    lemma_header_field_exact(s, pos, HeaderField::LuaNumberSize);
    lemma_header_field_exact(s, pos, HeaderField::LuacNum);
    lemma_header_field_exact(s, pos, HeaderField::LuacInt);
    if parse_header(s, pos) is Value {
        lemma_image_from_fields(s, pos);
    }
    if holds_at(s, pos, encode_header()) {
        lemma_field_from_image(s, pos, HeaderField::Signature);
        lemma_field_from_image(s, pos, HeaderField::Version);
        lemma_field_from_image(s, pos, HeaderField::Format);
        lemma_field_from_image(s, pos, HeaderField::LuacData);
        lemma_field_from_image(s, pos, HeaderField::CIntSize);
        lemma_field_from_image(s, pos, HeaderField::SizeTSize);
        lemma_field_from_image(s, pos, HeaderField::InstructionSize);
        lemma_field_from_image(s, pos, HeaderField::LuaIntegerSize);
        lemma_field_from_image(s, pos, HeaderField::LuaNumberSize);
        lemma_field_from_image(s, pos, HeaderField::LuacNum);
        lemma_field_from_image(s, pos, HeaderField::LuacInt);
    }
}

/// What a changed byte does to one field of a header at the start of the
/// buffer: the field that holds the byte no longer matches, the others do.
pub proof fn lemma_changed_byte(s: Seq<u8>, i: int, b: u8, field: HeaderField)
    requires
        field_matches(s, 0, field),
        0 <= i < s.len(),
        b != s[i],
    ensures
        field_present(s.update(i, b), 0, field),
        field_matches(s.update(i, b), 0, field) <==> !(field.offset() <= i < field.offset()
            + field.width()),
{
    let at = field.offset();
    let end = at + field.width();
    let changed = s.update(i, b);
    if at <= i < end {
        assert(changed.subrange(at, end)[i - at] == b);
        assert(s.subrange(at, end)[i - at] == s[i]);
    } else {
        assert(changed.subrange(at, end) =~= s.subrange(at, end));
    }
}

/// A buffer that passes the header check and has one header byte changed is
/// refused at the field of that byte, for the mismatch of that field.
pub proof fn lemma_header_byte_matters(s: Seq<u8>, i: int, b: u8)
    requires
        parse_header(s, 0) is Value,
        0 <= i < HEADER_LEN,
        b != s[i],
    ensures
        parse_header(s.update(i, b), 0) matches Parsed::Failure { kind, offset } && offset
            == field_of(i).offset() && exists|actual: u64| kind == mismatch(field_of(i), actual),
{
    let changed = s.update(i, b);
    lemma_header_exact(s, 0);
    lemma_field_from_image(s, 0, HeaderField::Signature);
    lemma_field_from_image(s, 0, HeaderField::Version);
    lemma_field_from_image(s, 0, HeaderField::Format);
    lemma_field_from_image(s, 0, HeaderField::LuacData);
    lemma_field_from_image(s, 0, HeaderField::CIntSize);
    lemma_field_from_image(s, 0, HeaderField::SizeTSize);
    lemma_field_from_image(s, 0, HeaderField::InstructionSize);
    lemma_field_from_image(s, 0, HeaderField::LuaIntegerSize);
    lemma_field_from_image(s, 0, HeaderField::LuaNumberSize);
    lemma_field_from_image(s, 0, HeaderField::LuacNum);
    lemma_field_from_image(s, 0, HeaderField::LuacInt);
    lemma_changed_byte(s, i, b, HeaderField::Signature);
    lemma_changed_byte(s, i, b, HeaderField::Version);
    lemma_changed_byte(s, i, b, HeaderField::Format);
    lemma_changed_byte(s, i, b, HeaderField::LuacData);
    lemma_changed_byte(s, i, b, HeaderField::CIntSize);
    lemma_changed_byte(s, i, b, HeaderField::SizeTSize);
    lemma_changed_byte(s, i, b, HeaderField::InstructionSize);
    lemma_changed_byte(s, i, b, HeaderField::LuaIntegerSize);
    lemma_changed_byte(s, i, b, HeaderField::LuaNumberSize);
    lemma_changed_byte(s, i, b, HeaderField::LuacNum);
    lemma_changed_byte(s, i, b, HeaderField::LuacInt);
    lemma_header_field_exact(changed, 0, HeaderField::Signature);
    lemma_header_field_exact(changed, 0, HeaderField::Version);
    lemma_header_field_exact(changed, 0, HeaderField::Format);
    lemma_header_field_exact(changed, 0, HeaderField::LuacData);
    lemma_header_field_exact(changed, 0, HeaderField::CIntSize);
    lemma_header_field_exact(changed, 0, HeaderField::SizeTSize);
    lemma_header_field_exact(changed, 0, HeaderField::InstructionSize);
    lemma_header_field_exact(changed, 0, HeaderField::LuaIntegerSize);
    lemma_header_field_exact(changed, 0, HeaderField::LuaNumberSize);
    lemma_header_field_exact(changed, 0, HeaderField::LuacNum);
    lemma_header_field_exact(changed, 0, HeaderField::LuacInt);
}

/// The header check looks at the 33 bytes of the header and at nothing else.
pub proof fn lemma_header_ignores_rest(s: Seq<u8>, t: Seq<u8>)
    requires
        s.len() >= HEADER_LEN,
        t.len() >= HEADER_LEN,
        s.take(HEADER_LEN as int) == t.take(HEADER_LEN as int),
    ensures
        parse_header(s, 0) == parse_header(t, 0),
{
    assert forall|field: HeaderField|
        parse_header_field(s, 0, field) == parse_header_field(t, 0, field) by {
        let at = field.offset();
        let end = at + field.width();
        assert(s.subrange(at, end) =~= s.take(HEADER_LEN as int).subrange(at, end));
        assert(t.subrange(at, end) =~= t.take(HEADER_LEN as int).subrange(at, end));
    }
}

} // verus!
