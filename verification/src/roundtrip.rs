//! Reading what was written: a buffer that holds the bytes of a value, read
//! at their offset, gives that value and ends behind them; and every value
//! that is read can be written.

use vstd::prelude::*;
use vstd::utf8::{
    decode_utf8_encode_utf8, encode_utf8, encode_utf8_decode_utf8, encode_utf8_valid_utf8,
};
use crate::binary_chunk::{
    BinaryChunkView, ConstantValueView, ConstantView, LocVarView, PrototypeView, UpValue,
};
use crate::bounds::{
    lemma_counted_bounds, lemma_items_advance, lemma_nested_are_protos, lemma_proto_bounds,
    lemma_repeated_bounds, lemma_terminator_bounds,
};
use crate::rejection::lemma_header_exact;
use crate::encode::{
    as_unsigned, concat, constant_pieces, encodable_chunk, encodable_constant, encodable_proto,
    encodable_text, encode_chunk, encode_constant, encode_counted, encode_header,
    encode_loc_var, encode_proto, encode_string, encode_u32, encode_u64, encode_up_value,
    holds_at, loc_var_pieces, proto_parts, proto_pieces, text_pieces, up_value_pieces,
    word_pieces,
};
use crate::format::{
    as_signed, constant_at, le_value, lemma_le_value_4, lemma_le_value_8, loc_var_at, nested_at,
    parse_byte, parse_chunk, parse_code, parse_constant, parse_constants, parse_counted,
    parse_line_info, parse_loc_var, parse_loc_vars, parse_proto, parse_repeated, parse_string,
    parse_u32, parse_u64, parse_up_value, parse_up_value_names, parse_up_values, proto_at,
    resolved_source, string_at, terminator, up_value_at, word_at, Parsed,
};

verus! {

/// A buffer that holds two runs of bytes, one behind the other, holds each.
pub proof fn lemma_holds_split(s: Seq<u8>, pos: int, a: Seq<u8>, b: Seq<u8>)
    requires
        holds_at(s, pos, a + b),
    ensures
        holds_at(s, pos, a),
        holds_at(s, pos + a.len(), b),
{
    reveal(holds_at);
    let whole = s.subrange(pos, pos + (a + b).len());
    assert(s.subrange(pos, pos + a.len()) =~= whole.subrange(0, a.len() as int));
    assert(whole.subrange(0, a.len() as int) =~= a);
    assert(s.subrange(pos + a.len(), pos + a.len() + b.len()) =~= whole.subrange(
        a.len() as int,
        (a + b).len() as int,
    ));
    assert(whole.subrange(a.len() as int, (a + b).len() as int) =~= b);
}

/// A byte that was written is read.
pub proof fn lemma_byte_roundtrip(s: Seq<u8>, pos: int, v: u8)
    requires
        holds_at(s, pos, seq![v]),
    ensures
        parse_byte(s, pos).is_value(v, pos + 1),
{
    reveal(holds_at);
    assert(s.subrange(pos, pos + 1)[0] == v);
}

/// The four bytes of a 32-bit integer denote it.
pub proof fn lemma_u32_digits(v: u32)
    ensures
        encode_u32(v).len() == 4,
        le_value(encode_u32(v)) == v,
{
    reveal(encode_u32);
    lemma_le_value_4(encode_u32(v));
}

/// The eight bytes of a 64-bit integer denote it.
pub proof fn lemma_u64_digits(v: u64)
    ensures
        encode_u64(v).len() == 8,
        le_value(encode_u64(v)) == v,
{
    reveal(encode_u64);
    let lo = (v % 0x1_0000_0000) as u32;
    let hi = (v / 0x1_0000_0000) as u32;
    let a = encode_u32(lo);
    let b = encode_u32(hi);
    lemma_u32_digits(lo);
    lemma_u32_digits(hi);
    lemma_le_value_4(a);
    lemma_le_value_4(b);
    lemma_le_value_8(a + b);
    assert((a + b)[0] == a[0] && (a + b)[1] == a[1] && (a + b)[2] == a[2] && (a + b)[3] == a[3]);
    assert((a + b)[4] == b[0] && (a + b)[5] == b[1] && (a + b)[6] == b[2] && (a + b)[7] == b[3]);
    assert(lo + 0x1_0000_0000 * hi == v);
}

/// A 32-bit integer that was written is read.
pub proof fn lemma_u32_roundtrip(s: Seq<u8>, pos: int, v: u32)
    requires
        holds_at(s, pos, encode_u32(v)),
    ensures
        encode_u32(v).len() == 4,
        parse_u32(s, pos).is_value(v, pos + 4),
{
    reveal(holds_at);
    lemma_u32_digits(v);
}

/// A 64-bit integer that was written is read.
pub proof fn lemma_u64_roundtrip(s: Seq<u8>, pos: int, v: u64)
    requires
        holds_at(s, pos, encode_u64(v)),
    ensures
        encode_u64(v).len() == 8,
        parse_u64(s, pos).is_value(v, pos + 8),
{
    reveal(holds_at);
    lemma_u64_digits(v);
}

/// Behind a run of bytes without a zero, the next zero byte is the one that
/// follows the run.
pub proof fn lemma_terminator_found(s: Seq<u8>, pos: int, body: Seq<u8>, i: int)
    requires
        holds_at(s, pos, body + seq![0u8]),
        forall|j: int| 0 <= j < body.len() ==> body[j] != 0,
        0 <= i <= body.len(),
    ensures
        terminator(s, pos + i) == pos + body.len(),
    decreases body.len() - i,
{
    reveal(holds_at);
    let image = body + seq![0u8];
    assert(s.subrange(pos, pos + image.len())[i] == image[i]);
    if i < body.len() {
        lemma_terminator_found(s, pos, body, i + 1);
    }
}

/// A text that was written is read.
pub proof fn lemma_string_roundtrip(s: Seq<u8>, pos: int, t: Seq<char>)
    requires
        encodable_text(t),
        holds_at(s, pos, encode_string(t)),
    ensures
        parse_string(s, pos).is_value(t, pos + encode_string(t).len()),
{
    reveal(holds_at);
    let body = encode_utf8(t);
    lemma_terminator_found(s, pos, body, 0);
    lemma_holds_split(s, pos, body, seq![0u8]);
    encode_utf8_valid_utf8(t);
    encode_utf8_decode_utf8(t);
}

/// A text that is read can be written.
pub proof fn lemma_parsed_text_encodable(s: Seq<u8>, pos: int)
    ensures
        parse_string(s, pos) is Value ==> encodable_text(parse_string(s, pos)->value),
{
    if parse_string(s, pos) is Value {
        let end = terminator(s, pos);
        let body = s.subrange(pos, end);
        lemma_terminator_bounds(s, pos);
        decode_utf8_encode_utf8(body);
    }
}

/// A constant that was written is read.
pub proof fn lemma_constant_roundtrip(s: Seq<u8>, pos: int, c: ConstantView)
    requires
        encodable_constant(c),
        holds_at(s, pos, encode_constant(c)),
    ensures
        parse_constant(s, pos).is_value(c, pos + encode_constant(c).len()),
{
    let payload = match c.value {
        ConstantValueView::Nil => Seq::empty(),
        ConstantValueView::Boolean(b) => seq![if b { 1u8 } else { 0u8 }],
        ConstantValueView::Integer(i) => encode_u64(as_unsigned(i)),
        ConstantValueView::Number(bits) => encode_u64(bits),
        ConstantValueView::Str(t) => encode_string(t),
    };
    lemma_holds_split(s, pos, seq![c.tag], payload);
    lemma_byte_roundtrip(s, pos, c.tag);
    match c.value {
        ConstantValueView::Nil => {},
        ConstantValueView::Boolean(b) => {
            lemma_byte_roundtrip(s, pos + 1, if b { 1u8 } else { 0u8 });
        },
        ConstantValueView::Integer(i) => {
            lemma_u64_roundtrip(s, pos + 1, as_unsigned(i));
        },
        ConstantValueView::Number(bits) => {
            lemma_u64_roundtrip(s, pos + 1, bits);
        },
        ConstantValueView::Str(t) => {
            lemma_string_roundtrip(s, pos + 1, t);
        },
    }
}

/// A constant that is read can be written.
pub proof fn lemma_parsed_constant_encodable(s: Seq<u8>, pos: int)
    ensures
        parse_constant(s, pos) is Value ==> encodable_constant(parse_constant(s, pos)->value),
{
    lemma_parsed_text_encodable(s, pos + 1);
}

/// A captured-variable descriptor that was written is read.
pub proof fn lemma_up_value_roundtrip(s: Seq<u8>, pos: int, u: UpValue)
    requires
        holds_at(s, pos, encode_up_value(u)),
    ensures
        parse_up_value(s, pos).is_value(u, pos + 2),
{
    assert(encode_up_value(u) =~= seq![u.instack] + seq![u.idx]);
    lemma_holds_split(s, pos, seq![u.instack], seq![u.idx]);
    lemma_byte_roundtrip(s, pos, u.instack);
    lemma_byte_roundtrip(s, pos + 1, u.idx);
}

/// The scope of a local variable that was written is read.
pub proof fn lemma_loc_var_roundtrip(s: Seq<u8>, pos: int, v: LocVarView)
    requires
        encodable_text(v.var_name),
        holds_at(s, pos, encode_loc_var(v)),
    ensures
        parse_loc_var(s, pos).is_value(v, pos + encode_loc_var(v).len()),
{
    let name = encode_string(v.var_name);
    lemma_holds_split(s, pos, name + encode_u32(v.start_pc), encode_u32(v.end_pc));
    lemma_holds_split(s, pos, name, encode_u32(v.start_pc));
    lemma_string_roundtrip(s, pos, v.var_name);
    lemma_u32_roundtrip(s, pos + name.len(), v.start_pc);
    lemma_u32_roundtrip(s, pos + name.len() + 4, v.end_pc);
}

/// Wherever `s` holds piece `i`, `item` reads value `i` there and ends
/// behind the piece.
pub open spec fn reads_back<T>(
    s: Seq<u8>,
    item: spec_fn(int) -> Parsed<T>,
    values: Seq<T>,
    pieces: Seq<Seq<u8>>,
) -> bool {
    forall|i: int, p: int|
        0 <= i < values.len() && #[trigger] holds_at(s, p, pieces[i]) ==> item(p).is_value(
            values[i],
            p + pieces[i].len(),
        )
}

/// A list that was written piece by piece is read value by value.
pub proof fn lemma_repeated_roundtrip<T>(
    s: Seq<u8>,
    pos: int,
    item: spec_fn(int) -> Parsed<T>,
    values: Seq<T>,
    pieces: Seq<Seq<u8>>,
)
    requires
        values.len() == pieces.len(),
        reads_back(s, item, values, pieces),
        holds_at(s, pos, concat(pieces)),
    ensures
        parse_repeated(pos, values.len(), item).is_value(values, pos + concat(pieces).len()),
    decreases values.len(),
{
    if values.len() == 0 {
        assert(values =~= Seq::empty());
    } else {
        let front = values.drop_last();
        let front_pieces = pieces.drop_last();
        lemma_holds_split(s, pos, concat(front_pieces), pieces.last());
        assert forall|i: int, p: int|
            0 <= i < front.len() && #[trigger] holds_at(
                s,
                p,
                front_pieces[i],
            ) implies item(p).is_value(front[i], p + front_pieces[i].len()) by {
            assert(holds_at(s, p, pieces[i]));
        }
        lemma_repeated_roundtrip(s, pos, item, front, front_pieces);
        let at = pos + concat(front_pieces).len();
        assert(holds_at(s, at, pieces[values.len() - 1]));
        assert(front.push(values.last()) =~= values);
    }
}

/// A counted list that was written is read.
pub proof fn lemma_counted_roundtrip<T>(
    s: Seq<u8>,
    pos: int,
    item: spec_fn(int) -> Parsed<T>,
    values: Seq<T>,
    pieces: Seq<Seq<u8>>,
)
    requires
        values.len() == pieces.len(),
        values.len() <= u32::MAX,
        reads_back(s, item, values, pieces),
        holds_at(s, pos, encode_counted(pieces)),
    ensures
        parse_counted(s, pos, item).is_value(values, pos + encode_counted(pieces).len()),
{
    lemma_holds_split(s, pos, encode_u32(pieces.len() as u32), concat(pieces));
    lemma_u32_roundtrip(s, pos, pieces.len() as u32);
    lemma_repeated_roundtrip(s, pos + 4, item, values, pieces);
}

/// Words, texts, constants, descriptors and scopes that were written are read.
pub proof fn lemma_items_read_back(s: Seq<u8>, p: PrototypeView, inherited: Seq<char>)
    requires
        encodable_proto(p, inherited),
    ensures
        reads_back(s, word_at(s), p.code, word_pieces(p.code)),
        reads_back(s, constant_at(s), p.constants, constant_pieces(p.constants)),
        reads_back(s, up_value_at(s), p.up_values, up_value_pieces(p.up_values)),
        reads_back(s, word_at(s), p.line_info, word_pieces(p.line_info)),
        reads_back(s, loc_var_at(s), p.loc_vars, loc_var_pieces(p.loc_vars)),
        reads_back(s, string_at(s), p.up_value_names, text_pieces(p.up_value_names)),
{
    assert forall|i: int, at: int|
        0 <= i < p.code.len() && #[trigger] holds_at(
            s,
            at,
            word_pieces(p.code)[i],
        ) implies word_at(s)(at).is_value(p.code[i], at + word_pieces(p.code)[i].len()) by {
        lemma_u32_roundtrip(s, at, p.code[i]);
    }
    assert forall|i: int, at: int|
        0 <= i < p.constants.len() && #[trigger] holds_at(
            s,
            at,
            constant_pieces(p.constants)[i],
        ) implies constant_at(s)(at).is_value(
        p.constants[i],
        at + constant_pieces(p.constants)[i].len(),
    ) by {
        lemma_constant_roundtrip(s, at, p.constants[i]);
    }
    assert forall|i: int, at: int|
        0 <= i < p.up_values.len() && #[trigger] holds_at(
            s,
            at,
            up_value_pieces(p.up_values)[i],
        ) implies up_value_at(s)(at).is_value(
        p.up_values[i],
        at + up_value_pieces(p.up_values)[i].len(),
    ) by {
        lemma_up_value_roundtrip(s, at, p.up_values[i]);
    }
    assert forall|i: int, at: int|
        0 <= i < p.line_info.len() && #[trigger] holds_at(
            s,
            at,
            word_pieces(p.line_info)[i],
        ) implies word_at(s)(at).is_value(
        p.line_info[i],
        at + word_pieces(p.line_info)[i].len(),
    ) by {
        lemma_u32_roundtrip(s, at, p.line_info[i]);
    }
    assert forall|i: int, at: int|
        0 <= i < p.loc_vars.len() && #[trigger] holds_at(
            s,
            at,
            loc_var_pieces(p.loc_vars)[i],
        ) implies loc_var_at(s)(at).is_value(
        p.loc_vars[i],
        at + loc_var_pieces(p.loc_vars)[i].len(),
    ) by {
        lemma_loc_var_roundtrip(s, at, p.loc_vars[i]);
    }
    assert forall|i: int, at: int|
        0 <= i < p.up_value_names.len() && #[trigger] holds_at(
            s,
            at,
            text_pieces(p.up_value_names)[i],
        ) implies string_at(s)(at).is_value(
        p.up_value_names[i],
        at + text_pieces(p.up_value_names)[i].len(),
    ) by {
        lemma_string_roundtrip(s, at, p.up_value_names[i]);
    }
}

/// Where the part with index `j` starts, counted from the start of the first.
pub open spec fn part_start(parts: Seq<Seq<u8>>, j: int) -> int {
    concat(parts.take(j)).len() as int
}

/// Each part starts where the one before it ends.
pub proof fn lemma_part_starts(parts: Seq<Seq<u8>>, j: int)
    requires
        0 <= j < parts.len(),
    ensures
        part_start(parts, 0) == 0,
        part_start(parts, j + 1) == part_start(parts, j) + parts[j].len(),
        j + 1 == parts.len() ==> part_start(parts, j + 1) == concat(parts).len(),
{
    assert(parts.take(j + 1).drop_last() =~= parts.take(j));
    assert(parts.take(parts.len() as int) =~= parts);
}

/// A buffer that holds parts in a row holds each part at its start.
pub proof fn lemma_holds_part(s: Seq<u8>, pos: int, parts: Seq<Seq<u8>>, j: int)
    requires
        holds_at(s, pos, concat(parts)),
        0 <= j < parts.len(),
    ensures
        holds_at(s, pos + part_start(parts, j), parts[j]),
    decreases parts.len(),
{
    let front = parts.drop_last();
    lemma_holds_split(s, pos, concat(front), parts.last());
    if j + 1 < parts.len() {
        lemma_holds_part(s, pos, front, j);
        assert(front.take(j) =~= parts.take(j));
    } else {
        assert(parts.take(j) =~= front);
    }
}

/// A function prototype whose fields are read one behind the other is read
/// as a whole.
pub proof fn lemma_proto_assembled(
    s: Seq<u8>,
    pos: int,
    inherited: Seq<char>,
    p: PrototypeView,
    a: Seq<int>,
)
    requires
        a.len() == 14,
        a[0] == pos,
        parse_string(s, a[0]) is Value,
        parse_string(s, a[0])->next == a[1],
        resolved_source(parse_string(s, a[0])->value, inherited) == p.source,
        parse_u32(s, a[1]).is_value(p.line_defined, a[2]),
        parse_u32(s, a[2]).is_value(p.last_line_defined, a[3]),
        parse_byte(s, a[3]).is_value(p.num_params, a[4]),
        parse_byte(s, a[4]).is_value(p.is_vararg, a[5]),
        parse_byte(s, a[5]).is_value(p.max_stack_size, a[6]),
        parse_code(s, a[6]).is_value(p.code, a[7]),
        parse_constants(s, a[7]).is_value(p.constants, a[8]),
        parse_counted(s, a[8], up_value_at(s)).is_value(p.up_values, a[9]),
        parse_counted(s, a[9], nested_at(s, pos, p.source)).is_value(p.protos, a[10]),
        parse_line_info(s, a[10]).is_value(p.line_info, a[11]),
        parse_loc_vars(s, a[11]).is_value(p.loc_vars, a[12]),
        parse_up_value_names(s, a[12]).is_value(p.up_value_names, a[13]),
    ensures
        parse_proto(s, pos, inherited).is_value(p, a[13]),
{
}

/// A function prototype that was written is read.
pub proof fn lemma_proto_roundtrip(s: Seq<u8>, pos: int, p: PrototypeView, inherited: Seq<char>)
    requires
        encodable_proto(p, inherited),
        holds_at(s, pos, encode_proto(p)),
    ensures
        parse_proto(s, pos, inherited).is_value(p, pos + encode_proto(p).len()),
    decreases p, 1int,
{
    let parts = proto_parts(p);
    let a = Seq::new(14, |j: int| pos + part_start(parts, j));
    assert forall|j: int| 0 <= j < 13 implies holds_at(s, #[trigger] a[j], parts[j]) && a[j + 1]
        == a[j] + parts[j].len() by {
        lemma_holds_part(s, pos, parts, j);
        lemma_part_starts(parts, j);
    }
    lemma_part_starts(parts, 12);
    lemma_items_read_back(s, p, inherited);
    assert(holds_at(s, a[0], parts[0]));
    lemma_string_roundtrip(s, a[0], p.source);
    assert(resolved_source(p.source, inherited) =~= p.source);
    assert(holds_at(s, a[1], parts[1]));
    lemma_u32_roundtrip(s, a[1], p.line_defined);
    assert(holds_at(s, a[2], parts[2]));
    lemma_u32_roundtrip(s, a[2], p.last_line_defined);
    assert(holds_at(s, a[3], parts[3]));
    lemma_byte_roundtrip(s, a[3], p.num_params);
    assert(holds_at(s, a[4], parts[4]));
    lemma_byte_roundtrip(s, a[4], p.is_vararg);
    assert(holds_at(s, a[5], parts[5]));
    lemma_byte_roundtrip(s, a[5], p.max_stack_size);
    assert(holds_at(s, a[6], parts[6]));
    lemma_counted_roundtrip(s, a[6], word_at(s), p.code, word_pieces(p.code));
    assert(holds_at(s, a[7], parts[7]));
    lemma_counted_roundtrip(s, a[7], constant_at(s), p.constants, constant_pieces(p.constants));
    assert(holds_at(s, a[8], parts[8]));
    lemma_counted_roundtrip(s, a[8], up_value_at(s), p.up_values, up_value_pieces(p.up_values));
    assert(holds_at(s, a[9], parts[9]));
    lemma_nested_roundtrip(s, pos, a[9], p, inherited);
    assert(holds_at(s, a[10], parts[10]));
    lemma_counted_roundtrip(s, a[10], word_at(s), p.line_info, word_pieces(p.line_info));
    assert(holds_at(s, a[11], parts[11]));
    lemma_counted_roundtrip(s, a[11], loc_var_at(s), p.loc_vars, loc_var_pieces(p.loc_vars));
    assert(holds_at(s, a[12], parts[12]));
    lemma_counted_roundtrip(
        s,
        a[12],
        string_at(s),
        p.up_value_names,
        text_pieces(p.up_value_names),
    );
    lemma_proto_assembled(s, pos, inherited, p, a);
}

/// The functions nested in a function prototype, written, are read.
pub proof fn lemma_nested_roundtrip(
    s: Seq<u8>,
    pos: int,
    at: int,
    p: PrototypeView,
    inherited: Seq<char>,
)
    requires
        encodable_proto(p, inherited),
        0 <= pos < at,
        holds_at(s, at, encode_counted(proto_pieces(p.protos))),
    ensures
        parse_counted(s, at, nested_at(s, pos, p.source)).is_value(
            p.protos,
            at + encode_counted(proto_pieces(p.protos)).len(),
        ),
    decreases p, 0int,
{
    let source = p.source;
    let pieces = proto_pieces(p.protos);
    assert forall|i: int, start: int|
        0 <= i < p.protos.len() && #[trigger] holds_at(s, start, pieces[i]) implies proto_at(
        s,
        source,
    )(start).is_value(p.protos[i], start + pieces[i].len()) by {
        lemma_proto_roundtrip(s, start, p.protos[i], source);
    }
    lemma_counted_roundtrip(s, at, proto_at(s, source), p.protos, pieces);
    lemma_holds_split(s, at, encode_u32(pieces.len() as u32), concat(pieces));
    lemma_u32_roundtrip(s, at, pieces.len() as u32);
    assert(at + 4 <= s.len()) by {
        reveal(holds_at);
    }
    lemma_nested_are_protos(s, pos, at + 4, p.protos.len(), source);
}

/// A chunk that was written is read.
pub proof fn lemma_chunk_roundtrip(c: BinaryChunkView)
    requires
        encodable_chunk(c),
    ensures
        parse_chunk(encode_chunk(c)).is_value(c, encode_chunk(c).len() as int),
{
    let e = encode_chunk(c);
    assert(holds_at(e, 0, e)) by {
        reveal(holds_at);
        assert(e.subrange(0, e.len() as int) =~= e);
    }
    lemma_holds_split(e, 0, encode_header() + seq![c.size_up_values], encode_proto(c.main_func));
    lemma_holds_split(e, 0, encode_header(), seq![c.size_up_values]);
    lemma_header_exact(e, 0);
    lemma_byte_roundtrip(e, 33, c.size_up_values);
    lemma_proto_roundtrip(e, 34, c.main_func, Seq::empty());
}

/// Where every field that `item` reads is `good`, so is every value of a
/// list of such fields.
pub proof fn lemma_repeated_elements<T>(
    pos: int,
    n: nat,
    item: spec_fn(int) -> Parsed<T>,
    good: spec_fn(T) -> bool,
)
    requires
        forall|p: int| (#[trigger] item(p)) is Value ==> good(item(p)->value),
    ensures
        parse_repeated(pos, n, item) is Value ==> forall|i: int|
            0 <= i < parse_repeated(pos, n, item)->value.len() ==> good(
                #[trigger] parse_repeated(pos, n, item)->value[i],
            ),
    decreases n,
{
    if n > 0 {
        lemma_repeated_elements(pos, (n - 1) as nat, item, good);
    }
}

/// A function prototype that is read under a name that can be written can
/// be written, to be read again under that name.
pub proof fn lemma_parsed_proto_encodable(s: Seq<u8>, pos: int, inherited: Seq<char>)
    requires
        encodable_text(inherited),
    ensures
        parse_proto(s, pos, inherited) is Value ==> encodable_proto(
            parse_proto(s, pos, inherited)->value,
            inherited,
        ),
    decreases s.len() - pos,
{
    if parse_proto(s, pos, inherited) is Value {
        let p = parse_proto(s, pos, inherited)->value;
        let len = s.len() as int;
        let own = parse_string(s, pos);
        let source = resolved_source(own->value, inherited);
        let line_defined = parse_u32(s, own->next);
        let last_line_defined = parse_u32(s, line_defined->next);
        let num_params = parse_byte(s, last_line_defined->next);
        let is_vararg = parse_byte(s, num_params->next);
        let max_stack_size = parse_byte(s, is_vararg->next);
        let code = parse_code(s, max_stack_size->next);
        let constants = parse_constants(s, code->next);
        let up_value_count = parse_u32(s, constants->next);
        let up_values = parse_up_values(s, up_value_count->next, up_value_count->value as nat);
        let proto_count = parse_u32(s, up_values->next);
        let nested = nested_at(s, pos, source);
        let protos = parse_repeated(proto_count->next, proto_count->value as nat, nested);
        let line_info = parse_line_info(s, protos->next);
        let loc_vars = parse_loc_vars(s, line_info->next);
        let up_value_names = parse_up_value_names(s, loc_vars->next);
        lemma_parsed_text_encodable(s, pos);
        lemma_items_advance(s);
        lemma_counted_bounds(s, max_stack_size->next, word_at(s));
        lemma_counted_bounds(s, code->next, constant_at(s));
        lemma_repeated_bounds(
            up_value_count->next,
            up_value_count->value as nat,
            up_value_at(s),
            len,
        );
        assert forall|at: int| (#[trigger] nested(at)) is Value implies 0 <= at <= nested(
            at,
        )->next <= len by {
            lemma_proto_bounds(s, at, source);
        }
        lemma_repeated_bounds(proto_count->next, proto_count->value as nat, nested, len);
        lemma_counted_bounds(s, protos->next, word_at(s));
        lemma_counted_bounds(s, line_info->next, loc_var_at(s));
        lemma_counted_bounds(s, loc_vars->next, string_at(s));

        let good_constant = |c: ConstantView| encodable_constant(c);
        assert forall|at: int| (#[trigger] constant_at(s)(at)) is Value implies good_constant(
            constant_at(s)(at)->value,
        ) by {
            lemma_parsed_constant_encodable(s, at);
        }
        lemma_repeated_elements(
            parse_u32(s, code->next)->next,
            parse_u32(s, code->next)->value as nat,
            constant_at(s),
            good_constant,
        );
        let good_proto = |c: PrototypeView| encodable_proto(c, source);
        assert forall|at: int| (#[trigger] nested(at)) is Value implies good_proto(
            nested(at)->value,
        ) by {
            lemma_parsed_proto_encodable(s, at, source);
        }
        lemma_repeated_elements(
            proto_count->next,
            proto_count->value as nat,
            nested,
            good_proto,
        );
        let good_loc_var = |v: LocVarView| encodable_text(v.var_name);
        assert forall|at: int| (#[trigger] loc_var_at(s)(at)) is Value implies good_loc_var(
            loc_var_at(s)(at)->value,
        ) by {
            lemma_parsed_text_encodable(s, at);
        }
        lemma_repeated_elements(
            parse_u32(s, line_info->next)->next,
            parse_u32(s, line_info->next)->value as nat,
            loc_var_at(s),
            good_loc_var,
        );
        let good_text = |t: Seq<char>| encodable_text(t);
        assert forall|at: int| (#[trigger] string_at(s)(at)) is Value implies good_text(
            string_at(s)(at)->value,
        ) by {
            lemma_parsed_text_encodable(s, at);
        }
        lemma_repeated_elements(
            parse_u32(s, loc_vars->next)->next,
            parse_u32(s, loc_vars->next)->value as nat,
            string_at(s),
            good_text,
        );
        assert forall|i: int| 0 <= i < p.constants.len() implies encodable_constant(
            #[trigger] p.constants[i],
        ) by {
            assert(good_constant(p.constants[i]));
        }
        assert forall|i: int| 0 <= i < p.protos.len() implies encodable_proto(
            #[trigger] p.protos[i],
            p.source,
        ) by {
            assert(good_proto(p.protos[i]));
        }
        assert forall|i: int| 0 <= i < p.loc_vars.len() implies encodable_text(
            (#[trigger] p.loc_vars[i]).var_name,
        ) by {
            assert(good_loc_var(p.loc_vars[i]));
        }
        assert forall|i: int| 0 <= i < p.up_value_names.len() implies encodable_text(
            #[trigger] p.up_value_names[i],
        ) by {
            assert(good_text(p.up_value_names[i]));
        }
    }
}

/// A chunk that is read can be written.
pub proof fn lemma_parsed_chunk_encodable(s: Seq<u8>)
    ensures
        parse_chunk(s) is Value ==> encodable_chunk(parse_chunk(s)->value),
{
    lemma_header_exact(s, 0);
    assert(encodable_text(Seq::empty())) by {
        assert(encode_utf8(Seq::empty()).len() == 0) by {
            reveal_with_fuel(encode_utf8, 1);
        }
    }
    lemma_parsed_proto_encodable(s, 34, Seq::empty());
}

} // verus!
