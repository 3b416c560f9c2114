//! What becomes of a read when the buffer is cut short: a field that ends
//! within what is left is read as before, and a field that starts within it
//! and ends behind it fails for want of input, and in no other way.

use vstd::prelude::*;
use crate::bounds::{
    advances, lemma_counted_bounds, lemma_items_advance, lemma_proto_bounds,
    lemma_repeated_bounds, lemma_terminator_bounds,
};
use crate::error::HeaderField;
use crate::format::{
    constant_at, loc_var_at, nested_at, parse_byte, parse_bytes, parse_chunk, parse_code,
    parse_constant, parse_constants, parse_counted, parse_header, parse_header_field,
    parse_line_info, parse_loc_var, parse_loc_vars, parse_proto, parse_repeated, parse_string,
    parse_u32, parse_u64, parse_up_value, parse_up_value_names, parse_up_values,
    resolved_source, string_at, terminator, up_value_at, word_at, Parsed,
};

verus! {

/// `cut` is what the read `full`, which started at `pos`, becomes when only
/// the first `k` bytes of the buffer are left.
pub open spec fn cut_of<T>(full: Parsed<T>, cut: Parsed<T>, pos: int, k: int) -> bool {
    full is Value ==> {
        &&& full->next <= k ==> cut == full
        &&& pos <= k < full->next ==> cut.is_truncated()
    }
}

/// At every offset, `cut` is what `full` becomes when only the first `k`
/// bytes are left.
pub open spec fn cut_respects<T>(
    full: spec_fn(int) -> Parsed<T>,
    cut: spec_fn(int) -> Parsed<T>,
    k: int,
) -> bool {
    forall|p: int| cut_of(#[trigger] full(p), cut(p), p, k)
}

/// A run of bytes, cut.
pub proof fn lemma_cut_bytes(s: Seq<u8>, k: int, pos: int, n: nat)
    requires
        0 <= k <= s.len(),
    ensures
        cut_of(parse_bytes(s, pos, n), parse_bytes(s.take(k), pos, n), pos, k),
{
    if 0 <= pos && pos + n <= k {
        assert(s.take(k).subrange(pos, pos + n) =~= s.subrange(pos, pos + n));
    }
}

/// A byte and the two widths of integer, cut.
pub proof fn lemma_cut_fixed(s: Seq<u8>, k: int, pos: int)
    requires
        0 <= k <= s.len(),
    ensures
        cut_of(parse_byte(s, pos), parse_byte(s.take(k), pos), pos, k),
        cut_of(parse_u32(s, pos), parse_u32(s.take(k), pos), pos, k),
        cut_of(parse_u64(s, pos), parse_u64(s.take(k), pos), pos, k),
{
    lemma_cut_bytes(s, k, pos, 4);
    lemma_cut_bytes(s, k, pos, 8);
}

/// The end of a text, cut: a zero byte that is left is found again, and
/// where it is not left none is found.
pub proof fn lemma_cut_terminator(s: Seq<u8>, k: int, pos: int)
    requires
        0 <= k <= s.len(),
        0 <= pos <= k,
    ensures
        terminator(s, pos) < k ==> terminator(s.take(k), pos) == terminator(s, pos),
        terminator(s, pos) >= k ==> terminator(s.take(k), pos) == k,
    decreases k - pos,
{
    lemma_terminator_bounds(s, pos);
    if pos < k && s[pos] != 0 {
        lemma_cut_terminator(s, k, pos + 1);
    }
}

/// A text, cut.
pub proof fn lemma_cut_string(s: Seq<u8>, k: int, pos: int)
    requires
        0 <= k <= s.len(),
    ensures
        cut_of(parse_string(s, pos), parse_string(s.take(k), pos), pos, k),
{
    if parse_string(s, pos) is Value && pos <= k {
        lemma_cut_terminator(s, k, pos);
        let end = terminator(s, pos);
        if end < k {
            assert(s.take(k).subrange(pos, end) =~= s.subrange(pos, end));
        }
    }
}

/// A constant, cut.
pub proof fn lemma_cut_constant(s: Seq<u8>, k: int, pos: int)
    requires
        0 <= k <= s.len(),
    ensures
        cut_of(parse_constant(s, pos), parse_constant(s.take(k), pos), pos, k),
{
    lemma_cut_fixed(s, k, pos);
    lemma_cut_fixed(s, k, pos + 1);
    lemma_cut_string(s, k, pos + 1);
}

/// A captured-variable descriptor, cut.
pub proof fn lemma_cut_up_value(s: Seq<u8>, k: int, pos: int)
    requires
        0 <= k <= s.len(),
    ensures
        cut_of(parse_up_value(s, pos), parse_up_value(s.take(k), pos), pos, k),
{
    lemma_cut_fixed(s, k, pos);
    lemma_cut_fixed(s, k, pos + 1);
}

/// The scope of a local variable, cut.
pub proof fn lemma_cut_loc_var(s: Seq<u8>, k: int, pos: int)
    requires
        0 <= k <= s.len(),
    ensures
        cut_of(parse_loc_var(s, pos), parse_loc_var(s.take(k), pos), pos, k),
{
    lemma_cut_string(s, k, pos);
    let var_name = parse_string(s, pos);
    if var_name is Value {
        lemma_cut_fixed(s, k, var_name->next);
        lemma_cut_fixed(s, k, var_name->next + 4);
    }
}

/// The elements of the lists, cut.
pub proof fn lemma_cut_items(s: Seq<u8>, k: int)
    requires
        0 <= k <= s.len(),
    ensures
        cut_respects(word_at(s), word_at(s.take(k)), k),
        cut_respects(string_at(s), string_at(s.take(k)), k),
        cut_respects(constant_at(s), constant_at(s.take(k)), k),
        cut_respects(up_value_at(s), up_value_at(s.take(k)), k),
        cut_respects(loc_var_at(s), loc_var_at(s.take(k)), k),
{
    let t = s.take(k);
    assert forall|p: int| cut_of(#[trigger] word_at(s)(p), word_at(t)(p), p, k) by {
        lemma_cut_fixed(s, k, p);
    }
    assert forall|p: int| cut_of(#[trigger] string_at(s)(p), string_at(t)(p), p, k) by {
        lemma_cut_string(s, k, p);
    }
    assert forall|p: int| cut_of(#[trigger] constant_at(s)(p), constant_at(t)(p), p, k) by {
        lemma_cut_constant(s, k, p);
    }
    assert forall|p: int| cut_of(#[trigger] up_value_at(s)(p), up_value_at(t)(p), p, k) by {
        lemma_cut_up_value(s, k, p);
    }
    assert forall|p: int| cut_of(#[trigger] loc_var_at(s)(p), loc_var_at(t)(p), p, k) by {
        lemma_cut_loc_var(s, k, p);
    }
}

/// A list, cut.
pub proof fn lemma_cut_repeated<T>(
    pos: int,
    n: nat,
    full: spec_fn(int) -> Parsed<T>,
    cut: spec_fn(int) -> Parsed<T>,
    k: int,
    len: int,
)
    requires
        advances(full, len),
        cut_respects(full, cut, k),
        0 <= pos <= len,
    ensures
        cut_of(parse_repeated(pos, n, full), parse_repeated(pos, n, cut), pos, k),
    decreases n,
{
    if n > 0 && parse_repeated(pos, n, full) is Value {
        let front = parse_repeated(pos, (n - 1) as nat, full);
        lemma_cut_repeated(pos, (n - 1) as nat, full, cut, k, len);
        lemma_repeated_bounds(pos, (n - 1) as nat, full, len);
        assert(cut_of(full(front->next), cut(front->next), front->next, k));
    }
}

/// A counted list, cut.
pub proof fn lemma_cut_counted<T>(
    s: Seq<u8>,
    k: int,
    pos: int,
    full: spec_fn(int) -> Parsed<T>,
    cut: spec_fn(int) -> Parsed<T>,
)
    requires
        0 <= k <= s.len(),
        advances(full, s.len() as int),
        cut_respects(full, cut, k),
    ensures
        cut_of(parse_counted(s, pos, full), parse_counted(s.take(k), pos, cut), pos, k),
{
    let count = parse_u32(s, pos);
    if count is Value {
        lemma_cut_fixed(s, k, pos);
        lemma_cut_repeated(count->next, count->value as nat, full, cut, k, s.len() as int);
        lemma_repeated_bounds(count->next, count->value as nat, full, s.len() as int);
    }
}

/// One header field, cut.
pub proof fn lemma_cut_header_field(s: Seq<u8>, k: int, pos: int, field: HeaderField)
    requires
        0 <= k <= s.len(),
    ensures
        cut_of(
            parse_header_field(s, pos, field),
            parse_header_field(s.take(k), pos, field),
            pos + field.offset(),
            k,
        ),
{
    lemma_cut_bytes(s, k, pos + field.offset(), field.width());
}

/// The header, cut.
pub proof fn lemma_cut_header(s: Seq<u8>, k: int, pos: int)
    requires
        0 <= k <= s.len(),
    ensures
        cut_of(parse_header(s, pos), parse_header(s.take(k), pos), pos, k),
{
    lemma_cut_header_field(s, k, pos, HeaderField::Signature);
    lemma_cut_header_field(s, k, pos, HeaderField::Version);
    lemma_cut_header_field(s, k, pos, HeaderField::Format);
    lemma_cut_header_field(s, k, pos, HeaderField::LuacData);
    lemma_cut_header_field(s, k, pos, HeaderField::CIntSize);
    lemma_cut_header_field(s, k, pos, HeaderField::SizeTSize);
    lemma_cut_header_field(s, k, pos, HeaderField::InstructionSize);
    lemma_cut_header_field(s, k, pos, HeaderField::LuaIntegerSize);
    lemma_cut_header_field(s, k, pos, HeaderField::LuaNumberSize);
    lemma_cut_header_field(s, k, pos, HeaderField::LuacNum);
    lemma_cut_header_field(s, k, pos, HeaderField::LuacInt);
}

/// A function prototype, cut.
pub proof fn lemma_cut_proto(s: Seq<u8>, k: int, pos: int, inherited: Seq<char>)
    requires
        0 <= k <= s.len(),
    ensures
        cut_of(parse_proto(s, pos, inherited), parse_proto(s.take(k), pos, inherited), pos, k),
    decreases s.len() - pos,
{
    if parse_proto(s, pos, inherited) is Value {
        let t = s.take(k);
        let len = s.len() as int;
        let own = parse_string(s, pos);
        let source = resolved_source(own->value, inherited);
        let line_defined = parse_u32(s, own->next);
        let last_line_defined = parse_u32(s, line_defined->next);
        let num_params = parse_byte(s, last_line_defined->next);
        let is_vararg = parse_byte(s, num_params->next);
        let max_stack_size = parse_byte(s, is_vararg->next);
        let code = parse_code(s, max_stack_size->next);
        let constants = parse_constants(s, code->next);
        let up_value_count = parse_u32(s, constants->next);
        let up_values = parse_up_values(s, up_value_count->next, up_value_count->value as nat);
        let proto_count = parse_u32(s, up_values->next);
        let nested = nested_at(s, pos, source);
        let nested_cut = nested_at(t, pos, source);
        let protos = parse_repeated(proto_count->next, proto_count->value as nat, nested);
        let line_info = parse_line_info(s, protos->next);
        let loc_vars = parse_loc_vars(s, line_info->next);
        let up_value_names = parse_up_value_names(s, loc_vars->next);
        lemma_items_advance(s);
        lemma_cut_items(s, k);
        lemma_cut_string(s, k, pos);
        lemma_cut_fixed(s, k, own->next);
        lemma_cut_fixed(s, k, line_defined->next);
        lemma_cut_fixed(s, k, last_line_defined->next);
        lemma_cut_fixed(s, k, num_params->next);
        lemma_cut_fixed(s, k, is_vararg->next);
        lemma_counted_bounds(s, max_stack_size->next, word_at(s));
        lemma_cut_counted(s, k, max_stack_size->next, word_at(s), word_at(t));
        lemma_counted_bounds(s, code->next, constant_at(s));
        lemma_cut_counted(s, k, code->next, constant_at(s), constant_at(t));
        lemma_cut_fixed(s, k, constants->next);
        lemma_repeated_bounds(
            up_value_count->next,
            up_value_count->value as nat,
            up_value_at(s),
            len,
        );
        lemma_cut_repeated(
            up_value_count->next,
            up_value_count->value as nat,
            up_value_at(s),
            up_value_at(t),
            k,
            len,
        );
        lemma_cut_fixed(s, k, up_values->next);
        assert forall|p: int| (#[trigger] nested(p)) is Value implies 0 <= p <= nested(p)->next
            <= len by {
            lemma_proto_bounds(s, p, source);
        }
        assert forall|p: int| cut_of(#[trigger] nested(p), nested_cut(p), p, k) by {
            if pos < p <= len {
                lemma_proto_bounds(s, p, source);
                lemma_cut_proto(s, k, p, source);
            }
        }
        lemma_repeated_bounds(proto_count->next, proto_count->value as nat, nested, len);
        lemma_cut_repeated(
            proto_count->next,
            proto_count->value as nat,
            nested,
            nested_cut,
            k,
            len,
        );
        lemma_counted_bounds(s, protos->next, word_at(s));
        lemma_cut_counted(s, k, protos->next, word_at(s), word_at(t));
        lemma_counted_bounds(s, line_info->next, loc_var_at(s));
        lemma_cut_counted(s, k, line_info->next, loc_var_at(s), loc_var_at(t));
        lemma_counted_bounds(s, loc_vars->next, string_at(s));
        lemma_cut_counted(s, k, loc_vars->next, string_at(s), string_at(t));
    }
}

/// A chunk, cut.
pub proof fn lemma_cut_chunk(s: Seq<u8>, k: int)
    requires
        0 <= k <= s.len(),
    ensures
        cut_of(parse_chunk(s), parse_chunk(s.take(k)), 0, k),
{
    let header = parse_header(s, 0);
    lemma_cut_header(s, k, 0);
    lemma_cut_fixed(s, k, header->next);
    lemma_cut_proto(s, k, header->next + 1, Seq::empty());
    lemma_proto_bounds(s, header->next + 1, Seq::empty());
}

} // verus!
