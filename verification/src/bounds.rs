//! Where a field ends: every field that is read ends within the buffer and
//! not before its own start, and a list fails as soon as one element has.

use vstd::prelude::*;
use crate::format::{
    constant_at, loc_var_at, nested_at, parse_byte, parse_code, parse_constant, parse_constants,
    parse_counted, parse_line_info, parse_loc_vars, parse_proto, parse_protos, parse_repeated,
    parse_string, parse_u32, parse_up_values, proto_at, resolved_source, string_at, terminator,
    up_value_at, word_at, Parsed,
};

verus! {

/// Every field that `item` reads starts at or behind offset 0 and ends at or
/// behind its start, within `len`.
pub open spec fn advances<T>(item: spec_fn(int) -> Parsed<T>, len: int) -> bool {
    forall|p: int| (#[trigger] item(p)) is Value ==> 0 <= p <= item(p)->next <= len
}

/// A list that has failed after `i` elements has failed, in the same way,
/// after any greater number.
pub proof fn lemma_repeated_failure_stays<T>(
    pos: int,
    i: nat,
    n: nat,
    item: spec_fn(int) -> Parsed<T>,
)
    requires
        i <= n,
        parse_repeated(pos, i, item) is Failure,
    ensures
        parse_repeated(pos, n, item) == parse_repeated(pos, i, item),
    decreases n - i,
{
    if i < n {
        lemma_repeated_failure_stays(pos, i, (n - 1) as nat, item);
    }
}

/// A list of `n` fields holds `n` values and ends within the buffer, not
/// before its start.
pub proof fn lemma_repeated_bounds<T>(pos: int, n: nat, item: spec_fn(int) -> Parsed<T>, len: int)
    requires
        advances(item, len),
        0 <= pos <= len,
    ensures
        parse_repeated(pos, n, item) is Value ==> {
            &&& pos <= parse_repeated(pos, n, item)->next <= len
            &&& parse_repeated(pos, n, item)->value.len() == n
        },
    decreases n,
{
    if n > 0 {
        lemma_repeated_bounds(pos, (n - 1) as nat, item, len);
    }
}

/// Two ways to read a field that agree from `pos` on give the same list.
pub proof fn lemma_repeated_agree<T>(
    pos: int,
    n: nat,
    f: spec_fn(int) -> Parsed<T>,
    g: spec_fn(int) -> Parsed<T>,
    len: int,
)
    requires
        advances(g, len),
        0 <= pos <= len,
        forall|p: int| pos <= p <= len ==> #[trigger] f(p) == g(p),
    ensures
        parse_repeated(pos, n, f) == parse_repeated(pos, n, g),
    decreases n,
{
    if n > 0 {
        lemma_repeated_agree(pos, (n - 1) as nat, f, g, len);
        lemma_repeated_bounds(pos, (n - 1) as nat, g, len);
    }
}

/// The zero byte that ends a text is not before the text.
pub proof fn lemma_terminator_bounds(s: Seq<u8>, pos: int)
    requires
        0 <= pos,
    ensures
        pos <= s.len() ==> pos <= terminator(s, pos) <= s.len(),
        terminator(s, pos) < s.len() ==> s[terminator(s, pos)] == 0,
        forall|i: int| pos <= i < terminator(s, pos) ==> s[i] != 0,
    decreases s.len() - pos,
{
    if pos < s.len() && s[pos] != 0 {
        lemma_terminator_bounds(s, pos + 1);
    }
}

/// Words, texts, constants, descriptors and scopes end within the buffer.
pub proof fn lemma_items_advance(s: Seq<u8>)
    ensures
        advances(word_at(s), s.len() as int),
        advances(string_at(s), s.len() as int),
        advances(constant_at(s), s.len() as int),
        advances(up_value_at(s), s.len() as int),
        advances(loc_var_at(s), s.len() as int),
{
    assert forall|p: int| (#[trigger] constant_at(s)(p)) is Value implies 0 <= p <= constant_at(
        s,
    )(p)->next <= s.len() by {
        lemma_constant_bounds(s, p);
    }
}

/// A constant takes at least its tag.
pub proof fn lemma_constant_bounds(s: Seq<u8>, pos: int)
    ensures
        parse_constant(s, pos) is Value ==> 0 <= pos < parse_constant(s, pos)->next <= s.len(),
{
}

/// A counted list ends within the buffer, behind its count.
pub proof fn lemma_counted_bounds<T>(s: Seq<u8>, pos: int, item: spec_fn(int) -> Parsed<T>)
    requires
        advances(item, s.len() as int),
    ensures
        parse_counted(s, pos, item) is Value ==> {
            &&& 0 <= pos < parse_counted(s, pos, item)->next <= s.len()
            &&& parse_counted(s, pos, item)->value.len() == parse_u32(s, pos)->value
        },
{
    let count = parse_u32(s, pos);
    if count is Value {
        lemma_repeated_bounds(count->next, count->value as nat, item, s.len() as int);
    }
}

/// A function prototype ends within the buffer, behind its start.
pub proof fn lemma_proto_bounds(s: Seq<u8>, pos: int, inherited: Seq<char>)
    ensures
        parse_proto(s, pos, inherited) is Value ==> 0 <= pos < parse_proto(
            s,
            pos,
            inherited,
        )->next <= s.len(),
    decreases s.len() - pos,
{
    if parse_proto(s, pos, inherited) is Value {
        let len = s.len() as int;
        let own = parse_string(s, pos);
        let source = resolved_source(own->value, inherited);
        let line_defined = parse_u32(s, own->next);
        let last_line_defined = parse_u32(s, line_defined->next);
        let num_params = parse_byte(s, last_line_defined->next);
        let is_vararg = parse_byte(s, num_params->next);
        let max_stack_size = parse_byte(s, is_vararg->next);
        let code = parse_code(s, max_stack_size->next);
        let constants = parse_constants(s, code->next);
        let up_value_count = parse_u32(s, constants->next);
        let up_values = parse_up_values(s, up_value_count->next, up_value_count->value as nat);
        let proto_count = parse_u32(s, up_values->next);
        let nested = nested_at(s, pos, source);
        let protos = parse_repeated(proto_count->next, proto_count->value as nat, nested);
        let line_info = parse_line_info(s, protos->next);
        let loc_vars = parse_loc_vars(s, line_info->next);
        lemma_items_advance(s);
        lemma_counted_bounds(s, max_stack_size->next, word_at(s));
        lemma_counted_bounds(s, code->next, constant_at(s));
        lemma_repeated_bounds(
            up_value_count->next,
            up_value_count->value as nat,
            up_value_at(s),
            len,
        );
        assert forall|p: int| (#[trigger] nested(p)) is Value implies 0 <= p <= nested(p)->next
            <= len by {
            if pos < p <= len {
                lemma_proto_bounds(s, p, source);
            }
        }
        lemma_repeated_bounds(proto_count->next, proto_count->value as nat, nested, len);
        lemma_counted_bounds(s, protos->next, word_at(s));
        lemma_counted_bounds(s, line_info->next, loc_var_at(s));
        lemma_counted_bounds(s, loc_vars->next, string_at(s));
    }
}

/// Function prototypes end within the buffer.
pub proof fn lemma_protos_advance(s: Seq<u8>, inherited: Seq<char>)
    ensures
        advances(proto_at(s, inherited), s.len() as int),
{
    assert forall|p: int| (#[trigger] proto_at(s, inherited)(p)) is Value implies 0 <= p
        <= proto_at(s, inherited)(p)->next <= s.len() by {
        lemma_proto_bounds(s, p, inherited);
    }
}

/// The functions nested in the one at `pos` are the function prototypes that
/// follow each other from `start` on, wherever `start` lies behind `pos`.
pub proof fn lemma_nested_are_protos(
    s: Seq<u8>,
    pos: int,
    start: int,
    n: nat,
    inherited: Seq<char>,
)
    requires
        0 <= pos < start <= s.len(),
    ensures
        parse_repeated(start, n, nested_at(s, pos, inherited)) == parse_protos(
            s,
            start,
            n,
            inherited,
        ),
{
    lemma_protos_advance(s, inherited);
    lemma_repeated_agree(
        start,
        n,
        nested_at(s, pos, inherited),
        proto_at(s, inherited),
        s.len() as int,
    );
}

} // verus!
