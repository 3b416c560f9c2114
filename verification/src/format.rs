//! The wire format, as mathematics: what each field of a chunk denotes, given
//! the bytes of a buffer and the offset at which the field starts.
//!
//! Every function here maps a buffer and an offset to a [`Parsed`] result:
//! the value and the offset just behind it, or the failure and the offset of
//! the field that could not be read.

use vstd::prelude::*;
use vstd::utf8::{decode_utf8, valid_utf8};
use crate::binary_chunk::{
    BinaryChunkView, ConstantValueView, ConstantView, Header, LocVarView, PrototypeView, UpValue,
};
use crate::error::{ErrorKind, HeaderField};

verus! {

/// What reading one field gives.
pub enum Parsed<T> {
    /// The field was read: its value, and the offset of the byte behind it.
    Value { value: T, next: int },
    /// The field could not be read: why, and the offset at which it starts.
    Failure { kind: ErrorKind, offset: int },
}

impl<T> Parsed<T> {
    /// This result is the value `value`, ending at `end`.
    pub open spec fn is_value(self, value: T, end: int) -> bool {
        self == (Parsed::Value { value, next: end })
    }

    /// This result is the failure `kind` at `offset`.
    pub open spec fn is_failure(self, kind: ErrorKind, offset: int) -> bool {
        self == (Parsed::<T>::Failure { kind, offset })
    }

    /// The same failure, for a field of another type.
    pub open spec fn failure<U>(self) -> Parsed<U> {
        Parsed::Failure { kind: self->kind, offset: self->offset }
    }

    /// This result is a failure for want of input.
    pub open spec fn is_truncated(self) -> bool {
        self matches Parsed::Failure { kind, .. } && kind == ErrorKind::TruncatedInput
    }
}

/// The failure for a field that starts at `pos` and runs past the end.
pub open spec fn truncated<T>(pos: int) -> Parsed<T> {
    Parsed::Failure { kind: ErrorKind::TruncatedInput, offset: pos }
}

/// One byte.
pub open spec fn parse_byte(s: Seq<u8>, pos: int) -> Parsed<u8> {
    if 0 <= pos < s.len() {
        Parsed::Value { value: s[pos], next: pos + 1 }
    } else {
        truncated(pos)
    }
}

/// Exactly `n` bytes.
pub open spec fn parse_bytes(s: Seq<u8>, pos: int, n: nat) -> Parsed<Seq<u8>> {
    if 0 <= pos && pos + n <= s.len() {
        Parsed::Value { value: s.subrange(pos, pos + n), next: pos + n }
    } else {
        truncated(pos)
    }
}

/// The number that the bytes of `b` from index `i` on denote, least
/// significant byte first: the sum of `b[i + k] * 256^k`.
pub open spec fn le_value_from(b: Seq<u8>, i: int) -> nat
    decreases b.len() - i,
{
    if 0 <= i < b.len() {
        b[i] as nat + 256 * le_value_from(b, i + 1)
    } else {
        0
    }
}

/// The number that `b` denotes, least significant byte first.
pub open spec fn le_value(b: Seq<u8>) -> nat {
    le_value_from(b, 0)
}

/// A 32-bit unsigned integer: four bytes, least significant first.
pub open spec fn parse_u32(s: Seq<u8>, pos: int) -> Parsed<u32> {
    match parse_bytes(s, pos, 4) {
        Parsed::Value { value, next } => Parsed::Value { value: le_value(value) as u32, next },
        Parsed::Failure { kind, offset } => Parsed::Failure { kind, offset },
    }
}

/// A 64-bit unsigned integer: eight bytes, least significant first.
pub open spec fn parse_u64(s: Seq<u8>, pos: int) -> Parsed<u64> {
    match parse_bytes(s, pos, 8) {
        Parsed::Value { value, next } => Parsed::Value { value: le_value(value) as u64, next },
        Parsed::Failure { kind, offset } => Parsed::Failure { kind, offset },
    }
}

/// A double, as its IEEE-754 bit pattern: the eight bytes are the pattern,
/// least significant first, exactly as for a 64-bit integer.
pub open spec fn parse_f64(s: Seq<u8>, pos: int) -> Parsed<u64> {
    parse_u64(s, pos)
}

/// The offset of the first zero byte at or behind `pos`, or the length of
/// `s` where there is none.
pub open spec fn terminator(s: Seq<u8>, pos: int) -> int
    decreases s.len() - pos,
{
    if 0 <= pos < s.len() {
        if s[pos] == 0 {
            pos
        } else {
            terminator(s, pos + 1)
        }
    } else {
        s.len() as int
    }
}

/// A text: the bytes up to the next zero byte, which is consumed and not part
/// of the text, read as UTF-8. Without a zero byte the input is truncated;
/// the search for it comes before the bytes are looked at.
pub open spec fn parse_string(s: Seq<u8>, pos: int) -> Parsed<Seq<char>> {
    let end = terminator(s, pos);
    if 0 <= pos <= end < s.len() {
        let body = s.subrange(pos, end);
        if valid_utf8(body) {
            Parsed::Value { value: decode_utf8(body), next: end + 1 }
        } else {
            Parsed::Failure { kind: ErrorKind::InvalidText, offset: pos }
        }
    } else {
        truncated(pos)
    }
}

/// The four-byte number with the given bytes, least significant first.
pub open spec fn le4(b0: u8, b1: u8, b2: u8, b3: u8) -> int {
    b0 + 0x100 * b1 + 0x1_0000 * b2 + 0x100_0000 * b3
}

/// The eight-byte number with the given bytes, least significant first.
pub open spec fn le8(b0: u8, b1: u8, b2: u8, b3: u8, b4: u8, b5: u8, b6: u8, b7: u8) -> int {
    le4(b0, b1, b2, b3) + 0x1_0000_0000 * le4(b4, b5, b6, b7)
}

/// Four bytes denote `le4` of them, which fits 32 bits.
pub proof fn lemma_le_value_4(b: Seq<u8>)
    requires
        b.len() == 4,
    ensures
        le_value(b) == le4(b[0], b[1], b[2], b[3]),
        le_value(b) <= u32::MAX,
{
    reveal_with_fuel(le_value_from, 5);
}

/// Eight bytes denote `le8` of them, which fits 64 bits.
pub proof fn lemma_le_value_8(b: Seq<u8>)
    requires
        b.len() == 8,
    ensures
        le_value(b) == le8(b[0], b[1], b[2], b[3], b[4], b[5], b[6], b[7]),
        le_value(b) <= u64::MAX,
{
    reveal_with_fuel(le_value_from, 9);
}

/// `n` fields in a row, the first at `pos`, where `item` gives the field that
/// starts at an offset. The first field that fails is the failure of the whole.
pub open spec fn parse_repeated<T>(pos: int, n: nat, item: spec_fn(int) -> Parsed<T>) -> Parsed<
    Seq<T>,
>
    decreases n,
{
    if n == 0 {
        Parsed::Value { value: Seq::empty(), next: pos }
    } else {
        let front = parse_repeated(pos, (n - 1) as nat, item);
        let last = item(front->next);
        if front is Failure {
            front
        } else if last is Failure {
            last.failure()
        } else {
            Parsed::Value { value: front->value.push(last->value), next: last->next }
        }
    }
}

/// A 32-bit count, then that many fields.
pub open spec fn parse_counted<T>(s: Seq<u8>, pos: int, item: spec_fn(int) -> Parsed<T>) -> Parsed<
    Seq<T>,
> {
    let count = parse_u32(s, pos);
    if count is Failure {
        count.failure()
    } else {
        parse_repeated(count->next, count->value as nat, item)
    }
}

/// The 32-bit word at each offset of `s`.
pub open spec fn word_at(s: Seq<u8>) -> spec_fn(int) -> Parsed<u32> {
    |p: int| parse_u32(s, p)
}

/// The text at each offset of `s`.
pub open spec fn string_at(s: Seq<u8>) -> spec_fn(int) -> Parsed<Seq<char>> {
    |p: int| parse_string(s, p)
}

/// The instructions of a function: a counted list of 32-bit words.
pub open spec fn parse_code(s: Seq<u8>, pos: int) -> Parsed<Seq<u32>> {
    parse_counted(s, pos, word_at(s))
}

/// The tag of the constant `nil`, which has no payload.
pub const TAG_NIL: u8 = 0;

/// The tag of a boolean; the payload is one byte, true unless it is zero.
pub const TAG_BOOLEAN: u8 = 1;

/// The tag of a double; the payload is its eight bytes.
pub const TAG_NUMBER: u8 = 3;

/// The tag of a text; the payload is the text and its zero byte.
pub const TAG_STRING: u8 = 4;

/// The tag of an integer; the payload is its eight bytes in two's complement.
pub const TAG_INTEGER: u8 = 0x13;

/// The signed integer with the 64-bit two's complement pattern `bits`.
pub open spec fn as_signed(bits: u64) -> i64 {
    if bits < 0x8000_0000_0000_0000 {
        bits as i64
    } else {
        (bits - 0x1_0000_0000_0000_0000) as i64
    }
}

/// One constant: a tag byte, then the payload that the tag calls for. A tag
/// outside the five defined ones is a failure at the tag.
pub open spec fn parse_constant(s: Seq<u8>, pos: int) -> Parsed<ConstantView> {
    let tag = parse_byte(s, pos);
    if tag is Failure {
        tag.failure()
    } else if tag->value == TAG_NIL {
        Parsed::Value {
            value: ConstantView { tag: tag->value, value: ConstantValueView::Nil },
            next: tag->next,
        }
    } else if tag->value == TAG_BOOLEAN {
        let flag = parse_byte(s, tag->next);
        if flag is Failure {
            flag.failure()
        } else {
            Parsed::Value {
                value: ConstantView {
                    tag: tag->value,
                    value: ConstantValueView::Boolean(flag->value != 0),
                },
                next: flag->next,
            }
        }
    } else if tag->value == TAG_NUMBER {
        let bits = parse_f64(s, tag->next);
        if bits is Failure {
            bits.failure()
        } else {
            Parsed::Value {
                value: ConstantView {
                    tag: tag->value,
                    value: ConstantValueView::Number(bits->value),
                },
                next: bits->next,
            }
        }
    } else if tag->value == TAG_INTEGER {
        let bits = parse_u64(s, tag->next);
        if bits is Failure {
            bits.failure()
        } else {
            Parsed::Value {
                value: ConstantView {
                    tag: tag->value,
                    value: ConstantValueView::Integer(as_signed(bits->value)),
                },
                next: bits->next,
            }
        }
    } else if tag->value == TAG_STRING {
        let text = parse_string(s, tag->next);
        if text is Failure {
            text.failure()
        } else {
            Parsed::Value {
                value: ConstantView { tag: tag->value, value: ConstantValueView::Str(text->value) },
                next: text->next,
            }
        }
    } else {
        Parsed::Failure { kind: ErrorKind::UnknownConstantTag { tag: tag->value }, offset: pos }
    }
}

/// The constant at each offset of `s`.
pub open spec fn constant_at(s: Seq<u8>) -> spec_fn(int) -> Parsed<ConstantView> {
    |p: int| parse_constant(s, p)
}

/// The constant pool of a function: a counted list of constants.
pub open spec fn parse_constants(s: Seq<u8>, pos: int) -> Parsed<Seq<ConstantView>> {
    parse_counted(s, pos, constant_at(s))
}

/// One captured-variable descriptor: two bytes.
pub open spec fn parse_up_value(s: Seq<u8>, pos: int) -> Parsed<UpValue> {
    let instack = parse_byte(s, pos);
    let idx = parse_byte(s, instack->next);
    if instack is Failure {
        instack.failure()
    } else if idx is Failure {
        idx.failure()
    } else {
        Parsed::Value {
            value: UpValue { instack: instack->value, idx: idx->value },
            next: idx->next,
        }
    }
}

/// The captured-variable descriptor at each offset of `s`.
pub open spec fn up_value_at(s: Seq<u8>) -> spec_fn(int) -> Parsed<UpValue> {
    |p: int| parse_up_value(s, p)
}

/// `n` captured-variable descriptors.
pub open spec fn parse_up_values(s: Seq<u8>, pos: int, n: nat) -> Parsed<Seq<UpValue>> {
    parse_repeated(pos, n, up_value_at(s))
}

/// The source line of each instruction: a counted list of 32-bit words.
pub open spec fn parse_line_info(s: Seq<u8>, pos: int) -> Parsed<Seq<u32>> {
    parse_counted(s, pos, word_at(s))
}

/// The scope of one local variable: its name and two instruction indices.
pub open spec fn parse_loc_var(s: Seq<u8>, pos: int) -> Parsed<LocVarView> {
    let var_name = parse_string(s, pos);
    let start_pc = parse_u32(s, var_name->next);
    let end_pc = parse_u32(s, start_pc->next);
    if var_name is Failure {
        var_name.failure()
    } else if start_pc is Failure {
        start_pc.failure()
    } else if end_pc is Failure {
        end_pc.failure()
    } else {
        Parsed::Value {
            value: LocVarView {
                var_name: var_name->value,
                start_pc: start_pc->value,
                end_pc: end_pc->value,
            },
            next: end_pc->next,
        }
    }
}

/// The local-variable scope at each offset of `s`.
pub open spec fn loc_var_at(s: Seq<u8>) -> spec_fn(int) -> Parsed<LocVarView> {
    |p: int| parse_loc_var(s, p)
}

/// The local variables of a function: a counted list of scopes.
pub open spec fn parse_loc_vars(s: Seq<u8>, pos: int) -> Parsed<Seq<LocVarView>> {
    parse_counted(s, pos, loc_var_at(s))
}

/// The names of the captured variables: a counted list of texts.
pub open spec fn parse_up_value_names(s: Seq<u8>, pos: int) -> Parsed<Seq<Seq<char>>> {
    parse_counted(s, pos, string_at(s))
}

/// The name under which a function is shown: its own, or that of the
/// enclosing function where its own is empty.
pub open spec fn resolved_source(own: Seq<char>, inherited: Seq<char>) -> Seq<char> {
    if own.len() == 0 {
        inherited
    } else {
        own
    }
}

/// The function nested in the one at `pos` that starts at each offset. A
/// nested function starts behind `pos` and within `s`; the test on the offset
/// only shows that the definition is well-founded.
pub open spec fn nested_at(s: Seq<u8>, pos: int, inherited: Seq<char>) -> spec_fn(int) -> Parsed<
    PrototypeView,
>
    decreases s.len() - pos, 0int,
{
    |p: int|
        if pos < p <= s.len() {
            parse_proto(s, p, inherited)
        } else {
            truncated(p)
        }
}

/// One function prototype, nested functions included. Every field is read
/// whatever the source name holds. The nested functions inherit the resolved
/// name.
pub open spec fn parse_proto(s: Seq<u8>, pos: int, inherited: Seq<char>) -> Parsed<PrototypeView>
    decreases s.len() - pos, 1int,
{
    let own = parse_string(s, pos);
    let source = resolved_source(own->value, inherited);
    let line_defined = parse_u32(s, own->next);
    let last_line_defined = parse_u32(s, line_defined->next);
    let num_params = parse_byte(s, last_line_defined->next);
    let is_vararg = parse_byte(s, num_params->next);
    let max_stack_size = parse_byte(s, is_vararg->next);
    let code = parse_code(s, max_stack_size->next);
    let constants = parse_constants(s, code->next);
    let up_value_count = parse_u32(s, constants->next);
    let up_values = parse_up_values(s, up_value_count->next, up_value_count->value as nat);
    let proto_count = parse_u32(s, up_values->next);
    let protos = parse_repeated(
        proto_count->next,
        proto_count->value as nat,
        nested_at(s, pos, source),
    );
    let line_info = parse_line_info(s, protos->next);
    let loc_vars = parse_loc_vars(s, line_info->next);
    let up_value_names = parse_up_value_names(s, loc_vars->next);
    if own is Failure {
        own.failure()
    } else if line_defined is Failure {
        line_defined.failure()
    } else if last_line_defined is Failure {
        last_line_defined.failure()
    } else if num_params is Failure {
        num_params.failure()
    } else if is_vararg is Failure {
        is_vararg.failure()
    } else if max_stack_size is Failure {
        max_stack_size.failure()
    } else if code is Failure {
        code.failure()
    } else if constants is Failure {
        constants.failure()
    } else if up_value_count is Failure {
        up_value_count.failure()
    } else if up_values is Failure {
        up_values.failure()
    } else if proto_count is Failure {
        proto_count.failure()
    } else if protos is Failure {
        protos.failure()
    } else if line_info is Failure {
        line_info.failure()
    } else if loc_vars is Failure {
        loc_vars.failure()
    } else if up_value_names is Failure {
        up_value_names.failure()
    } else {
        Parsed::Value {
            value: PrototypeView {
                source,
                line_defined: line_defined->value,
                last_line_defined: last_line_defined->value,
                num_params: num_params->value,
                is_vararg: is_vararg->value,
                max_stack_size: max_stack_size->value,
                code: code->value,
                constants: constants->value,
                up_values: up_values->value,
                protos: protos->value,
                line_info: line_info->value,
                loc_vars: loc_vars->value,
                up_value_names: up_value_names->value,
            },
            next: up_value_names->next,
        }
    }
}

/// `n` function prototypes in a row, each inheriting the name `inherited`.
pub open spec fn parse_protos(s: Seq<u8>, pos: int, n: nat, inherited: Seq<char>) -> Parsed<
    Seq<PrototypeView>,
> {
    parse_repeated(pos, n, proto_at(s, inherited))
}

/// The function prototype at each offset of `s`.
pub open spec fn proto_at(s: Seq<u8>, inherited: Seq<char>) -> spec_fn(int) -> Parsed<
    PrototypeView,
> {
    |p: int| parse_proto(s, p, inherited)
}

/// The length of the header in bytes.
pub const HEADER_LEN: usize = 33;

/// The failure for a header field that holds `actual`: a size descriptor that
/// differs means a platform this decoder does not read, any other field a
/// malformed header.
pub open spec fn mismatch(field: HeaderField, actual: u64) -> ErrorKind {
    if field.is_size() {
        ErrorKind::UnsupportedPlatform { field, expected: field.expected(), actual }
    } else {
        ErrorKind::MalformedHeader { field, expected: field.expected(), actual }
    }
}

/// One field of the header that starts at `pos`: the field must be there in
/// full, and then hold its expected value.
pub open spec fn parse_header_field(s: Seq<u8>, pos: int, field: HeaderField) -> Parsed<u64> {
    let bytes = parse_bytes(s, pos + field.offset(), field.width());
    if bytes is Failure {
        bytes.failure()
    } else if le_value(bytes->value) != field.expected() {
        Parsed::Failure {
            kind: mismatch(field, le_value(bytes->value) as u64),
            offset: pos + field.offset(),
        }
    } else {
        Parsed::Value { value: field.expected(), next: bytes->next }
    }
}

/// The header: its eleven fields in stream order, the first that fails being
/// the failure of the whole.
pub open spec fn parse_header(s: Seq<u8>, pos: int) -> Parsed<Header> {
    let signature = parse_header_field(s, pos, HeaderField::Signature);
    let version = parse_header_field(s, pos, HeaderField::Version);
    let format = parse_header_field(s, pos, HeaderField::Format);
    let luac_data = parse_header_field(s, pos, HeaderField::LuacData);
    let c_int_size = parse_header_field(s, pos, HeaderField::CIntSize);
    let size_t_size = parse_header_field(s, pos, HeaderField::SizeTSize);
    let instruction_size = parse_header_field(s, pos, HeaderField::InstructionSize);
    let lua_integer_size = parse_header_field(s, pos, HeaderField::LuaIntegerSize);
    let lua_number_size = parse_header_field(s, pos, HeaderField::LuaNumberSize);
    let luac_num = parse_header_field(s, pos, HeaderField::LuacNum);
    let luac_int = parse_header_field(s, pos, HeaderField::LuacInt);
    if signature is Failure {
        signature.failure()
    } else if version is Failure {
        version.failure()
    } else if format is Failure {
        format.failure()
    } else if luac_data is Failure {
        luac_data.failure()
    } else if c_int_size is Failure {
        c_int_size.failure()
    } else if size_t_size is Failure {
        size_t_size.failure()
    } else if instruction_size is Failure {
        instruction_size.failure()
    } else if lua_integer_size is Failure {
        lua_integer_size.failure()
    } else if lua_number_size is Failure {
        lua_number_size.failure()
    } else if luac_num is Failure {
        luac_num.failure()
    } else if luac_int is Failure {
        luac_int.failure()
    } else {
        Parsed::Value { value: Header::expected(), next: pos + HEADER_LEN }
    }
}

/// A whole chunk at the start of `s`: the header, the number of captured
/// variables of the main function, and the main function, which inherits the
/// empty name.
pub open spec fn parse_chunk(s: Seq<u8>) -> Parsed<BinaryChunkView> {
    let header = parse_header(s, 0);
    let size_up_values = parse_byte(s, header->next);
    let main_func = parse_proto(s, size_up_values->next, Seq::empty());
    if header is Failure {
        header.failure()
    } else if size_up_values is Failure {
        size_up_values.failure()
    } else if main_func is Failure {
        main_func.failure()
    } else {
        Parsed::Value {
            value: BinaryChunkView {
                header: header->value,
                size_up_values: size_up_values->value,
                main_func: main_func->value,
            },
            next: main_func->next,
        }
    }
}

/// One byte denotes itself.
pub proof fn lemma_le_value_1(b: Seq<u8>)
    requires
        b.len() == 1,
    ensures
        le_value(b) == b[0],
{
    reveal_with_fuel(le_value_from, 2);
}

/// Six bytes denote the eight-byte number whose two high bytes are zero.
pub proof fn lemma_le_value_6(b: Seq<u8>)
    requires
        b.len() == 6,
    ensures
        le_value(b) == le8(b[0], b[1], b[2], b[3], b[4], b[5], 0, 0),
{
    reveal_with_fuel(le_value_from, 7);
}

} // verus!
