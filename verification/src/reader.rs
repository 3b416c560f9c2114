//! The byte cursor, and the decoder built on it.

use vstd::prelude::*;
use vstd::utf8::{encode_utf8, encode_utf8_decode_utf8, valid_utf8};
use crate::binary_chunk::{
    lemma_view_protos, views, BinaryChunk, Constant, ConstantValue, Header, LocVar, Prototype,
    UpValue,
};
use crate::bounds::{
    lemma_counted_bounds, lemma_items_advance, lemma_nested_are_protos, lemma_protos_advance,
    lemma_repeated_bounds, lemma_repeated_failure_stays,
};
use crate::error::{DecodeError, ErrorKind, HeaderField};
use crate::format::{
    as_signed, constant_at, le4, le_value, lemma_le_value_1, lemma_le_value_4, lemma_le_value_6,
    lemma_le_value_8, loc_var_at, mismatch, parse_byte, parse_bytes, parse_chunk, parse_code,
    parse_constant, parse_constants, parse_f64, parse_header, parse_header_field, parse_line_info,
    parse_loc_var, parse_loc_vars, parse_proto, parse_protos, parse_repeated, parse_string,
    parse_u32, parse_u64, parse_up_value, parse_up_value_names, parse_up_values, proto_at,
    resolved_source, string_at, terminator, up_value_at, word_at, TAG_BOOLEAN, TAG_INTEGER,
    TAG_NIL, TAG_NUMBER, TAG_STRING,
};

verus! {

/// Calls `String::from_utf8`. Taken on trust from its documentation, not
/// proved: it succeeds exactly when `bytes` is well-formed UTF-8, and the
/// text it then gives is the one whose UTF-8 encoding is `bytes`.
#[verifier::external_body]
fn string_from_utf8(bytes: Vec<u8>) -> (r: Option<String>)
    ensures
        r is Some <==> valid_utf8(bytes@),
        r matches Some(t) ==> encode_utf8(t@) == bytes@,
{
    match String::from_utf8(bytes) {
        Ok(text) => Some(text),
        Err(_) => None,
    }
}

/// The signed integer with the two's complement pattern `bits`.
fn to_signed(bits: u64) -> (v: i64)
    ensures
        v == as_signed(bits),
{
    if bits < 0x8000_0000_0000_0000 {
        bits as i64
    } else {
        ((bits - 0x8000_0000_0000_0000) as i64) + i64::MIN
    }
}

/// The number that six bytes denote, least significant first.
fn le_pack6(b: &Vec<u8>) -> (v: u64)
    requires
        b.len() == 6,
    ensures
        v == le_value(b@),
{
    let b0 = b[0];
    let b1 = b[1];
    let b2 = b[2];
    let b3 = b[3];
    let b4 = b[4];
    let b5 = b[5];
    let lo: u64 = (b0 as u64) | ((b1 as u64) << 8) | ((b2 as u64) << 16) | ((b3 as u64) << 24);
    let hi: u64 = ((b4 as u64) << 32) | ((b5 as u64) << 40);
    let v: u64 = lo | hi;
    proof {
        assert(lo == le4(b0, b1, b2, b3)) by (bit_vector)
            requires
                lo == (b0 as u64) | ((b1 as u64) << 8) | ((b2 as u64) << 16) | ((b3 as u64) << 24),
        ;
        assert(hi == 0x1_0000_0000 * le4(b4, b5, 0, 0)) by (bit_vector)
            requires
                hi == ((b4 as u64) << 32) | ((b5 as u64) << 40),
        ;
        assert(hi & 0xffff_ffff == 0) by (bit_vector)
            requires
                hi == ((b4 as u64) << 32) | ((b5 as u64) << 40),
        ;
        assert(v == lo + hi) by (bit_vector)
            requires
                v == lo | hi,
                lo <= 0xffff_ffff,
                hi & 0xffff_ffff == 0,
        ;
        lemma_le_value_6(b@);
    }
    v
}

/// The failure for the header field `field` that holds `actual`.
fn header_mismatch(field: HeaderField, expected: u64, actual: u64) -> (kind: ErrorKind)
    requires
        expected == field.expected(),
    ensures
        kind == mismatch(field, actual),
{
    match field {
        HeaderField::CIntSize
        | HeaderField::SizeTSize
        | HeaderField::InstructionSize
        | HeaderField::LuaIntegerSize
        | HeaderField::LuaNumberSize => ErrorKind::UnsupportedPlatform { field, expected, actual },
        _ => ErrorKind::MalformedHeader { field, expected, actual },
    }
}

/// A buffer and a read position in it. Every read either consumes exactly the
/// bytes of one field, or fails and leaves the position at the start of the
/// field that could not be read.
#[derive(Debug)]
pub struct Reader {
    data: Vec<u8>,
    pos: usize,
}

/// Mathematical value of a [`Reader`].
pub struct ReaderView {
    pub bytes: Seq<u8>,
    pub pos: int,
}

impl View for Reader {
    type V = ReaderView;

    closed spec fn view(&self) -> ReaderView {
        ReaderView { bytes: self.data@, pos: self.pos as int }
    }
}

impl Reader {
    #[verifier::type_invariant]
    spec fn in_bounds(self) -> bool {
        self.pos <= self.data.len()
    }

    /// A cursor at the start of `data`.
    pub fn new(data: Vec<u8>) -> (r: Self)
        ensures
            r@.bytes == data@,
            r@.pos == 0,
    {
        Reader { data, pos: 0 }
    }

    /// The offset of the next byte to read.
    pub fn position(&self) -> (p: usize)
        ensures
            p == self@.pos,
            p <= self@.bytes.len(),
    {
        proof {
            use_type_invariant(self);
        }
        self.pos
    }

    /// Reads one byte.
    pub fn read_byte(&mut self) -> (r: Result<u8, DecodeError>)
        ensures
            final(self)@.bytes == old(self)@.bytes,
            match r {
                Ok(v) => parse_byte(old(self)@.bytes, old(self)@.pos).is_value(v, final(self)@.pos),
                Err(e) => parse_byte(old(self)@.bytes, old(self)@.pos).is_failure(
                    e.kind,
                    e.offset as int,
                ) && final(self)@.pos == e.offset,
            },
    {
        proof {
            use_type_invariant(&*self);
        }
        if self.pos < self.data.len() {
            let byte = self.data[self.pos];
            self.pos += 1;
            Ok(byte)
        } else {
            Err(DecodeError { kind: ErrorKind::TruncatedInput, offset: self.pos })
        }
    }

    /// Reads a 32-bit unsigned integer, least significant byte first.
    pub fn read_u32(&mut self) -> (r: Result<u32, DecodeError>)
        ensures
            final(self)@.bytes == old(self)@.bytes,
            match r {
                Ok(v) => parse_u32(old(self)@.bytes, old(self)@.pos).is_value(v, final(self)@.pos),
                Err(e) => parse_u32(old(self)@.bytes, old(self)@.pos).is_failure(
                    e.kind,
                    e.offset as int,
                ) && final(self)@.pos == e.offset,
            },
    {
        proof {
            use_type_invariant(&*self);
        }
        if self.data.len() - self.pos < 4 {
            return Err(DecodeError { kind: ErrorKind::TruncatedInput, offset: self.pos });
        }
        let b0 = self.data[self.pos];
        let b1 = self.data[self.pos + 1];
        let b2 = self.data[self.pos + 2];
        let b3 = self.data[self.pos + 3];
        let v: u32 = (b0 as u32) | ((b1 as u32) << 8) | ((b2 as u32) << 16) | ((b3 as u32) << 24);
        proof {
            assert(v == le4(b0, b1, b2, b3)) by (bit_vector)
                requires
                    v == (b0 as u32) | ((b1 as u32) << 8) | ((b2 as u32) << 16) | ((b3 as u32)
                        << 24),
            ;
            lemma_le_value_4(self.data@.subrange(self.pos as int, self.pos + 4));
        }
        self.pos += 4;
        Ok(v)
    }

    /// Reads a 64-bit unsigned integer, least significant byte first.
    pub fn read_u64(&mut self) -> (r: Result<u64, DecodeError>)
        ensures
            final(self)@.bytes == old(self)@.bytes,
            match r {
                Ok(v) => parse_u64(old(self)@.bytes, old(self)@.pos).is_value(v, final(self)@.pos),
                Err(e) => parse_u64(old(self)@.bytes, old(self)@.pos).is_failure(
                    e.kind,
                    e.offset as int,
                ) && final(self)@.pos == e.offset,
            },
    {
        proof {
            use_type_invariant(&*self);
        }
        if self.data.len() - self.pos < 8 {
            return Err(DecodeError { kind: ErrorKind::TruncatedInput, offset: self.pos });
        }
        let b0 = self.data[self.pos];
        let b1 = self.data[self.pos + 1];
        let b2 = self.data[self.pos + 2];
        let b3 = self.data[self.pos + 3];
        let b4 = self.data[self.pos + 4];
        let b5 = self.data[self.pos + 5];
        let b6 = self.data[self.pos + 6];
        let b7 = self.data[self.pos + 7];
        let lo: u64 = (b0 as u64) | ((b1 as u64) << 8) | ((b2 as u64) << 16) | ((b3 as u64) << 24);
        let hi: u64 = ((b4 as u64) << 32) | ((b5 as u64) << 40) | ((b6 as u64) << 48) | ((b7 as u64)
            << 56);
        let v: u64 = lo | hi;
        proof {
            assert(lo == le4(b0, b1, b2, b3)) by (bit_vector)
                requires
                    lo == (b0 as u64) | ((b1 as u64) << 8) | ((b2 as u64) << 16) | ((b3 as u64)
                        << 24),
            ;
            assert(hi == 0x1_0000_0000 * le4(b4, b5, b6, b7)) by (bit_vector)
                requires
                    hi == ((b4 as u64) << 32) | ((b5 as u64) << 40) | ((b6 as u64) << 48) | ((
                    b7 as u64) << 56),
            ;
            assert(hi & 0xffff_ffff == 0) by (bit_vector)
                requires
                    hi == ((b4 as u64) << 32) | ((b5 as u64) << 40) | ((b6 as u64) << 48) | ((
                    b7 as u64) << 56),
            ;
            assert(v == lo + hi) by (bit_vector)
                requires
                    v == lo | hi,
                    lo <= 0xffff_ffff,
                    hi & 0xffff_ffff == 0,
            ;
            lemma_le_value_8(self.data@.subrange(self.pos as int, self.pos + 8));
        }
        self.pos += 8;
        Ok(v)
    }

    /// Reads a double and gives its IEEE-754 bit pattern: the eight bytes are
    /// taken as the pattern itself, least significant byte first.
    pub fn read_f64(&mut self) -> (r: Result<u64, DecodeError>)
        ensures
            final(self)@.bytes == old(self)@.bytes,
            match r {
                Ok(v) => parse_f64(old(self)@.bytes, old(self)@.pos).is_value(v, final(self)@.pos),
                Err(e) => parse_f64(old(self)@.bytes, old(self)@.pos).is_failure(
                    e.kind,
                    e.offset as int,
                ) && final(self)@.pos == e.offset,
            },
    {
        self.read_u64()
    }

    /// Reads a text that ends with a zero byte.
    pub fn read_string(&mut self) -> (r: Result<String, DecodeError>)
        ensures
            final(self)@.bytes == old(self)@.bytes,
            match r {
                Ok(v) => parse_string(old(self)@.bytes, old(self)@.pos).is_value(
                    v@,
                    final(self)@.pos,
                ),
                Err(e) => parse_string(old(self)@.bytes, old(self)@.pos).is_failure(
                    e.kind,
                    e.offset as int,
                ) && final(self)@.pos == e.offset,
            },
    {
        proof {
            use_type_invariant(&*self);
        }
        let start = self.pos;
        let mut bytes: Vec<u8> = Vec::new();
        let mut i: usize = start;
        while i < self.data.len() && self.data[i] != 0
            invariant
                start <= i <= self.data.len(),
                self.pos == start,
                self.data@ == old(self).data@,
                bytes@ == self.data@.subrange(start as int, i as int),
                terminator(self.data@, start as int) == terminator(self.data@, i as int),
            decreases self.data.len() - i,
        {
            bytes.push(self.data[i]);
            i += 1;
            assert(bytes@ == self.data@.subrange(start as int, i as int));
        }
        if i >= self.data.len() {
            return Err(DecodeError { kind: ErrorKind::TruncatedInput, offset: start });
        }
        match string_from_utf8(bytes) {
            Some(text) => {
                proof {
                    encode_utf8_decode_utf8(text@);
                }
                self.pos = i + 1;
                Ok(text)
            },
            None => Err(DecodeError { kind: ErrorKind::InvalidText, offset: start }),
        }
    }

    /// Reads exactly `n` bytes.
    pub fn read_bytes(&mut self, n: usize) -> (r: Result<Vec<u8>, DecodeError>)
        ensures
            final(self)@.bytes == old(self)@.bytes,
            match r {
                Ok(v) => parse_bytes(old(self)@.bytes, old(self)@.pos, n as nat).is_value(
                    v@,
                    final(self)@.pos,
                ),
                Err(e) => parse_bytes(old(self)@.bytes, old(self)@.pos, n as nat).is_failure(
                    e.kind,
                    e.offset as int,
                ) && final(self)@.pos == e.offset,
            },
    {
        proof {
            use_type_invariant(&*self);
        }
        if n > self.data.len() - self.pos {
            return Err(DecodeError { kind: ErrorKind::TruncatedInput, offset: self.pos });
        }
        let start = self.pos;
        let mut bytes: Vec<u8> = Vec::new();
        let mut i: usize = 0;
        while i < n
            invariant
                i <= n,
                start + n <= self.data.len(),
                self.pos == start,
                self.data@ == old(self).data@,
                bytes@ == self.data@.subrange(start as int, start + i),
            decreases n - i,
        {
            bytes.push(self.data[start + i]);
            i += 1;
            assert(bytes@ == self.data@.subrange(start as int, start + i));
        }
        self.pos = start + n;
        Ok(bytes)
    }

    /// Holds the header field `field`, just read from offset `at`, against
    /// its expected value; where it differs the cursor goes back to `at`.
    fn settle(&mut self, field: HeaderField, at: usize, expected: u64, actual: u64) -> (r: Result<
        (),
        DecodeError,
    >)
        requires
            expected == field.expected(),
            at <= old(self)@.pos,
        ensures
            final(self)@.bytes == old(self)@.bytes,
            actual == expected ==> r is Ok && final(self)@.pos == old(self)@.pos,
            actual != expected ==> final(self)@.pos == at && r == Err::<(), DecodeError>(
                DecodeError { kind: mismatch(field, actual), offset: at },
            ),
    {
        proof {
            use_type_invariant(&*self);
        }
        if actual == expected {
            Ok(())
        } else {
            self.pos = at;
            Err(DecodeError { kind: header_mismatch(field, expected, actual), offset: at })
        }
    }

    /// Reads one single-byte header field of the header that starts at `start`.
    fn check_byte(&mut self, field: HeaderField, expected: u8, Ghost(start): Ghost<int>) -> (r:
        Result<(), DecodeError>)
        requires
            field.width() == 1,
            expected == field.expected(),
            old(self)@.pos == start + field.offset(),
        ensures
            final(self)@.bytes == old(self)@.bytes,
            match r {
                Ok(_) => final(self)@.pos == old(self)@.pos + 1 && parse_header_field(
                    old(self)@.bytes,
                    start,
                    field,
                ) is Value,
                Err(e) => parse_header_field(old(self)@.bytes, start, field).is_failure(
                    e.kind,
                    e.offset as int,
                ) && final(self)@.pos == e.offset,
            },
    {
        let at = self.pos;
        let actual = self.read_byte()?;
        proof {
            lemma_le_value_1(self@.bytes.subrange(at as int, at + 1));
        }
        self.settle(field, at, expected as u64, actual as u64)
    }

    /// Checks the header: the signature, the version and format, the
    /// transport canary, the five widths and the two sentinels, in this
    /// order, stopping at the first field that is cut short or differs.
    pub fn check_header(&mut self) -> (r: Result<Header, DecodeError>)
        ensures
            final(self)@.bytes == old(self)@.bytes,
            match r {
                Ok(v) => parse_header(old(self)@.bytes, old(self)@.pos).is_value(
                    v,
                    final(self)@.pos,
                ),
                Err(e) => parse_header(old(self)@.bytes, old(self)@.pos).is_failure(
                    e.kind,
                    e.offset as int,
                ) && final(self)@.pos == e.offset,
            },
    {
        let ghost s = self@.bytes;
        let ghost start = self@.pos;
        let at = self.pos;
        let signature = self.read_u32()?;
        proof {
            lemma_le_value_4(s.subrange(start, start + 4));
        }
        self.settle(HeaderField::Signature, at, 0x6175_4c1b, signature as u64)?;
        self.check_byte(HeaderField::Version, 0x53, Ghost(start))?;
        self.check_byte(HeaderField::Format, 0, Ghost(start))?;
        let at = self.pos;
        let luac_data = self.read_bytes(6)?;
        let canary = le_pack6(&luac_data);
        self.settle(HeaderField::LuacData, at, 0x0a1a_0a0d_9319, canary)?;
        self.check_byte(HeaderField::CIntSize, 4, Ghost(start))?;
        self.check_byte(HeaderField::SizeTSize, 8, Ghost(start))?;
        self.check_byte(HeaderField::InstructionSize, 4, Ghost(start))?;
        self.check_byte(HeaderField::LuaIntegerSize, 8, Ghost(start))?;
        self.check_byte(HeaderField::LuaNumberSize, 8, Ghost(start))?;
        let at = self.pos;
        let luac_num = self.read_f64()?;
        proof {
            lemma_le_value_8(s.subrange(start + 17, start + 25));
        }
        self.settle(HeaderField::LuacNum, at, 0x4077_2800_0000_0000, luac_num)?;
        let at = self.pos;
        let luac_int = self.read_u64()?;
        proof {
            lemma_le_value_8(s.subrange(start + 25, start + 33));
        }
        self.settle(HeaderField::LuacInt, at, 0x5678, luac_int)?;
        Ok(
            Header {
                signature: [0x1b, 0x4c, 0x75, 0x61],
                version: 0x53,
                format: 0,
                luac_data: [0x19, 0x93, 0x0d, 0x0a, 0x1a, 0x0a],
                c_int_size: 4,
                size_t_size: 8,
                instruction_size: 4,
                lua_integer_size: 8,
                lua_number_size: 8,
                luac_int: 0x5678,
                luac_num: 0x4077_2800_0000_0000,
            },
        )
    }

    /// Reads one constant: its tag, then the payload that the tag calls for.
    /// A tag outside the defined ones fails at the tag.
    pub fn read_constant(&mut self) -> (r: Result<Constant, DecodeError>)
        ensures
            final(self)@.bytes == old(self)@.bytes,
            match r {
                Ok(v) => parse_constant(old(self)@.bytes, old(self)@.pos).is_value(
                    v@,
                    final(self)@.pos,
                ),
                Err(e) => parse_constant(old(self)@.bytes, old(self)@.pos).is_failure(
                    e.kind,
                    e.offset as int,
                ) && final(self)@.pos == e.offset,
            },
    {
        proof {
            use_type_invariant(&*self);
        }
        let at = self.pos;
        let tag = self.read_byte()?;
        if tag == TAG_NIL {
            Ok(Constant { tag, value: ConstantValue::Nil })
        } else if tag == TAG_BOOLEAN {
            let flag = self.read_byte()?;
            Ok(Constant { tag, value: ConstantValue::Boolean(flag != 0) })
        } else if tag == TAG_NUMBER {
            let bits = self.read_f64()?;
            Ok(Constant { tag, value: ConstantValue::Number(bits) })
        } else if tag == TAG_INTEGER {
            let bits = self.read_u64()?;
            Ok(Constant { tag, value: ConstantValue::Integer(to_signed(bits)) })
        } else if tag == TAG_STRING {
            let text = self.read_string()?;
            Ok(Constant { tag, value: ConstantValue::Str(text) })
        } else {
            self.pos = at;
            Err(DecodeError { kind: ErrorKind::UnknownConstantTag { tag }, offset: at })
        }
    }

    /// Reads the instructions of a function.
    #[verifier::loop_isolation(false)]
    pub fn read_code(&mut self) -> (r: Result<Vec<u32>, DecodeError>)
        ensures
            final(self)@.bytes == old(self)@.bytes,
            match r {
                Ok(v) => parse_code(old(self)@.bytes, old(self)@.pos).is_value(
                    v@,
                    final(self)@.pos,
                ),
                Err(e) => parse_code(old(self)@.bytes, old(self)@.pos).is_failure(
                    e.kind,
                    e.offset as int,
                ) && final(self)@.pos == e.offset,
            },
    {
        let size = self.read_u32()?;
        let ghost s = self@.bytes;
        let ghost start = self@.pos;
        let mut code: Vec<u32> = Vec::new();
        let mut i: u32 = 0;
        while i < size
            invariant
                i <= size,
                self@.bytes == s,
                parse_repeated(start, i as nat, word_at(s)).is_value(code@, self@.pos),
            decreases size - i,
        {
            match self.read_u32() {
                Ok(word) => {
                    code.push(word);
                },
                Err(e) => {
                    proof {
                        lemma_repeated_failure_stays(
                            start,
                            (i + 1) as nat,
                            size as nat,
                            word_at(s),
                        );
                    }
                    return Err(e);
                },
            }
            i += 1;
        }
        Ok(code)
    }

    /// Reads the constant pool of a function.
    #[verifier::loop_isolation(false)]
    pub fn read_constants(&mut self) -> (r: Result<Vec<Constant>, DecodeError>)
        ensures
            final(self)@.bytes == old(self)@.bytes,
            match r {
                Ok(v) => parse_constants(old(self)@.bytes, old(self)@.pos).is_value(
                    views(v@),
                    final(self)@.pos,
                ),
                Err(e) => parse_constants(old(self)@.bytes, old(self)@.pos).is_failure(
                    e.kind,
                    e.offset as int,
                ) && final(self)@.pos == e.offset,
            },
    {
        let size = self.read_u32()?;
        let ghost s = self@.bytes;
        let ghost start = self@.pos;
        let mut constants: Vec<Constant> = Vec::new();
        assert(views(constants@) =~= Seq::empty());
        let mut i: u32 = 0;
        while i < size
            invariant
                i <= size,
                self@.bytes == s,
                parse_repeated(start, i as nat, constant_at(s)).is_value(
                    views(constants@),
                    self@.pos,
                ),
            decreases size - i,
        {
            match self.read_constant() {
                Ok(constant) => {
                    proof {
                        assert(views(constants@.push(constant)) =~= views(constants@).push(
                            constant@,
                        ));
                    }
                    constants.push(constant);
                },
                Err(e) => {
                    proof {
                        lemma_repeated_failure_stays(
                            start,
                            (i + 1) as nat,
                            size as nat,
                            constant_at(s),
                        );
                    }
                    return Err(e);
                },
            }
            i += 1;
        }
        Ok(constants)
    }

    /// Reads one captured-variable descriptor.
    fn read_up_value(&mut self) -> (r: Result<UpValue, DecodeError>)
        ensures
            final(self)@.bytes == old(self)@.bytes,
            match r {
                Ok(v) => parse_up_value(old(self)@.bytes, old(self)@.pos).is_value(
                    v,
                    final(self)@.pos,
                ),
                Err(e) => parse_up_value(old(self)@.bytes, old(self)@.pos).is_failure(
                    e.kind,
                    e.offset as int,
                ) && final(self)@.pos == e.offset,
            },
    {
        let instack = self.read_byte()?;
        let idx = self.read_byte()?;
        Ok(UpValue { instack, idx })
    }

    /// Reads `n` captured-variable descriptors.
    #[verifier::loop_isolation(false)]
    pub fn read_up_values(&mut self, n: usize) -> (r: Result<Vec<UpValue>, DecodeError>)
        ensures
            final(self)@.bytes == old(self)@.bytes,
            match r {
                Ok(v) => parse_up_values(old(self)@.bytes, old(self)@.pos, n as nat).is_value(
                    v@,
                    final(self)@.pos,
                ),
                Err(e) => parse_up_values(old(self)@.bytes, old(self)@.pos, n as nat).is_failure(
                    e.kind,
                    e.offset as int,
                ) && final(self)@.pos == e.offset,
            },
    {
        let ghost s = self@.bytes;
        let ghost start = self@.pos;
        let mut up_values: Vec<UpValue> = Vec::new();
        let mut i: usize = 0;
        while i < n
            invariant
                i <= n,
                self@.bytes == s,
                parse_repeated(start, i as nat, up_value_at(s)).is_value(up_values@, self@.pos),
            decreases n - i,
        {
            match self.read_up_value() {
                Ok(up_value) => {
                    up_values.push(up_value);
                },
                Err(e) => {
                    proof {
                        lemma_repeated_failure_stays(
                            start,
                            (i + 1) as nat,
                            n as nat,
                            up_value_at(s),
                        );
                    }
                    return Err(e);
                },
            }
            i += 1;
        }
        Ok(up_values)
    }

    /// Reads the source line of each instruction.
    pub fn read_line_info(&mut self) -> (r: Result<Vec<u32>, DecodeError>)
        ensures
            final(self)@.bytes == old(self)@.bytes,
            match r {
                Ok(v) => parse_line_info(old(self)@.bytes, old(self)@.pos).is_value(
                    v@,
                    final(self)@.pos,
                ),
                Err(e) => parse_line_info(old(self)@.bytes, old(self)@.pos).is_failure(
                    e.kind,
                    e.offset as int,
                ) && final(self)@.pos == e.offset,
            },
    {
        self.read_code()
    }

    /// Reads the scope of one local variable.
    fn read_loc_var(&mut self) -> (r: Result<LocVar, DecodeError>)
        ensures
            final(self)@.bytes == old(self)@.bytes,
            match r {
                Ok(v) => parse_loc_var(old(self)@.bytes, old(self)@.pos).is_value(
                    v@,
                    final(self)@.pos,
                ),
                Err(e) => parse_loc_var(old(self)@.bytes, old(self)@.pos).is_failure(
                    e.kind,
                    e.offset as int,
                ) && final(self)@.pos == e.offset,
            },
    {
        let var_name = self.read_string()?;
        let start_pc = self.read_u32()?;
        let end_pc = self.read_u32()?;
        Ok(LocVar { var_name, start_pc, end_pc })
    }

    /// Reads the local variables of a function.
    #[verifier::loop_isolation(false)]
    pub fn read_loc_vars(&mut self) -> (r: Result<Vec<LocVar>, DecodeError>)
        ensures
            final(self)@.bytes == old(self)@.bytes,
            match r {
                Ok(v) => parse_loc_vars(old(self)@.bytes, old(self)@.pos).is_value(
                    views(v@),
                    final(self)@.pos,
                ),
                Err(e) => parse_loc_vars(old(self)@.bytes, old(self)@.pos).is_failure(
                    e.kind,
                    e.offset as int,
                ) && final(self)@.pos == e.offset,
            },
    {
        let size = self.read_u32()?;
        let ghost s = self@.bytes;
        let ghost start = self@.pos;
        let mut loc_vars: Vec<LocVar> = Vec::new();
        assert(views(loc_vars@) =~= Seq::empty());
        let mut i: u32 = 0;
        while i < size
            invariant
                i <= size,
                self@.bytes == s,
                parse_repeated(start, i as nat, loc_var_at(s)).is_value(
                    views(loc_vars@),
                    self@.pos,
                ),
            decreases size - i,
        {
            match self.read_loc_var() {
                Ok(loc_var) => {
                    proof {
                        assert(views(loc_vars@.push(loc_var)) =~= views(loc_vars@).push(loc_var@));
                    }
                    loc_vars.push(loc_var);
                },
                Err(e) => {
                    proof {
                        lemma_repeated_failure_stays(
                            start,
                            (i + 1) as nat,
                            size as nat,
                            loc_var_at(s),
                        );
                    }
                    return Err(e);
                },
            }
            i += 1;
        }
        Ok(loc_vars)
    }

    /// Reads the names of the captured variables.
    #[verifier::loop_isolation(false)]
    pub fn read_up_value_names(&mut self) -> (r: Result<Vec<String>, DecodeError>)
        ensures
            final(self)@.bytes == old(self)@.bytes,
            match r {
                Ok(v) => parse_up_value_names(old(self)@.bytes, old(self)@.pos).is_value(
                    views(v@),
                    final(self)@.pos,
                ),
                Err(e) => parse_up_value_names(old(self)@.bytes, old(self)@.pos).is_failure(
                    e.kind,
                    e.offset as int,
                ) && final(self)@.pos == e.offset,
            },
    {
        let size = self.read_u32()?;
        let ghost s = self@.bytes;
        let ghost start = self@.pos;
        let mut names: Vec<String> = Vec::new();
        assert(views(names@) =~= Seq::empty());
        let mut i: u32 = 0;
        while i < size
            invariant
                i <= size,
                self@.bytes == s,
                parse_repeated(start, i as nat, string_at(s)).is_value(views(names@), self@.pos),
            decreases size - i,
        {
            match self.read_string() {
                Ok(name) => {
                    proof {
                        assert(views(names@.push(name)) =~= views(names@).push(name@));
                    }
                    names.push(name);
                },
                Err(e) => {
                    proof {
                        lemma_repeated_failure_stays(
                            start,
                            (i + 1) as nat,
                            size as nat,
                            string_at(s),
                        );
                    }
                    return Err(e);
                },
            }
            i += 1;
        }
        Ok(names)
    }

    /// Reads one function prototype with the functions nested in it. Every
    /// field is read whatever the source name holds; an empty name stands for
    /// `parent_source`, and the nested functions inherit the name so resolved.
    pub fn read_proto(&mut self, parent_source: String) -> (r: Result<Prototype, DecodeError>)
        ensures
            final(self)@.bytes == old(self)@.bytes,
            match r {
                Ok(v) => parse_proto(old(self)@.bytes, old(self)@.pos, parent_source@).is_value(
                    v@,
                    final(self)@.pos,
                ),
                Err(e) => parse_proto(
                    old(self)@.bytes,
                    old(self)@.pos,
                    parent_source@,
                ).is_failure(e.kind, e.offset as int) && final(self)@.pos == e.offset,
            },
        decreases old(self)@.bytes.len() - old(self)@.pos, 0int,
    {
        let ghost s = self@.bytes;
        let ghost pos = self@.pos;
        proof {
            use_type_invariant(&*self);
            lemma_items_advance(s);
        }
        let own = self.read_string()?;
        let source = if own.as_str().is_empty() {
            parent_source
        } else {
            own
        };
        assert(source@ == resolved_source(parse_string(s, pos)->value, parent_source@));
        let line_defined = self.read_u32()?;
        let last_line_defined = self.read_u32()?;
        let num_params = self.read_byte()?;
        let is_vararg = self.read_byte()?;
        let max_stack_size = self.read_byte()?;
        proof {
            lemma_counted_bounds(s, self@.pos, word_at(s));
        }
        let code = self.read_code()?;
        proof {
            lemma_counted_bounds(s, self@.pos, constant_at(s));
        }
        let constants = self.read_constants()?;
        let ghost at_count = self@.pos;
        let block = self.read_bytes(4)?;
        let mut count_reader = Reader::new(block);
        assert(count_reader@.bytes.subrange(0, 4) == s.subrange(at_count, at_count + 4));
        let size_up_values = match count_reader.read_u32() {
            Ok(size) => size,
            Err(e) => {
                return Err(e);
            },
        };
        proof {
            lemma_repeated_bounds(
                self@.pos,
                size_up_values as nat,
                up_value_at(s),
                s.len() as int,
            );
        }
        let up_values = self.read_up_values(size_up_values as usize)?;
        let size_protos = self.read_u32()?;
        proof {
            use_type_invariant(&*self);
            lemma_nested_are_protos(s, pos, self@.pos, size_protos as nat, source@);
        }
        let protos = self.read_protos(size_protos as usize, source.clone())?;
        let line_info = self.read_line_info()?;
        let loc_vars = self.read_loc_vars()?;
        let up_value_names = self.read_up_value_names()?;
        let proto = Prototype {
            source,
            line_defined,
            last_line_defined,
            num_params,
            is_vararg,
            max_stack_size,
            code,
            constants,
            up_values,
            protos,
            line_info,
            loc_vars,
            up_value_names,
        };
        proof {
            lemma_view_protos(proto);
        }
        Ok(proto)
    }

    /// Reads `n` function prototypes in a row, in stream order, each with
    /// `parent_source` as the name it inherits.
    #[verifier::loop_isolation(false)]
    pub fn read_protos(&mut self, n: usize, parent_source: String) -> (r: Result<
        Vec<Prototype>,
        DecodeError,
    >)
        ensures
            final(self)@.bytes == old(self)@.bytes,
            match r {
                Ok(v) => parse_protos(
                    old(self)@.bytes,
                    old(self)@.pos,
                    n as nat,
                    parent_source@,
                ).is_value(views(v@), final(self)@.pos),
                Err(e) => parse_protos(
                    old(self)@.bytes,
                    old(self)@.pos,
                    n as nat,
                    parent_source@,
                ).is_failure(e.kind, e.offset as int) && final(self)@.pos == e.offset,
            },
        decreases old(self)@.bytes.len() - old(self)@.pos, 1int,
    {
        let ghost s = self@.bytes;
        let ghost start = self@.pos;
        let ghost item = proto_at(s, parent_source@);
        proof {
            use_type_invariant(&*self);
            lemma_protos_advance(s, parent_source@);
        }
        let mut protos: Vec<Prototype> = Vec::new();
        assert(views(protos@) =~= Seq::empty());
        let mut i: usize = 0;
        while i < n
            invariant
                i <= n,
                self@.bytes == s,
                parse_repeated(start, i as nat, item).is_value(views(protos@), self@.pos),
            decreases n - i,
        {
            proof {
                lemma_repeated_bounds(start, i as nat, item, s.len() as int);
            }
            match self.read_proto(parent_source.clone()) {
                Ok(proto) => {
                    proof {
                        assert(views(protos@.push(proto)) =~= views(protos@).push(proto@));
                    }
                    protos.push(proto);
                },
                Err(e) => {
                    proof {
                        lemma_repeated_failure_stays(start, (i + 1) as nat, n as nat, item);
                    }
                    return Err(e);
                },
            }
            i += 1;
        }
        Ok(protos)
    }
}

/// Decodes a whole chunk: checks the header, reads the number of captured
/// variables of the main function, then the main function with everything
/// nested in it. On failure nothing of the chunk is returned, only the kind of
/// failure and the offset of the field at which it was found.
pub fn decode(data: Vec<u8>) -> (r: Result<BinaryChunk, DecodeError>)
    ensures
        match r {
            Ok(chunk) => parse_chunk(data@) is Value && parse_chunk(data@)->value == chunk@,
            Err(e) => parse_chunk(data@).is_failure(e.kind, e.offset as int),
        },
{
    let mut reader = Reader::new(data);
    let header = reader.check_header()?;
    let size_up_values = reader.read_byte()?;
    let main_func = reader.read_proto(String::new())?;
    Ok(BinaryChunk { header, size_up_values, main_func })
}

} // verus!
