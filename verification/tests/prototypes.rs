use lua_chunk::binary_chunk::{
    BinaryChunk, Constant, ConstantValue, Header, LocVar, Prototype, UpValue,
};
use lua_chunk::error::{DecodeError, ErrorKind, HeaderField};
use lua_chunk::reader::{decode, Reader};

// A plain writer for the format, to have buffers to read.

fn put_u32(out: &mut Vec<u8>, v: u32) {
    out.extend_from_slice(&v.to_le_bytes());
}

fn put_string(out: &mut Vec<u8>, text: &str) {
    out.extend_from_slice(text.as_bytes());
    out.push(0);
}

fn put_constant(out: &mut Vec<u8>, constant: &Constant) {
    out.push(constant.tag);
    match &constant.value {
        ConstantValue::Nil => {}
        ConstantValue::Boolean(b) => out.push(*b as u8),
        ConstantValue::Integer(i) => out.extend_from_slice(&i.to_le_bytes()),
        ConstantValue::Number(bits) => out.extend_from_slice(&bits.to_le_bytes()),
        ConstantValue::Str(text) => put_string(out, text),
    }
}

fn put_proto(out: &mut Vec<u8>, proto: &Prototype) {
    put_string(out, &proto.source);
    put_u32(out, proto.line_defined);
    put_u32(out, proto.last_line_defined);
    out.push(proto.num_params);
    out.push(proto.is_vararg);
    out.push(proto.max_stack_size);
    put_u32(out, proto.code.len() as u32);
    for word in &proto.code {
        put_u32(out, *word);
    }
    put_u32(out, proto.constants.len() as u32);
    for constant in &proto.constants {
        put_constant(out, constant);
    }
    put_u32(out, proto.up_values.len() as u32);
    for up_value in &proto.up_values {
        out.push(up_value.instack);
        out.push(up_value.idx);
    }
    put_u32(out, proto.protos.len() as u32);
    for nested in &proto.protos {
        put_proto(out, nested);
    }
    put_u32(out, proto.line_info.len() as u32);
    for line in &proto.line_info {
        put_u32(out, *line);
    }
    put_u32(out, proto.loc_vars.len() as u32);
    for loc_var in &proto.loc_vars {
        put_string(out, &loc_var.var_name);
        put_u32(out, loc_var.start_pc);
        put_u32(out, loc_var.end_pc);
    }
    put_u32(out, proto.up_value_names.len() as u32);
    for name in &proto.up_value_names {
        put_string(out, name);
    }
}

fn header_bytes() -> Vec<u8> {
    let mut bytes = vec![
        0x1b, b'L', b'u', b'a', 0x53, 0, 0x19, 0x93, 0x0d, 0x0a, 0x1a, 0x0a, 4, 8, 4, 8, 8,
    ];
    bytes.extend_from_slice(&370.5f64.to_le_bytes());
    bytes.extend_from_slice(&0x5678u64.to_le_bytes());
    bytes
}

fn chunk_bytes(chunk: &BinaryChunk) -> Vec<u8> {
    let mut out = header_bytes();
    out.push(chunk.size_up_values);
    put_proto(&mut out, &chunk.main_func);
    out
}

fn proto_bytes(proto: &Prototype) -> Vec<u8> {
    let mut out = Vec::new();
    put_proto(&mut out, proto);
    out
}

fn named(source: &str, line: u32) -> Prototype {
    let mut proto = Prototype::new();
    proto.source = String::from(source);
    proto.line_defined = line;
    proto.last_line_defined = line + 1;
    proto
}

/// A function with every field filled.
fn rich(source: &str, line: u32, protos: Vec<Prototype>) -> Prototype {
    Prototype {
        source: String::from(source),
        line_defined: line,
        last_line_defined: line + 10,
        num_params: 2,
        is_vararg: 1,
        max_stack_size: 8,
        code: vec![0x9a999193, 0x3f561978, 0x0080_0026],
        constants: vec![
            Constant { tag: 0, value: ConstantValue::Nil },
            Constant { tag: 1, value: ConstantValue::Boolean(true) },
            Constant { tag: 0x13, value: ConstantValue::Integer(-7) },
            Constant { tag: 3, value: ConstantValue::Number(370.5f64.to_bits()) },
            Constant { tag: 4, value: ConstantValue::Str(String::from("gr\u{fc}\u{df}e")) },
        ],
        up_values: vec![UpValue { instack: 1, idx: 0 }, UpValue { instack: 0, idx: 3 }],
        protos,
        line_info: vec![line, line + 1, line + 2],
        loc_vars: vec![
            LocVar { var_name: String::from("i"), start_pc: 0, end_pc: 3 },
            LocVar { var_name: String::from("total"), start_pc: 1, end_pc: 2 },
        ],
        up_value_names: vec![String::from("_ENV"), String::from("print")],
    }
}

fn sample_chunk() -> BinaryChunk {
    let mut chunk = BinaryChunk::new();
    chunk.size_up_values = 1;
    chunk.main_func = rich(
        "@main.lua",
        0,
        vec![
            rich("@main.lua", 3, vec![named("@main.lua", 5)]),
            rich("=other", 20, vec![rich("@deep.lua", 22, Vec::new())]),
        ],
    );
    chunk
}

fn read_proto(bytes: Vec<u8>, parent: &str) -> (Result<Prototype, DecodeError>, usize) {
    let mut reader = Reader::new(bytes);
    let result = reader.read_proto(String::from(parent));
    (result, reader.position())
}

#[test]
fn new_prototype_is_empty() {
    let proto = Prototype::new();
    assert_eq!(proto.source, "");
    assert_eq!(proto.line_defined, 0);
    assert_eq!(proto.last_line_defined, 0);
    assert_eq!(proto.num_params, 0);
    assert_eq!(proto.is_vararg, 0);
    assert_eq!(proto.max_stack_size, 0);
    assert_eq!(proto.code, Vec::<u32>::new());
    assert_eq!(proto.constants, Vec::new());
    assert_eq!(proto.up_values, Vec::new());
    assert_eq!(proto.protos, Vec::new());
    assert_eq!(proto.line_info, Vec::<u32>::new());
    assert_eq!(proto.loc_vars, Vec::new());
    assert_eq!(proto.up_value_names, Vec::<String>::new());
}

#[test]
fn new_chunk_holds_the_empty_function() {
    let chunk = BinaryChunk::new();
    assert_eq!(chunk.size_up_values, 0);
    assert_eq!(chunk.main_func, Prototype::new());
}

#[test]
fn test_un_dump() {
    // Behind the five widths this buffer holds eight bytes that are not the
    // bit pattern of 370.5, so it is refused at the float sentinel.
    let data = vec![
        0x1b, b'L', b'u', b'a', 0x53, 0, 0x19, 0x93, 0x0d, 0x0a, 0x1a, 0x0a, 4, 8, 4, 8, 8, 8,
        8, 0x9a, 0x99, 0x19, 0x3f, 0x56, 0x78,
    ];
    assert_eq!(
        decode(data),
        Err(DecodeError {
            kind: ErrorKind::MalformedHeader {
                field: HeaderField::LuacNum,
                expected: 370.5f64.to_bits(),
                actual: 0x7856_3f19_999a_0808,
            },
            offset: 17,
        })
    );
}

#[test]
fn test_un_dump_with_different_data() {
    let data = vec![
        0x1b, b'L', b'u', b'a', 0x53, 0, 0x19, 0x93, 0x0d, 0x0a, 0x1a, 0x0a, 4, 8, 4, 8, 8, 8,
        8, 0x9a, 0x99, 0x19, 0x3f, 0x56, 0x79,
    ];
    assert_eq!(
        decode(data),
        Err(DecodeError {
            kind: ErrorKind::MalformedHeader {
                field: HeaderField::LuacNum,
                expected: 370.5f64.to_bits(),
                actual: 0x7956_3f19_999a_0808,
            },
            offset: 17,
        })
    );
}

#[test]
fn minimal_chunk_decodes() {
    let mut bytes = header_bytes();
    bytes.push(0);
    // empty name, two lines, three bytes, seven empty lists
    bytes.push(0);
    bytes.extend_from_slice(&[0; 8]);
    bytes.extend_from_slice(&[0, 0, 8]);
    bytes.extend_from_slice(&[0; 28]);
    assert_eq!(bytes.len(), 33 + 1 + 1 + 8 + 3 + 28);
    let chunk = decode(bytes).unwrap();
    assert_eq!(chunk.header.signature, [0x1b, b'L', b'u', b'a']);
    assert_eq!(chunk.header.version, 0x53);
    assert_eq!(chunk.header.format, 0);
    assert_eq!(chunk.header.luac_data, [0x19, 0x93, 0x0d, 0x0a, 0x1a, 0x0a]);
    assert_eq!(chunk.header.c_int_size, 4);
    assert_eq!(chunk.header.size_t_size, 8);
    assert_eq!(chunk.header.instruction_size, 4);
    assert_eq!(chunk.header.lua_integer_size, 8);
    assert_eq!(chunk.header.lua_number_size, 8);
    assert_eq!(chunk.size_up_values, 0);
    assert_eq!(chunk.main_func.source, "");
    assert_eq!(chunk.main_func.line_defined, 0);
    assert_eq!(chunk.main_func.last_line_defined, 0);
    assert_eq!(chunk.main_func.num_params, 0);
    assert_eq!(chunk.main_func.is_vararg, 0);
    assert_eq!(chunk.main_func.max_stack_size, 8);
    assert_eq!(chunk.main_func.code, Vec::<u32>::new());
    assert_eq!(chunk.main_func.constants, Vec::new());
    assert_eq!(chunk.main_func.up_values, Vec::new());
    assert_eq!(chunk.main_func.protos, Vec::new());
    assert_eq!(chunk.main_func.line_info, Vec::<u32>::new());
    assert_eq!(chunk.main_func.loc_vars, Vec::new());
    assert_eq!(chunk.main_func.up_value_names, Vec::<String>::new());
}

#[test]
fn chunk_with_code_and_a_nil_constant() {
    let mut chunk = BinaryChunk::new();
    chunk.main_func.max_stack_size = 8;
    chunk.main_func.code = vec![0x9a999193, 0x3f561978];
    chunk.main_func.constants = vec![Constant { tag: 0, value: ConstantValue::Nil }];
    let decoded = decode(chunk_bytes(&chunk)).unwrap();
    assert_eq!(decoded.main_func.source, "");
    assert_eq!(decoded.main_func.max_stack_size, 8);
    assert_eq!(decoded.main_func.code, vec![0x9a999193, 0x3f561978]);
    assert_eq!(
        decoded.main_func.constants,
        vec![Constant { tag: 0, value: ConstantValue::Nil }]
    );
    assert_eq!(decoded, chunk);

    chunk.main_func.code = vec![0x9a999193, 0x3f561979];
    let decoded = decode(chunk_bytes(&chunk)).unwrap();
    assert_eq!(decoded.main_func.code, vec![0x9a999193, 0x3f561979]);
    assert_eq!(decoded.header, Header { ..BinaryChunk::new().header });
}

#[test]
fn every_field_of_a_prototype_is_read_in_order() {
    let proto = rich("@file.lua", 7, Vec::new());
    let bytes = proto_bytes(&proto);
    let len = bytes.len();
    let (result, position) = read_proto(bytes, "");
    assert_eq!(result, Ok(rich("@file.lua", 7, Vec::new())));
    assert_eq!(position, len);
}

#[test]
fn empty_source_inherits_the_name_and_skips_nothing() {
    let written = rich("", 7, Vec::new());
    let mut bytes = proto_bytes(&written);
    bytes.push(0xee);
    let len = bytes.len();
    let mut reader = Reader::new(bytes);
    let read = reader.read_proto(String::from("@parent.lua")).unwrap();
    assert_eq!(read, rich("@parent.lua", 7, Vec::new()));
    assert_eq!(read.code.len(), 3);
    assert_eq!(read.constants.len(), 5);
    // the cursor is behind the whole prototype, in step with the stream
    assert_eq!(reader.position(), len - 1);
    assert_eq!(reader.read_byte(), Ok(0xee));
}

#[test]
fn own_source_wins_over_the_inherited_one() {
    let (result, _) = read_proto(proto_bytes(&named("=own", 1)), "@parent.lua");
    assert_eq!(result.unwrap().source, "=own");
}

#[test]
fn empty_source_with_nothing_to_inherit_stays_empty() {
    let (result, _) = read_proto(proto_bytes(&named("", 1)), "");
    assert_eq!(result.unwrap().source, "");
}

#[test]
fn nested_functions_inherit_the_resolved_name() {
    let written = rich("", 1, vec![rich("", 2, vec![named("", 3)]), named("=named", 4)]);
    let (result, _) = read_proto(proto_bytes(&written), "@top.lua");
    let read = result.unwrap();
    assert_eq!(read.source, "@top.lua");
    assert_eq!(read.protos[0].source, "@top.lua");
    assert_eq!(read.protos[0].protos[0].source, "@top.lua");
    assert_eq!(read.protos[1].source, "=named");

    let written = rich("=outer", 1, vec![rich("", 2, vec![named("", 3)])]);
    let (result, _) = read_proto(proto_bytes(&written), "@top.lua");
    let read = result.unwrap();
    assert_eq!(read.source, "=outer");
    assert_eq!(read.protos[0].source, "=outer");
    assert_eq!(read.protos[0].protos[0].source, "=outer");
}

#[test]
fn tree_of_two_children_with_one_grandchild_each() {
    let mut chunk = BinaryChunk::new();
    chunk.main_func = rich(
        "@tree.lua",
        1,
        vec![
            rich("@tree.lua", 10, vec![named("@tree.lua", 11)]),
            rich("@tree.lua", 20, vec![named("@tree.lua", 21)]),
        ],
    );
    let decoded = decode(chunk_bytes(&chunk)).unwrap();
    let root = &decoded.main_func;
    assert_eq!(root.protos.len(), 2);
    assert_eq!(root.protos[0].protos.len(), 1);
    assert_eq!(root.protos[1].protos.len(), 1);
    assert_eq!(root.protos[0].protos[0].protos.len(), 0);
    assert_eq!(root.protos[1].protos[0].protos.len(), 0);
    // stream order
    assert_eq!(root.line_defined, 1);
    assert_eq!(root.protos[0].line_defined, 10);
    assert_eq!(root.protos[0].protos[0].line_defined, 11);
    assert_eq!(root.protos[1].line_defined, 20);
    assert_eq!(root.protos[1].protos[0].line_defined, 21);
    assert_eq!(decoded, chunk);
}

#[test]
fn decode_gives_header_count_and_root() {
    let chunk = sample_chunk();
    let decoded = decode(chunk_bytes(&chunk)).unwrap();
    assert_eq!(decoded.header, BinaryChunk::new().header);
    assert_eq!(decoded.size_up_values, 1);
    assert_eq!(decoded.main_func, chunk.main_func);
}

#[test]
fn decode_ignores_what_follows_the_chunk() {
    let chunk = sample_chunk();
    let mut bytes = chunk_bytes(&chunk);
    bytes.extend_from_slice(&[0xde, 0xad]);
    assert_eq!(decode(bytes), Ok(sample_chunk()));
}

#[test]
fn reencoded_chunk_decodes_to_an_equal_chunk() {
    let first = decode(chunk_bytes(&sample_chunk())).unwrap();
    let second = decode(chunk_bytes(&first)).unwrap();
    assert_eq!(first, second);
    assert_eq!(first, sample_chunk());
}

#[test]
fn reencoding_survives_inherited_names() {
    let mut chunk = BinaryChunk::new();
    chunk.main_func = rich("@a.lua", 1, vec![rich("", 2, vec![named("", 3)]), named("", 4)]);
    let bytes = chunk_bytes(&chunk);
    let first = decode(bytes.clone()).unwrap();
    assert_eq!(first.main_func.protos[0].source, "@a.lua");
    let again = chunk_bytes(&first);
    // the names are now written out, so the bytes differ, the chunk does not
    assert_ne!(again, bytes);
    let second = decode(again).unwrap();
    assert_eq!(first, second);
}

#[test]
fn every_cut_of_a_chunk_is_truncated() {
    let bytes = chunk_bytes(&sample_chunk());
    assert!(decode(bytes.clone()).is_ok());
    for k in 0..bytes.len() {
        let error = decode(bytes[..k].to_vec()).unwrap_err();
        assert_eq!(error.kind, ErrorKind::TruncatedInput, "cut at {}", k);
        assert!(error.offset <= k);
    }
}

#[test]
fn every_cut_of_the_minimal_chunk_is_truncated() {
    let bytes = chunk_bytes(&BinaryChunk::new());
    assert_eq!(decode(bytes.clone()), Ok(BinaryChunk::new()));
    for k in 0..bytes.len() {
        let error = decode(bytes[..k].to_vec()).unwrap_err();
        assert_eq!(error.kind, ErrorKind::TruncatedInput, "cut at {}", k);
    }
}

#[test]
fn every_changed_fingerprint_or_sentinel_byte_fails_decode() {
    let bytes = chunk_bytes(&sample_chunk());
    for i in (6..12).chain(17..33) {
        for delta in [1u8, 0x80, 0xff] {
            let mut changed = bytes.clone();
            changed[i] = changed[i].wrapping_add(delta);
            let error = decode(changed).unwrap_err();
            assert!(matches!(error.kind, ErrorKind::MalformedHeader { .. }));
        }
    }
    for i in 12..17 {
        let mut changed = bytes.clone();
        changed[i] ^= 0x0c;
        let error = decode(changed).unwrap_err();
        assert!(matches!(error.kind, ErrorKind::UnsupportedPlatform { .. }));
        assert_eq!(error.offset, i);
    }
}

#[test]
fn decode_reports_where_it_failed() {
    let mut chunk = BinaryChunk::new();
    chunk.main_func.source = String::from("@x");
    chunk.main_func.constants = vec![Constant { tag: 9, value: ConstantValue::Nil }];
    // 33 header, 1 count, 3 name, 8 lines, 3 bytes, 4 code count, 4 constant count
    assert_eq!(
        decode(chunk_bytes(&chunk)),
        Err(DecodeError { kind: ErrorKind::UnknownConstantTag { tag: 9 }, offset: 56 })
    );
    let mut bytes = header_bytes();
    bytes.push(0);
    bytes.extend_from_slice(&[0xc3, 0x28, 0]);
    assert_eq!(
        decode(bytes),
        Err(DecodeError { kind: ErrorKind::InvalidText, offset: 34 })
    );
    assert_eq!(
        decode(header_bytes()),
        Err(DecodeError { kind: ErrorKind::TruncatedInput, offset: 33 })
    );
    assert_eq!(
        decode(Vec::new()),
        Err(DecodeError { kind: ErrorKind::TruncatedInput, offset: 0 })
    );
}

#[test]
fn up_value_count_is_a_four_byte_block() {
    let mut proto = named("@u", 1);
    proto.up_values = (0..=255u8).map(|i| UpValue { instack: i & 1, idx: i }).collect();
    proto.up_values.push(UpValue { instack: 1, idx: 7 });
    let bytes = proto_bytes(&proto);
    // name, lines, three bytes, two empty lists, then the count 257
    assert_eq!(&bytes[22..26], &[1, 1, 0, 0]);
    let (result, _) = read_proto(bytes, "");
    assert_eq!(result.unwrap().up_values.len(), 257);
}

#[test]
fn read_up_values_reads_pairs() {
    let mut reader = Reader::new(vec![1, 2, 0, 4, 9]);
    assert_eq!(
        reader.read_up_values(2),
        Ok(vec![UpValue { instack: 1, idx: 2 }, UpValue { instack: 0, idx: 4 }])
    );
    assert_eq!(reader.position(), 4);
    assert_eq!(reader.read_up_values(0), Ok(Vec::new()));
    assert_eq!(reader.position(), 4);
    assert_eq!(
        reader.read_up_values(1),
        Err(DecodeError { kind: ErrorKind::TruncatedInput, offset: 5 })
    );
    assert_eq!(reader.position(), 5);
}

#[test]
fn read_protos_reads_in_stream_order() {
    let mut bytes = proto_bytes(&named("=a", 1));
    bytes.extend_from_slice(&proto_bytes(&named("", 2)));
    bytes.extend_from_slice(&proto_bytes(&named("=c", 3)));
    let len = bytes.len();
    let mut reader = Reader::new(bytes);
    let protos = reader.read_protos(3, String::from("@p")).unwrap();
    assert_eq!(protos, vec![named("=a", 1), named("@p", 2), named("=c", 3)]);
    assert_eq!(reader.position(), len);
    assert_eq!(reader.read_protos(0, String::from("@p")), Ok(Vec::new()));
    assert_eq!(
        reader.read_protos(1, String::from("@p")),
        Err(DecodeError { kind: ErrorKind::TruncatedInput, offset: len })
    );
}

#[test]
fn debug_lists_are_counted_and_independent() {
    let mut bytes = Vec::new();
    put_u32(&mut bytes, 2);
    put_u32(&mut bytes, 10);
    put_u32(&mut bytes, 11);
    put_u32(&mut bytes, 1);
    put_string(&mut bytes, "x");
    put_u32(&mut bytes, 3);
    put_u32(&mut bytes, 9);
    put_u32(&mut bytes, 0);
    let mut reader = Reader::new(bytes);
    assert_eq!(reader.read_line_info(), Ok(vec![10, 11]));
    assert_eq!(reader.position(), 12);
    assert_eq!(
        reader.read_loc_vars(),
        Ok(vec![LocVar { var_name: String::from("x"), start_pc: 3, end_pc: 9 }])
    );
    assert_eq!(reader.position(), 26);
    assert_eq!(reader.read_up_value_names(), Ok(Vec::new()));
    assert_eq!(reader.position(), 30);
}

#[test]
fn stripped_debug_lists_are_empty() {
    let mut reader = Reader::new(vec![0; 12]);
    assert_eq!(reader.read_line_info(), Ok(Vec::new()));
    assert_eq!(reader.read_loc_vars(), Ok(Vec::new()));
    assert_eq!(reader.read_up_value_names(), Ok(Vec::new()));
    assert_eq!(reader.position(), 12);
}

#[test]
fn line_info_is_not_held_against_the_code() {
    let mut proto = named("@l", 1);
    proto.code = vec![1, 2, 3];
    proto.line_info = vec![7];
    let (result, _) = read_proto(proto_bytes(&proto), "");
    let read = result.unwrap();
    assert_eq!(read.code.len(), 3);
    assert_eq!(read.line_info, vec![7]);
}

#[test]
fn lists_fail_at_the_element_that_fails() {
    let mut reader = Reader::new(vec![3, 0, 0, 0, 1, 0, 0, 0, 2, 0, 0, 0, 3, 0]);
    assert_eq!(
        reader.read_code(),
        Err(DecodeError { kind: ErrorKind::TruncatedInput, offset: 12 })
    );
    assert_eq!(reader.position(), 12);
    let mut reader = Reader::new(vec![2, 0, 0, 0, b'a', 0, 0xff, 0]);
    assert_eq!(
        reader.read_up_value_names(),
        Err(DecodeError { kind: ErrorKind::InvalidText, offset: 6 })
    );
    assert_eq!(reader.position(), 6);
    let mut reader = Reader::new(vec![1, 0, 0, 0, b'v', 0, 1, 0, 0, 0, 2, 0]);
    assert_eq!(
        reader.read_loc_vars(),
        Err(DecodeError { kind: ErrorKind::TruncatedInput, offset: 10 })
    );
    assert_eq!(reader.position(), 10);
}

#[test]
fn a_huge_count_with_no_data_is_truncated() {
    let mut reader = Reader::new(vec![0xff, 0xff, 0xff, 0xff]);
    assert_eq!(
        reader.read_code(),
        Err(DecodeError { kind: ErrorKind::TruncatedInput, offset: 4 })
    );
}
