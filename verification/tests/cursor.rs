use lua_chunk::error::{DecodeError, ErrorKind};
use lua_chunk::reader::Reader;

fn truncated(offset: usize) -> DecodeError {
    DecodeError { kind: ErrorKind::TruncatedInput, offset }
}

#[test]
fn new_reader_starts_at_zero() {
    let reader = Reader::new(vec![1, 2, 3]);
    assert_eq!(reader.position(), 0);
}

#[test]
fn read_byte_advances_by_one() {
    let mut reader = Reader::new(vec![7, 9]);
    assert_eq!(reader.read_byte(), Ok(7));
    assert_eq!(reader.position(), 1);
    assert_eq!(reader.read_byte(), Ok(9));
    assert_eq!(reader.position(), 2);
}

#[test]
fn read_byte_at_end_is_truncated() {
    let mut reader = Reader::new(vec![7]);
    assert_eq!(reader.read_byte(), Ok(7));
    assert_eq!(reader.read_byte(), Err(truncated(1)));
    assert_eq!(reader.position(), 1);
    let mut empty = Reader::new(Vec::new());
    assert_eq!(empty.read_byte(), Err(truncated(0)));
}

#[test]
fn read_u32_is_little_endian() {
    let mut reader = Reader::new(vec![0x93, 0x91, 0x99, 0x9a, 0x78, 0x19, 0x56, 0x3f]);
    assert_eq!(reader.read_u32(), Ok(0x9a999193));
    assert_eq!(reader.position(), 4);
    assert_eq!(reader.read_u32(), Ok(0x3f561978));
    assert_eq!(reader.position(), 8);
}

#[test]
fn read_u32_extremes() {
    let mut reader = Reader::new(vec![0, 0, 0, 0, 0xff, 0xff, 0xff, 0xff, 1, 0, 0, 0]);
    assert_eq!(reader.read_u32(), Ok(0));
    assert_eq!(reader.read_u32(), Ok(u32::MAX));
    assert_eq!(reader.read_u32(), Ok(1));
}

#[test]
fn read_u32_short_input_keeps_position() {
    let mut reader = Reader::new(vec![9, 1, 2, 3]);
    assert_eq!(reader.read_byte(), Ok(9));
    assert_eq!(reader.read_u32(), Err(truncated(1)));
    assert_eq!(reader.position(), 1);
    assert_eq!(reader.read_byte(), Ok(1));
}

#[test]
fn read_u64_is_little_endian() {
    let mut reader = Reader::new(vec![0x78, 0x56, 0, 0, 0, 0, 0, 0]);
    assert_eq!(reader.read_u64(), Ok(0x5678));
    assert_eq!(reader.position(), 8);
    let mut reader = Reader::new(vec![0x01, 0x02, 0x03, 0x04, 0x05, 0x06, 0x07, 0x08]);
    assert_eq!(reader.read_u64(), Ok(0x0807060504030201));
    let mut reader = Reader::new(vec![0xff; 8]);
    assert_eq!(reader.read_u64(), Ok(u64::MAX));
}

#[test]
fn read_u64_short_input_keeps_position() {
    let mut reader = Reader::new(vec![1, 2, 3, 4, 5, 6, 7]);
    assert_eq!(reader.read_u64(), Err(truncated(0)));
    assert_eq!(reader.position(), 0);
}

#[test]
fn read_f64_reinterprets_the_bit_pattern() {
    let mut reader = Reader::new(370.5f64.to_le_bytes().to_vec());
    let bits = reader.read_f64().unwrap();
    assert_eq!(bits, 0x4077_2800_0000_0000);
    assert_eq!(f64::from_bits(bits), 370.5);
    assert_eq!(reader.position(), 8);
}

#[test]
fn read_f64_agrees_with_read_u64_on_every_pattern_tried() {
    let values = [0.0f64, -0.0, 1.0, -1.5, 0.1, 1e300, f64::MIN_POSITIVE, f64::INFINITY];
    for value in values {
        let bytes = value.to_le_bytes().to_vec();
        let mut as_float = Reader::new(bytes.clone());
        let mut as_int = Reader::new(bytes);
        let bits = as_float.read_f64().unwrap();
        assert_eq!(Ok(bits), as_int.read_u64());
        assert_eq!(bits, value.to_bits());
    }
    let mut nan = Reader::new(f64::NAN.to_le_bytes().to_vec());
    assert!(f64::from_bits(nan.read_f64().unwrap()).is_nan());
}

#[test]
fn read_f64_is_not_a_weighted_sum_of_bytes() {
    // 1.0 is 0x3ff0000000000000: the bytes weighted by powers of 256 would
    // give about 4.6e18, not 1.0.
    let mut reader = Reader::new(vec![0, 0, 0, 0, 0, 0, 0xf0, 0x3f]);
    assert_eq!(f64::from_bits(reader.read_f64().unwrap()), 1.0);
}

#[test]
fn read_f64_short_input_is_truncated() {
    let mut reader = Reader::new(vec![0, 0, 0]);
    assert_eq!(reader.read_f64(), Err(truncated(0)));
    assert_eq!(reader.position(), 0);
}

#[test]
fn read_bytes_gives_exactly_n() {
    let mut reader = Reader::new(vec![1, 2, 3, 4, 5]);
    assert_eq!(reader.read_bytes(2), Ok(vec![1, 2]));
    assert_eq!(reader.position(), 2);
    assert_eq!(reader.read_bytes(0), Ok(Vec::new()));
    assert_eq!(reader.position(), 2);
    assert_eq!(reader.read_bytes(3), Ok(vec![3, 4, 5]));
    assert_eq!(reader.position(), 5);
    assert_eq!(reader.read_bytes(0), Ok(Vec::new()));
}

#[test]
fn read_bytes_past_the_end_is_truncated() {
    let mut reader = Reader::new(vec![1, 2, 3]);
    assert_eq!(reader.read_byte(), Ok(1));
    assert_eq!(reader.read_bytes(3), Err(truncated(1)));
    assert_eq!(reader.position(), 1);
    assert_eq!(reader.read_bytes(usize::MAX), Err(truncated(1)));
    assert_eq!(reader.read_bytes(2), Ok(vec![2, 3]));
}

#[test]
fn read_string_stops_at_the_zero_byte() {
    let mut reader = Reader::new(vec![b'a', b'b', 0, b'c', 0, 0]);
    assert_eq!(reader.read_string(), Ok(String::from("ab")));
    assert_eq!(reader.position(), 3);
    assert_eq!(reader.read_string(), Ok(String::from("c")));
    assert_eq!(reader.position(), 5);
    assert_eq!(reader.read_string(), Ok(String::new()));
    assert_eq!(reader.position(), 6);
}

#[test]
fn read_string_decodes_utf8() {
    let mut bytes = "h\u{e9}llo \u{4e16}\u{754c} \u{1f600}".as_bytes().to_vec();
    bytes.push(0);
    let len = bytes.len();
    let mut reader = Reader::new(bytes);
    let text = reader.read_string().unwrap();
    assert_eq!(text, "h\u{e9}llo \u{4e16}\u{754c} \u{1f600}");
    assert_eq!(text.chars().count(), 10);
    assert_eq!(reader.position(), len);
}

#[test]
fn read_string_rejects_bytes_that_are_not_utf8() {
    let invalid = DecodeError { kind: ErrorKind::InvalidText, offset: 1 };
    let mut reader = Reader::new(vec![9, 0xff, 0xfe, 0, 7]);
    assert_eq!(reader.read_byte(), Ok(9));
    assert_eq!(reader.read_string(), Err(invalid));
    assert_eq!(reader.position(), 1);
    // an overlong encoding, a surrogate, a lone continuation byte
    for bad in [vec![0xc0, 0x80, 0], vec![0xed, 0xa0, 0x80, 0], vec![0x80, 0], vec![0xe4, 0xb8, 0]]
    {
        let mut reader = Reader::new(bad);
        assert_eq!(
            reader.read_string(),
            Err(DecodeError { kind: ErrorKind::InvalidText, offset: 0 })
        );
    }
}

#[test]
fn read_string_without_terminator_is_truncated() {
    let mut reader = Reader::new(vec![b'a', b'b']);
    assert_eq!(reader.read_string(), Err(truncated(0)));
    assert_eq!(reader.position(), 0);
    // the search for the terminator comes first, so bad bytes do not matter
    let mut reader = Reader::new(vec![0xff, 0xff]);
    assert_eq!(reader.read_string(), Err(truncated(0)));
    let mut reader = Reader::new(Vec::new());
    assert_eq!(reader.read_string(), Err(truncated(0)));
}
