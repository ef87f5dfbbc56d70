use decay::serde::{DecodeError, Deserialize, Serialize};

fn encode<T: Serialize>(v: &T) -> Vec<u8> {
    let mut out = Vec::new();
    v.serialize(&mut out);
    out
}

fn decode<T: Deserialize>(bytes: &[u8]) -> (Result<T, DecodeError>, usize) {
    let mut pos = 0usize;
    let r = T::deserialize(bytes, &mut pos);
    (r, pos)
}

#[test]
fn integers_are_little_endian() {
    assert_eq!(encode(&0x1234u16), vec![0x34, 0x12]);
    assert_eq!(encode(&-2i16), vec![0xfe, 0xff]);
    assert_eq!(encode(&1u32), vec![1, 0, 0, 0]);
    assert_eq!(encode(&-1i32), vec![0xff, 0xff, 0xff, 0xff]);
    assert_eq!(encode(&0x0102030405060708u64), vec![8, 7, 6, 5, 4, 3, 2, 1]);
    assert_eq!(encode(&200u8), vec![200]);
    assert_eq!(encode(&-3i8), vec![0xfd]);
    assert_eq!(encode(&true), vec![1]);
    assert_eq!(encode(&false), vec![0]);
}

#[test]
fn integers_round_trip() {
    assert_eq!(decode::<u16>(&encode(&0xbeefu16)), (Ok(0xbeef), 2));
    assert_eq!(decode::<i16>(&encode(&-12345i16)), (Ok(-12345), 2));
    assert_eq!(decode::<u32>(&encode(&0xdeadbeefu32)), (Ok(0xdeadbeef), 4));
    assert_eq!(decode::<i32>(&encode(&i32::MIN)), (Ok(i32::MIN), 4));
    assert_eq!(decode::<u64>(&encode(&u64::MAX)), (Ok(u64::MAX), 8));
    assert_eq!(decode::<i8>(&encode(&i8::MIN)), (Ok(i8::MIN), 1));
    assert_eq!(decode::<u8>(&[9, 9]), (Ok(9), 1));
}

#[test]
fn any_nonzero_byte_reads_as_true() {
    assert_eq!(decode::<bool>(&[7]), (Ok(true), 1));
    assert_eq!(decode::<bool>(&[0]), (Ok(false), 1));
}

#[test]
fn short_input_is_unexpected_eof() {
    assert_eq!(decode::<u32>(&[1, 2, 3]), (Err(DecodeError::UnexpectedEof), 0));
    assert_eq!(decode::<u8>(&[]), (Err(DecodeError::UnexpectedEof), 0));
    assert_eq!(decode::<String>(&[5, 0, 0, 0, b'a']), (Err(DecodeError::UnexpectedEof), 0));
}

#[test]
fn strings_are_length_prefixed_utf8() {
    let bytes = encode(&"héllo".to_string());
    assert_eq!(bytes, vec![6, 0, 0, 0, b'h', 0xc3, 0xa9, b'l', b'l', b'o']);
    assert_eq!(decode::<String>(&bytes), (Ok("héllo".to_string()), 10));
}

#[test]
fn invalid_utf8_is_invalid_data() {
    assert_eq!(decode::<String>(&[2, 0, 0, 0, 0xff, 0xfe]), (Err(DecodeError::InvalidData), 0));
}

#[test]
fn vectors_round_trip() {
    let v: Vec<u16> = vec![1, 2, 0xffff];
    let bytes = encode(&v);
    assert_eq!(bytes, vec![3, 0, 0, 0, 1, 0, 2, 0, 0xff, 0xff]);
    assert_eq!(decode::<Vec<u16>>(&bytes), (Ok(v), 10));
    let words: Vec<String> = vec!["a".to_string(), "".to_string()];
    let bytes = encode(&words);
    assert_eq!(decode::<Vec<String>>(&bytes), (Ok(words), bytes.len()));
}

#[test]
fn vector_with_missing_item_fails_without_moving() {
    let bytes = vec![2, 0, 0, 0, 5];
    assert_eq!(decode::<Vec<u8>>(&bytes), (Err(DecodeError::UnexpectedEof), 0));
}

#[test]
fn decoding_continues_from_position() {
    let mut bytes = encode(&7u8);
    bytes.extend(encode(&"x".to_string()));
    let mut pos = 0usize;
    assert_eq!(u8::deserialize(&bytes, &mut pos), Ok(7));
    assert_eq!(String::deserialize(&bytes, &mut pos), Ok("x".to_string()));
    assert_eq!(pos, bytes.len());
}
