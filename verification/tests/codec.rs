use m3d::{DecodeError, Deserializer, OpCode, Serializer, Value, DEFAULT_MAX_DEPTH};

fn encode(values: Vec<Value>) -> Vec<u8> {
    let mut serializer = Serializer::new();
    for value in values {
        serializer.add(value);
    }
    serializer.serialize().unwrap()
}

fn decode(bytes: Vec<u8>) -> Result<Vec<Value>, DecodeError> {
    Deserializer::new(bytes).deserialize()
}

fn text(s: &str) -> Value {
    Value::Text(s.to_string())
}

fn sample() -> Vec<Value> {
    vec![
        Value::UInt64(1_700_000_000),
        text("grüße, 世界 🦀"),
        Value::Sequence(vec![
            Value::Int32(-1),
            Value::Sequence(vec![]),
            Value::Sequence(vec![text(""), Value::UInt64(u64::MAX), Value::Int32(i32::MIN)]),
        ]),
        Value::Int32(i32::MAX),
    ]
}

/// The length of the encoding of each prefix of `values`.
fn boundaries(values: &[Value]) -> Vec<usize> {
    let mut marks = vec![0];
    for n in 1..=values.len() {
        marks.push(encode(values[..n].to_vec()).len());
    }
    marks
}

#[test]
fn scenario_uint_then_text() {
    let bytes = encode(vec![Value::UInt64(0), text("a")]);
    assert_eq!(
        bytes,
        vec![0x11, 0, 0, 0, 0, 0, 0, 0, 0, 0x01, 0, 0, 0, 0, 0, 0, 0, 1, 0x61]
    );
    assert_eq!(decode(bytes), Ok(vec![Value::UInt64(0), text("a")]));
}

#[test]
fn scenario_sequence_of_one_int() {
    let bytes = encode(vec![Value::Sequence(vec![Value::Int32(7)])]);
    assert_eq!(
        bytes,
        vec![0x00, 0, 0, 0, 0, 0, 0, 0, 5, 0x10, 0, 0, 0, 7]
    );
    assert_eq!(
        decode(bytes),
        Ok(vec![Value::Sequence(vec![Value::Int32(7)])])
    );
}

#[test]
fn empty_input_is_an_empty_list() {
    assert_eq!(decode(vec![]), Ok(vec![]));
}

#[test]
fn empty_list_encodes_to_nothing() {
    assert_eq!(encode(vec![]), Vec::<u8>::new());
    assert_eq!(Serializer::new().serialize(), Ok(vec![]));
}

#[test]
fn int32_is_big_endian_twos_complement() {
    assert_eq!(encode(vec![Value::Int32(0x0102_0304)]), vec![0x10, 1, 2, 3, 4]);
    assert_eq!(encode(vec![Value::Int32(-2)]), vec![0x10, 0xff, 0xff, 0xff, 0xfe]);
    assert_eq!(encode(vec![Value::Int32(i32::MIN)]), vec![0x10, 0x80, 0, 0, 0]);
    assert_eq!(
        decode(vec![0x10, 0xff, 0xff, 0xff, 0xfe]),
        Ok(vec![Value::Int32(-2)])
    );
    assert_eq!(
        decode(vec![0x10, 0x7f, 0xff, 0xff, 0xff]),
        Ok(vec![Value::Int32(i32::MAX)])
    );
}

#[test]
fn uint64_is_big_endian() {
    assert_eq!(
        encode(vec![Value::UInt64(0x0102_0304_0506_0708)]),
        vec![0x11, 1, 2, 3, 4, 5, 6, 7, 8]
    );
    assert_eq!(
        decode(vec![0x11, 0xff, 0xee, 0xdd, 0xcc, 0xbb, 0xaa, 0x99, 0x88]),
        Ok(vec![Value::UInt64(0xffee_ddcc_bbaa_9988)])
    );
    assert_eq!(
        decode(encode(vec![Value::UInt64(u64::MAX)])),
        Ok(vec![Value::UInt64(u64::MAX)])
    );
}

#[test]
fn text_length_counts_bytes_not_characters() {
    let bytes = encode(vec![text("é")]);
    assert_eq!(bytes, vec![0x01, 0, 0, 0, 0, 0, 0, 0, 2, 0xc3, 0xa9]);
    assert_eq!(decode(bytes), Ok(vec![text("é")]));
    assert_eq!(encode(vec![text("")]), vec![0x01, 0, 0, 0, 0, 0, 0, 0, 0]);
}

#[test]
fn sequence_length_counts_encoded_bytes_not_items() {
    let bytes = encode(vec![Value::Sequence(vec![Value::Int32(1), Value::UInt64(2)])]);
    assert_eq!(bytes.len(), 9 + 5 + 9);
    assert_eq!(bytes[..9], [0x00, 0, 0, 0, 0, 0, 0, 0, 14]);
    assert_eq!(
        encode(vec![Value::Sequence(vec![])]),
        vec![0x00, 0, 0, 0, 0, 0, 0, 0, 0]
    );
}

#[test]
fn round_trip_of_nested_values() {
    let bytes = encode(sample());
    assert_eq!(decode(bytes), Ok(sample()));
}

#[test]
fn encoding_twice_gives_the_same_bytes() {
    let values = sample();
    let copy = values.clone();
    assert_eq!(encode(values), encode(copy));
}

#[test]
fn clone_is_a_deep_copy() {
    let values = sample();
    let copies: Vec<Value> = values.iter().map(|v| v.clone()).collect();
    assert_eq!(values, copies);
}

#[test]
fn every_byte_is_a_tag_or_refused() {
    for byte in 0..=255u8 {
        let mut bytes = vec![byte];
        bytes.extend_from_slice(&[0; 8]);
        let expected = match byte {
            0x00 => Ok(vec![Value::Sequence(vec![])]),
            0x01 => Ok(vec![text("")]),
            0x10 => {
                bytes.truncate(5);
                Ok(vec![Value::Int32(0)])
            }
            0x11 => Ok(vec![Value::UInt64(0)]),
            other => Err(DecodeError::UnknownTag(other)),
        };
        assert_eq!(decode(bytes), expected);
    }
}

#[test]
fn opcode_bytes() {
    assert_eq!(u8::from(OpCode::Sequence), 0x00);
    assert_eq!(u8::from(OpCode::Text), 0x01);
    assert_eq!(u8::from(OpCode::Int32), 0x10);
    assert_eq!(u8::from(OpCode::UInt64), 0x11);
    let byte: u8 = OpCode::Int32.into();
    assert_eq!(byte, 0x10);
    for byte in 0..=255u8 {
        match OpCode::from_byte(byte) {
            Some(op) => assert_eq!(u8::from(op), byte),
            None => assert!(![0x00, 0x01, 0x10, 0x11].contains(&byte)),
        }
    }
    assert_eq!(OpCode::from_byte(0x00), Some(OpCode::Sequence));
    assert_eq!(OpCode::from_byte(0x01), Some(OpCode::Text));
    assert_eq!(OpCode::from_byte(0x10), Some(OpCode::Int32));
    assert_eq!(OpCode::from_byte(0x11), Some(OpCode::UInt64));
    assert_eq!(OpCode::from_byte(0x02), None);
}

#[test]
fn opcode_of_value() {
    assert_eq!(OpCode::of(&Value::Int32(1)), OpCode::Int32);
    assert_eq!(OpCode::of(&Value::UInt64(1)), OpCode::UInt64);
    assert_eq!(OpCode::of(&text("x")), OpCode::Text);
    assert_eq!(OpCode::of(&Value::Sequence(vec![])), OpCode::Sequence);
    for value in sample() {
        let bytes = encode(vec![value.clone()]);
        assert_eq!(bytes[0], u8::from(OpCode::of(&value)));
    }
}

#[test]
fn truncation_anywhere_but_between_values() {
    let values = sample();
    let bytes = encode(values.clone());
    let marks = boundaries(&values);
    for cut in 0..bytes.len() {
        let result = decode(bytes[..cut].to_vec());
        match marks.iter().position(|&m| m == cut) {
            Some(n) => assert_eq!(result, Ok(values[..n].to_vec())),
            None => assert_eq!(result, Err(DecodeError::TruncatedInput)),
        }
    }
}

#[test]
fn truncated_fields() {
    assert_eq!(decode(vec![0x10]), Err(DecodeError::TruncatedInput));
    assert_eq!(decode(vec![0x10, 0, 0, 0]), Err(DecodeError::TruncatedInput));
    assert_eq!(decode(vec![0x11, 0, 0, 0, 0, 0, 0, 0]), Err(DecodeError::TruncatedInput));
    assert_eq!(decode(vec![0x01, 0, 0, 0, 0, 0, 0, 0]), Err(DecodeError::TruncatedInput));
    assert_eq!(decode(vec![0x00]), Err(DecodeError::TruncatedInput));
    assert_eq!(
        decode(vec![0x01, 0, 0, 0, 0, 0, 0, 0, 2, 0x61]),
        Err(DecodeError::TruncatedInput)
    );
    assert_eq!(
        decode(vec![0x00, 0xff, 0xff, 0xff, 0xff, 0xff, 0xff, 0xff, 0xff, 0x10]),
        Err(DecodeError::TruncatedInput)
    );
}

#[test]
fn trailing_partial_value_is_truncation() {
    let mut bytes = encode(vec![Value::Int32(7)]);
    bytes.extend_from_slice(&[0x10, 0, 0]);
    assert_eq!(decode(bytes), Err(DecodeError::TruncatedInput));
}

#[test]
fn truncation_is_found_before_invalid_text() {
    assert_eq!(
        decode(vec![0x01, 0, 0, 0, 0, 0, 0, 0, 3, 0xff, 0xff]),
        Err(DecodeError::TruncatedInput)
    );
}

#[test]
fn text_with_ff_at_any_place_is_invalid() {
    let plain = "abcde".as_bytes();
    for at in 0..plain.len() {
        let mut payload = plain.to_vec();
        payload[at] = 0xff;
        let mut bytes = vec![0x01, 0, 0, 0, 0, 0, 0, 0, 5];
        bytes.extend_from_slice(&payload);
        assert_eq!(decode(bytes.clone()), Err(DecodeError::InvalidText));
        bytes.extend_from_slice(&encode(vec![Value::Int32(1)]));
        assert_eq!(decode(bytes), Err(DecodeError::InvalidText));
    }
}

#[test]
fn invalid_utf8_is_refused() {
    assert_eq!(
        decode(vec![0x01, 0, 0, 0, 0, 0, 0, 0, 1, 0x80]),
        Err(DecodeError::InvalidText)
    );
    assert_eq!(
        decode(vec![0x01, 0, 0, 0, 0, 0, 0, 0, 2, 0xc3, 0x28]),
        Err(DecodeError::InvalidText)
    );
    assert_eq!(
        decode(vec![0x01, 0, 0, 0, 0, 0, 0, 0, 3, 0xed, 0xa0, 0x80]),
        Err(DecodeError::InvalidText)
    );
}

#[test]
fn error_inside_a_sequence_fails_the_whole_decode() {
    let bytes = vec![0x10, 0, 0, 0, 1, 0x00, 0, 0, 0, 0, 0, 0, 0, 1, 0x42];
    assert_eq!(decode(bytes), Err(DecodeError::UnknownTag(0x42)));
    let bytes = vec![0x00, 0, 0, 0, 0, 0, 0, 0, 2, 0x10, 0];
    assert_eq!(decode(bytes), Err(DecodeError::TruncatedInput));
}

#[test]
fn inner_stream_never_reads_outer_bytes() {
    let bytes = vec![0x00, 0, 0, 0, 0, 0, 0, 0, 1, 0x10, 0, 0, 0, 7];
    assert_eq!(decode(bytes), Err(DecodeError::TruncatedInput));
}

fn nested(levels: usize) -> Value {
    let mut value = Value::Int32(1);
    for _ in 0..levels {
        value = Value::Sequence(vec![value]);
    }
    value
}

#[test]
fn nesting_up_to_the_limit_is_followed() {
    assert_eq!(DEFAULT_MAX_DEPTH, 64);
    let bytes = encode(vec![nested(DEFAULT_MAX_DEPTH)]);
    assert_eq!(decode(bytes), Ok(vec![nested(DEFAULT_MAX_DEPTH)]));
    let bytes = encode(vec![nested(3)]);
    assert_eq!(
        Deserializer::with_max_depth(bytes, 3).deserialize(),
        Ok(vec![nested(3)])
    );
}

#[test]
fn nesting_beyond_the_limit_is_refused() {
    let bytes = encode(vec![nested(DEFAULT_MAX_DEPTH + 1)]);
    assert_eq!(decode(bytes), Err(DecodeError::NestingTooDeep));
    let bytes = encode(vec![nested(3)]);
    assert_eq!(
        Deserializer::with_max_depth(bytes, 2).deserialize(),
        Err(DecodeError::NestingTooDeep)
    );
    let bytes = encode(vec![Value::Sequence(vec![])]);
    assert_eq!(
        Deserializer::with_max_depth(bytes, 0).deserialize(),
        Err(DecodeError::NestingTooDeep)
    );
    let flat = encode(vec![Value::Int32(1), text("x")]);
    assert_eq!(
        Deserializer::with_max_depth(flat, 0).deserialize(),
        Ok(vec![Value::Int32(1), text("x")])
    );
}

#[test]
fn deserialize_values_on_a_slice() {
    let bytes = encode(sample());
    assert_eq!(Deserializer::deserialize_values(&bytes, 8), Ok(sample()));
    assert_eq!(
        Deserializer::deserialize_values(&bytes[9..], 8),
        Ok(sample()[1..].to_vec())
    );
    assert_eq!(
        Deserializer::deserialize_values(&bytes[5..], 8),
        Err(DecodeError::UnknownTag(0x65))
    );
}

#[test]
fn serialize_values_on_a_list() {
    assert_eq!(
        Serializer::serialize_values(&sample()),
        Ok(encode(sample()))
    );
}

#[test]
fn decoded_bytes_encode_back_to_themselves() {
    let bytes = encode(sample());
    let values = decode(bytes.clone()).unwrap();
    assert_eq!(encode(values), bytes);
}
