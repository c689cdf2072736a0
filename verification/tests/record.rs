use m3d::{
    decode_file, encode_file, generate, read, stamp, DecodeError, Deserializer, File, Header,
    ReadError, Serializer, Value,
};

fn sample_file() -> File {
    File {
        header: Header { time: 1_700_000_000, name: "Ada".to_string() },
        data: vec![vec![vec![7, 8], vec![9]], vec![vec![-1]]],
    }
}

fn encode(values: Vec<Value>) -> Vec<u8> {
    let mut serializer = Serializer::new();
    for value in values {
        serializer.add(value);
    }
    serializer.serialize().unwrap()
}

#[test]
fn a_file_is_three_values_in_order() {
    let bytes = encode_file(sample_file()).unwrap();
    let values = Deserializer::new(bytes).deserialize().unwrap();
    assert_eq!(
        values,
        vec![
            Value::UInt64(1_700_000_000),
            Value::Text("Ada".to_string()),
            Value::Sequence(vec![
                Value::Sequence(vec![
                    Value::Sequence(vec![Value::Int32(7), Value::Int32(8)]),
                    Value::Sequence(vec![Value::Int32(9)]),
                ]),
                Value::Sequence(vec![Value::Sequence(vec![Value::Int32(-1)])]),
            ]),
        ]
    );
}

#[test]
fn exact_bytes_of_a_small_file() {
    let file = File {
        header: Header { time: 1, name: "a".to_string() },
        data: vec![vec![vec![7]]],
    };
    let mut expected = vec![0x11, 0, 0, 0, 0, 0, 0, 0, 1];
    expected.extend_from_slice(&[0x01, 0, 0, 0, 0, 0, 0, 0, 1, 0x61]);
    expected.extend_from_slice(&[0x00, 0, 0, 0, 0, 0, 0, 0, 23]);
    expected.extend_from_slice(&[0x00, 0, 0, 0, 0, 0, 0, 0, 14]);
    expected.extend_from_slice(&[0x00, 0, 0, 0, 0, 0, 0, 0, 5]);
    expected.extend_from_slice(&[0x10, 0, 0, 0, 7]);
    assert_eq!(encode_file(file), Ok(expected));
}

#[test]
fn file_round_trip_uncompressed() {
    let bytes = encode_file(sample_file()).unwrap();
    assert_eq!(decode_file(bytes), Ok(sample_file()));
}

#[test]
fn file_round_trip_compressed() {
    let file = sample_file();
    let compressed = generate(file.data, file.header.time, file.header.name).unwrap();
    assert_eq!(read(&compressed), Ok(sample_file()));
}

#[test]
fn generate_compresses_the_encoding() {
    let plain = encode_file(sample_file()).unwrap();
    let file = sample_file();
    let compressed = generate(file.data, file.header.time, file.header.name).unwrap();
    assert_ne!(compressed, plain);
    assert_eq!(compressed[0], 0x78);
    assert_eq!(decode_file(compressed.clone()), Err(ReadError::Codec(DecodeError::UnknownTag(0x78))));
    let again = sample_file();
    assert_eq!(
        generate(again.data, again.header.time, again.header.name),
        Ok(compressed)
    );
}

#[test]
fn long_runs_shrink_under_compression() {
    let data = vec![vec![vec![0; 1000]]];
    let plain = encode_file(File {
        header: Header { time: 0, name: String::new() },
        data: data.clone(),
    })
    .unwrap();
    let compressed = generate(data.clone(), 0, String::new()).unwrap();
    assert!(compressed.len() < plain.len() / 10);
    assert_eq!(read(&compressed).unwrap().data, data);
}

#[test]
fn read_refuses_what_is_no_zlib_stream() {
    assert_eq!(read(&[]), Err(ReadError::Inflate));
    assert_eq!(read(&[1, 2, 3, 4]), Err(ReadError::Inflate));
    let plain = encode_file(sample_file()).unwrap();
    assert_eq!(read(&plain), Err(ReadError::Inflate));
}

#[test]
fn decode_file_reports_codec_errors() {
    assert_eq!(
        decode_file(vec![0x42]),
        Err(ReadError::Codec(DecodeError::UnknownTag(0x42)))
    );
    assert_eq!(
        decode_file(vec![0x11, 0]),
        Err(ReadError::Codec(DecodeError::TruncatedInput))
    );
    assert_eq!(
        decode_file(vec![0x01, 0, 0, 0, 0, 0, 0, 0, 1, 0xff]),
        Err(ReadError::Codec(DecodeError::InvalidText))
    );
}

#[test]
fn decode_file_reports_shape_errors() {
    assert_eq!(decode_file(vec![]), Err(ReadError::Shape));
    let two = encode(vec![Value::UInt64(1), Value::Text("a".to_string())]);
    assert_eq!(decode_file(two), Err(ReadError::Shape));
    let grid = || Value::Sequence(vec![]);
    let swapped = encode(vec![Value::Text("a".to_string()), Value::UInt64(1), grid()]);
    assert_eq!(decode_file(swapped), Err(ReadError::Shape));
    let time_as_int = encode(vec![Value::Int32(1), Value::Text("a".to_string()), grid()]);
    assert_eq!(decode_file(time_as_int), Err(ReadError::Shape));
    let flat = encode(vec![
        Value::UInt64(1),
        Value::Text("a".to_string()),
        Value::Sequence(vec![Value::Int32(7)]),
    ]);
    assert_eq!(decode_file(flat), Err(ReadError::Shape));
}

#[test]
fn values_behind_the_third_are_not_looked_at() {
    let bytes = encode(vec![
        Value::UInt64(5),
        Value::Text("b".to_string()),
        Value::Sequence(vec![]),
        Value::Int32(99),
    ]);
    assert_eq!(
        decode_file(bytes),
        Ok(File { header: Header { time: 5, name: "b".to_string() }, data: vec![] })
    );
}

#[test]
fn stamp_of_seconds() {
    assert_eq!(stamp(0), 0);
    assert_eq!(stamp(1_700_000_000), 1_700_000_000);
    assert_eq!(stamp(i64::MAX), 0x7fff_ffff_ffff_ffff);
    assert_eq!(stamp(-1), u64::MAX);
    assert_eq!(stamp(i64::MIN), 0x8000_0000_0000_0000);
}

#[test]
fn generate_keeps_the_stamp_it_is_given() {
    let data = vec![vec![vec![7]]];
    for seconds in [0, 1_700_000_000, -1, i64::MIN] {
        let compressed = generate(data.clone(), stamp(seconds), "Ada".to_string()).unwrap();
        let file = read(&compressed).unwrap();
        assert_eq!(file.header.time, stamp(seconds));
        assert_eq!(file.header.name, "Ada");
        assert_eq!(file.data, data);
    }
}
