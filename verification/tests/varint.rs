use bincodec::BinaryReader;
use bincodec::BinaryWriter;
use bincodec::DataDecodeError;

fn encode_varint32(v: i32) -> Vec<u8> {
    let mut w = BinaryWriter::new(Vec::new());
    w.write_7_bit_encoded_int(v);
    w.into_inner()
}

fn encode_varint64(v: i64) -> Vec<u8> {
    let mut w = BinaryWriter::new(Vec::new());
    w.write_7_bit_encoded_int64(v);
    w.into_inner()
}

#[test]
fn overflow_7_bit_encoded_int() {
    let data: [u8; 15] = [0xff; 15];

    let mut reader = BinaryReader::new(data.to_vec());
    let result = reader.read_7_bit_encoded_int();
    if let Ok(_inner) = result {
        panic!() // it should have errored
    }

    let result_64 = reader.read_7_bit_encoded_int64();
    if let Ok(_inner) = result_64 {
        panic!() // it should have errored
    }
}

#[test]
fn overflow_is_integer_overflow_and_consumes_bytes() {
    // Five bytes of 32-bit varint, final byte 0x10 just over the bound of
    // 15, then one more byte that must still be readable afterwards.
    let mut reader = BinaryReader::new(vec![0x80, 0x80, 0x80, 0x80, 0x10, 0x07]);
    assert_eq!(
        Err(DataDecodeError::IntegerOverflow),
        reader.read_7_bit_encoded_int()
    );
    assert_eq!(5, reader.num_bytes_read());
    assert_eq!(Ok(0x07), reader.read_byte());
}

#[test]
fn varint_truncated_stream_is_not_enough_bytes() {
    let mut reader = BinaryReader::new(vec![0xff, 0xff]);
    assert_eq!(
        Err(DataDecodeError::NotEnoughBytes),
        reader.read_7_bit_encoded_int()
    );
    // Every byte of the partial encoding stays consumed.
    assert_eq!(2, reader.num_bytes_read());
}

#[test]
fn single_byte_values_encode_as_themselves() {
    for n in 0..=0x7f_i32 {
        let bytes = encode_varint32(n);
        assert_eq!(vec![n as u8], bytes);
        let mut reader = BinaryReader::new(bytes);
        assert_eq!(Ok(n), reader.read_7_bit_encoded_int());
        assert_eq!(1, reader.num_bytes_read());
    }
}

#[test]
fn varint32_known_encodings() {
    assert_eq!(vec![0x00], encode_varint32(0));
    assert_eq!(vec![0xac, 0x02], encode_varint32(300));
    assert_eq!(vec![0x94, 0x03], encode_varint32(404));
    assert_eq!(vec![0xad, 0xfa, 0xff, 0xff, 0x0f], encode_varint32(-723));
    assert_eq!(vec![0xff, 0xff, 0xff, 0xff, 0x0f], encode_varint32(-1));
}

#[test]
fn varint64_known_encodings() {
    assert_eq!(vec![0x2a], encode_varint64(42));
    assert_eq!(
        vec![0xff, 0xff, 0xff, 0xff, 0xff, 0xff, 0xff, 0xff, 0xff, 0x01],
        encode_varint64(-1)
    );
}

#[test]
fn varint32_round_trips() {
    let values = [
        0,
        1,
        -1,
        127,
        128,
        300,
        404,
        -723,
        0x0fff_ffff,
        0x1000_0000,
        i32::MIN,
        i32::MAX,
    ];
    for &v in values.iter() {
        let bytes = encode_varint32(v);
        let mut reader = BinaryReader::new(bytes);
        assert_eq!(Ok(v), reader.read_7_bit_encoded_int());
    }
}

#[test]
fn varint64_round_trips() {
    let values = [
        0,
        1,
        -1,
        127,
        128,
        9000000000000000000,
        -500000000000000000,
        i64::MIN,
        i64::MAX,
    ];
    for &v in values.iter() {
        let bytes = encode_varint64(v);
        let mut reader = BinaryReader::new(bytes);
        assert_eq!(Ok(v), reader.read_7_bit_encoded_int64());
    }
}
