use bincodec::BinaryReader;
use bincodec::DataDecodeError;

#[test]
fn read_bytes_with_too_few_available_fails() {
    let mut reader = BinaryReader::new(vec![0x01, 0x02, 0x03]);
    assert_eq!(
        Err(DataDecodeError::NotEnoughBytes),
        reader.read_bytes(5)
    );
    // The failed request consumed nothing; the three bytes still decode.
    assert_eq!(0, reader.num_bytes_read());
    assert_eq!(Ok(vec![0x01, 0x02, 0x03]), reader.read_bytes(3));
    assert_eq!(3, reader.num_bytes_read());
}

#[test]
fn peek_does_not_advance_the_stream() {
    let mut reader = BinaryReader::new(vec![0x0a, 0x0b, 0x0c]);
    let peeked = reader.peek_bytes(2).unwrap();
    assert_eq!(0, reader.num_bytes_read());
    let read = reader.read_bytes(2).unwrap();
    assert_eq!(peeked, read);
    assert_eq!(2, reader.num_bytes_read());
}

#[test]
fn peek_byte_matches_read_byte() {
    let mut reader = BinaryReader::new(vec![0x42, 0x43]);
    assert_eq!(Ok(0x42), reader.peek_byte());
    assert_eq!(Ok(0x42), reader.peek_byte());
    assert_eq!(Ok(0x42), reader.read_byte());
    assert_eq!(Ok(0x43), reader.peek_byte());
    assert_eq!(Ok(0x43), reader.read_byte());
    assert_eq!(Err(DataDecodeError::NotEnoughBytes), reader.peek_byte());
}

#[test]
fn peek_past_the_end_fails() {
    let reader = BinaryReader::new(vec![0x01]);
    assert_eq!(Err(DataDecodeError::NotEnoughBytes), reader.peek_bytes(2));
}

#[test]
fn read_zero_bytes_succeeds_on_empty_input() {
    let mut reader = BinaryReader::new(Vec::new());
    assert_eq!(Ok(Vec::new()), reader.read_bytes(0));
    assert_eq!(Err(DataDecodeError::NotEnoughBytes), reader.read_byte());
}

#[test]
fn read_boolean_decodes_any_nonzero_as_true() {
    let mut reader = BinaryReader::new(vec![0x01, 0x00, 0x02]);
    assert_eq!(Ok(true), reader.read_boolean());
    assert_eq!(Ok(false), reader.read_boolean());
    assert_eq!(Ok(true), reader.read_boolean());
    assert_eq!(Err(DataDecodeError::NotEnoughBytes), reader.read_boolean());
}

#[test]
fn fixed_width_little_endian_decoding() {
    let mut reader = BinaryReader::new(vec![0x2c, 0x01]);
    assert_eq!(Ok(300), reader.read_u16());

    let mut reader = BinaryReader::new(vec![0xfb, 0xff]);
    assert_eq!(Ok(-5), reader.read_i16());

    let mut reader = BinaryReader::new(vec![0x78, 0x56, 0x34, 0x12]);
    assert_eq!(Ok(0x1234_5678), reader.read_u32());

    let mut reader = BinaryReader::new(vec![0x9c, 0xff, 0xff, 0xff]);
    assert_eq!(Ok(-100), reader.read_i32());

    let mut reader = BinaryReader::new(vec![0xff, 0xff, 0xff, 0x7f, 0xff, 0xff, 0xff, 0xff]);
    assert_eq!(Ok(-2147483649), reader.read_i64());

    let mut reader = BinaryReader::new(vec![0x90]);
    assert_eq!(Ok(-112), reader.read_i8());
}

#[test]
fn fixed_width_reads_fail_without_enough_bytes() {
    let mut reader = BinaryReader::new(vec![0x01, 0x02, 0x03]);
    assert_eq!(Err(DataDecodeError::NotEnoughBytes), reader.read_u32());
    assert_eq!(Err(DataDecodeError::NotEnoughBytes), reader.read_i32());
    assert_eq!(Err(DataDecodeError::NotEnoughBytes), reader.read_u64());
    assert_eq!(Err(DataDecodeError::NotEnoughBytes), reader.read_i64());
    // Failed fixed-width reads consume nothing.
    assert_eq!(0, reader.num_bytes_read());
    assert_eq!(Ok(vec![0x01, 0x02, 0x03]), reader.read_bytes(3));
}

#[test]
fn num_bytes_read_counts_only_consumed_bytes() {
    let mut reader = BinaryReader::new(vec![0x01, 0x02, 0x03, 0x04]);
    assert_eq!(0, reader.num_bytes_read());
    reader.peek_bytes(4).unwrap();
    assert_eq!(0, reader.num_bytes_read());
    reader.read_byte().unwrap();
    assert_eq!(1, reader.num_bytes_read());
    reader.read_u16().unwrap();
    assert_eq!(3, reader.num_bytes_read());
    reader.read_byte().unwrap();
    assert_eq!(4, reader.num_bytes_read());
}
