use bincodec::BinaryReader;
use bincodec::BinaryWriter;
use bincodec::DataDecodeError;

fn string_round_trip(s: &str) {
    let mut w = BinaryWriter::new(Vec::new());
    w.write_string(s);
    let mut reader = BinaryReader::new(w.into_inner());
    assert_eq!(Ok(s.to_string()), reader.read_string());
}

#[test]
fn strings_round_trip() {
    string_round_trip("");
    string_round_trip("meow");
    string_round_trip("meowmeowmeowmeowmeow");
    string_round_trip("sn\u{00f6}\u{2603}man \u{1f600}");
    string_round_trip(&"long ".repeat(100));
}

#[test]
fn read_string_decodes_known_bytes() {
    let mut reader = BinaryReader::new(vec![0x04, 0x6d, 0x65, 0x6f, 0x77, 0x45]);
    assert_eq!(Ok("meow".to_string()), reader.read_string());
    assert_eq!(5, reader.num_bytes_read());
    assert_eq!(Ok(0x45), reader.read_byte());
}

#[test]
fn read_string_with_invalid_utf8_consumes_its_bytes() {
    let mut reader = BinaryReader::new(vec![0x02, 0xff, 0xff, 0x07]);
    assert_eq!(Err(DataDecodeError::InvalidUtf8), reader.read_string());
    // Both the length prefix and the payload stay consumed.
    assert_eq!(3, reader.num_bytes_read());
    assert_eq!(Ok(0x07), reader.read_byte());
}

#[test]
fn read_string_with_short_payload_keeps_the_prefix_consumed() {
    let mut reader = BinaryReader::new(vec![0x05, 0x61]);
    assert_eq!(Err(DataDecodeError::NotEnoughBytes), reader.read_string());
    assert_eq!(1, reader.num_bytes_read());
    assert_eq!(Ok(0x61), reader.read_byte());
}

#[test]
fn read_string_with_negative_length_is_integer_overflow() {
    // The varint decodes to -1, which cannot be a byte length.
    let mut reader = BinaryReader::new(vec![0xff, 0xff, 0xff, 0xff, 0x0f, 0x61]);
    assert_eq!(Err(DataDecodeError::IntegerOverflow), reader.read_string());
    assert_eq!(5, reader.num_bytes_read());
    assert_eq!(Ok(0x61), reader.read_byte());
}

#[test]
fn nul_byte_decodes_to_nul_character() {
    let mut reader = BinaryReader::new(vec![0x00]);
    assert_eq!(Ok('\0'), reader.read_char());
    assert_eq!(1, reader.num_bytes_read());
}

#[test]
fn snowman_decodes_in_exactly_three_bytes() {
    let mut reader = BinaryReader::new(vec![0xe2, 0x98, 0x83, 0x45]);
    assert_eq!(Ok('\u{2603}'), reader.read_char());
    assert_eq!(3, reader.num_bytes_read());
    assert_eq!(Ok(0x45), reader.read_byte());
}

#[test]
fn chars_of_every_width_round_trip() {
    for c in ['A', '\0', '\u{7f}', '\u{80}', '\u{00e9}', '\u{7ff}', '\u{800}', '\u{2603}',
        '\u{ffff}', '\u{10000}', '\u{1f600}', '\u{10ffff}']
    {
        let mut w = BinaryWriter::new(Vec::new());
        let n = w.write_char(c);
        let mut reader = BinaryReader::new(w.into_inner());
        assert_eq!(Ok(c), reader.read_char());
        assert_eq!(n as u64, reader.num_bytes_read());
    }
}

#[test]
fn invalid_lead_byte_consumes_four_bytes() {
    let mut reader = BinaryReader::new(vec![0xff, 0x01, 0x02, 0x03, 0x04]);
    assert_eq!(Err(DataDecodeError::InvalidUtf8), reader.read_char());
    assert_eq!(4, reader.num_bytes_read());
    assert_eq!(Ok(0x04), reader.read_byte());
}

#[test]
fn surrogate_encoding_is_invalid_utf8() {
    let mut reader = BinaryReader::new(vec![0xed, 0xa0, 0x80, 0x41]);
    assert_eq!(Err(DataDecodeError::InvalidUtf8), reader.read_char());
    assert_eq!(4, reader.num_bytes_read());
}

#[test]
fn overlong_encoding_is_invalid_utf8() {
    // 0xc0 0x80 would be an overlong encoding of the NUL character.
    let mut reader = BinaryReader::new(vec![0xc0, 0x80, 0x41, 0x42]);
    assert_eq!(Err(DataDecodeError::InvalidUtf8), reader.read_char());
    assert_eq!(4, reader.num_bytes_read());
}

#[test]
fn truncated_character_is_not_enough_bytes() {
    let mut reader = BinaryReader::new(vec![0xe2, 0x98]);
    assert_eq!(Err(DataDecodeError::NotEnoughBytes), reader.read_char());
    assert_eq!(2, reader.num_bytes_read());
}
