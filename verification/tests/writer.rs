use bincodec::BinaryWriter;

#[test]
fn write_byte_and_bytes_append_in_order() {
    let mut w = BinaryWriter::new(Vec::new());
    assert_eq!(1, w.write_byte(0x45));
    assert_eq!(5, w.write_bytes(&[0x01, 0x02, 0x03, 0x04, 0x05]));
    assert_eq!(
        vec![0x45, 0x01, 0x02, 0x03, 0x04, 0x05],
        w.into_inner()
    );
}

#[test]
fn writer_appends_to_the_provided_sink() {
    let mut w = BinaryWriter::new(vec![0xaa]);
    w.write_byte(0xbb);
    assert_eq!(vec![0xaa, 0xbb], w.into_inner());
}

#[test]
fn write_boolean_uses_one_and_zero() {
    let mut w = BinaryWriter::new(Vec::new());
    assert_eq!(1, w.write_boolean(true));
    assert_eq!(1, w.write_boolean(false));
    assert_eq!(vec![0x01, 0x00], w.into_inner());
}

#[test]
fn fixed_width_little_endian_encoding() {
    let mut w = BinaryWriter::new(Vec::new());
    assert_eq!(2, w.write_u16(300));
    assert_eq!(vec![0x2c, 0x01], w.into_inner());

    let mut w = BinaryWriter::new(Vec::new());
    assert_eq!(2, w.write_i16(-5));
    assert_eq!(vec![0xfb, 0xff], w.into_inner());

    let mut w = BinaryWriter::new(Vec::new());
    assert_eq!(4, w.write_u32(0x1234_5678));
    assert_eq!(vec![0x78, 0x56, 0x34, 0x12], w.into_inner());

    let mut w = BinaryWriter::new(Vec::new());
    assert_eq!(4, w.write_i32(-100));
    assert_eq!(vec![0x9c, 0xff, 0xff, 0xff], w.into_inner());

    let mut w = BinaryWriter::new(Vec::new());
    assert_eq!(8, w.write_i64(-2147483649));
    assert_eq!(
        vec![0xff, 0xff, 0xff, 0x7f, 0xff, 0xff, 0xff, 0xff],
        w.into_inner()
    );

    let mut w = BinaryWriter::new(Vec::new());
    assert_eq!(8, w.write_u64(0x0102_0304_0506_0708));
    assert_eq!(
        vec![0x08, 0x07, 0x06, 0x05, 0x04, 0x03, 0x02, 0x01],
        w.into_inner()
    );

    let mut w = BinaryWriter::new(Vec::new());
    assert_eq!(1, w.write_i8(-112));
    assert_eq!(vec![0x90], w.into_inner());
}

#[test]
fn write_string_prefixes_the_byte_length() {
    let mut w = BinaryWriter::new(Vec::new());
    assert_eq!(5, w.write_string("meow"));
    assert_eq!(vec![0x04, 0x6d, 0x65, 0x6f, 0x77], w.into_inner());

    let mut w = BinaryWriter::new(Vec::new());
    assert_eq!(1, w.write_string(""));
    assert_eq!(vec![0x00], w.into_inner());

    // The length prefix counts UTF-8 bytes, not characters.
    let mut w = BinaryWriter::new(Vec::new());
    assert_eq!(4, w.write_string("\u{2603}"));
    assert_eq!(vec![0x03, 0xe2, 0x98, 0x83], w.into_inner());
}

#[test]
fn write_char_encodes_utf8_of_every_width() {
    let mut w = BinaryWriter::new(Vec::new());
    assert_eq!(1, w.write_char('A'));
    assert_eq!(vec![0x41], w.into_inner());

    let mut w = BinaryWriter::new(Vec::new());
    assert_eq!(1, w.write_char('\0'));
    assert_eq!(vec![0x00], w.into_inner());

    let mut w = BinaryWriter::new(Vec::new());
    assert_eq!(2, w.write_char('\u{00e9}'));
    assert_eq!(vec![0xc3, 0xa9], w.into_inner());

    let mut w = BinaryWriter::new(Vec::new());
    assert_eq!(3, w.write_char('\u{2603}'));
    assert_eq!(vec![0xe2, 0x98, 0x83], w.into_inner());

    let mut w = BinaryWriter::new(Vec::new());
    assert_eq!(4, w.write_char('\u{1f600}'));
    assert_eq!(vec![0xf0, 0x9f, 0x98, 0x80], w.into_inner());
}
