use sensor_bus::text::{join_texts, split_tokens, text_of, texts_of};
use sensor_bus::{
    bytes_to_i16, bytes_to_i32, bytes_to_u16, bytes_to_u32, decode_fields, encode_fields,
    DataType, DecodeError, FieldValue,
};

fn names(list: &[&str]) -> Vec<String> {
    list.iter().map(|s| s.to_string()).collect()
}

#[test]
fn big_endian_readers() {
    let b: Vec<u8> = vec![0x12, 0x34, 0x56, 0x78, 0x9a];
    assert_eq!(bytes_to_u16(&b, 0), 0x1234);
    assert_eq!(bytes_to_u16(&b, 3), 0x789a);
    assert_eq!(bytes_to_i16(&b, 0), 0x1234);
    assert_eq!(bytes_to_i16(&b, 3), 0x789a);
    assert_eq!(bytes_to_u32(&b, 0), 0x12345678);
    assert_eq!(bytes_to_u32(&b, 1), 0x3456789a);
    assert_eq!(bytes_to_i32(&b, 1), 0x3456789a);
}

#[test]
fn signed_readers_use_twos_complement() {
    let b: Vec<u8> = vec![0xff, 0xff, 0xff, 0xff, 0x80, 0x00, 0x00, 0x00, 0x7f, 0xff, 0xff, 0xff];
    assert_eq!(bytes_to_i16(&b, 0), -1);
    assert_eq!(bytes_to_u16(&b, 0), 65535);
    assert_eq!(bytes_to_i16(&b, 4), i16::MIN);
    assert_eq!(bytes_to_i16(&b, 8), i16::MAX);
    assert_eq!(bytes_to_i32(&b, 0), -1);
    assert_eq!(bytes_to_u32(&b, 0), u32::MAX);
    assert_eq!(bytes_to_i32(&b, 4), i32::MIN);
    assert_eq!(bytes_to_i32(&b, 8), i32::MAX);
    assert_eq!(bytes_to_i32(&b, 3), -8388608);
}

#[test]
fn readers_agree_with_std() {
    let b: Vec<u8> = vec![0x00, 0xff, 0x80, 0x7f, 0x01, 0xfe, 0x10];
    for start in 0..=3 {
        let two = [b[start], b[start + 1]];
        let four = [b[start], b[start + 1], b[start + 2], b[start + 3]];
        assert_eq!(bytes_to_u16(&b, start), u16::from_be_bytes(two));
        assert_eq!(bytes_to_i16(&b, start), i16::from_be_bytes(two));
        assert_eq!(bytes_to_u32(&b, start), u32::from_be_bytes(four));
        assert_eq!(bytes_to_i32(&b, start), i32::from_be_bytes(four));
    }
}

#[test]
fn type_widths() {
    assert_eq!(DataType::U8.size(), 1);
    assert_eq!(DataType::I8.size(), 1);
    assert_eq!(DataType::U16.size(), 2);
    assert_eq!(DataType::I16.size(), 2);
    assert_eq!(DataType::U32.size(), 4);
    assert_eq!(DataType::I32.size(), 4);
    assert_eq!(DataType::F32.size(), 4);
}

#[test]
fn type_tags() {
    assert_eq!(DataType::of_name("u8"), Some(DataType::U8));
    assert_eq!(DataType::of_name("i8"), Some(DataType::I8));
    assert_eq!(DataType::of_name("u16"), Some(DataType::U16));
    assert_eq!(DataType::of_name("i16"), Some(DataType::I16));
    assert_eq!(DataType::of_name("u32"), Some(DataType::U32));
    assert_eq!(DataType::of_name("i32"), Some(DataType::I32));
    assert_eq!(DataType::of_name("f32"), Some(DataType::F32));
    assert_eq!(DataType::parse(b"f32"), Some(DataType::F32));
}

#[test]
fn what_is_no_type_tag() {
    for name in [
        "", "u", "8", "u9", "f8", "u8 ", " u8", "u88", "u61", "u23", "f16", "i23", "f33", "u64",
        "f64", "U16", "u016", "u\u{b9}6", "\u{ff55}8",
    ] {
        assert_eq!(DataType::of_name(name), None, "{:?}", name);
    }
    assert_eq!(DataType::parse(&[0x75, 0x38, 0x00]), None);
    assert_eq!(DataType::parse(&[0xff, 0x38]), None);
}

#[test]
fn value_types() {
    assert_eq!(FieldValue::U8(1).kind(), DataType::U8);
    assert_eq!(FieldValue::I8(1).kind(), DataType::I8);
    assert_eq!(FieldValue::U16(1).kind(), DataType::U16);
    assert_eq!(FieldValue::I16(1).kind(), DataType::I16);
    assert_eq!(FieldValue::U32(1).kind(), DataType::U32);
    assert_eq!(FieldValue::I32(1).kind(), DataType::I32);
    assert_eq!(FieldValue::F32(1).kind(), DataType::F32);
}

#[test]
fn encoding_is_big_endian() {
    let mut out: Vec<u8> = vec![0xee];
    FieldValue::U16(0x1234).write_to(&mut out);
    assert_eq!(out, vec![0xee, 0x12, 0x34]);
    FieldValue::U32(0xdeadbeef).write_to(&mut out);
    assert_eq!(out, vec![0xee, 0x12, 0x34, 0xde, 0xad, 0xbe, 0xef]);

    assert_eq!(encode_fields(&vec![FieldValue::U8(0x7f)]), vec![0x7f]);
    assert_eq!(encode_fields(&vec![FieldValue::I8(-2)]), vec![0xfe]);
    assert_eq!(encode_fields(&vec![FieldValue::I16(-2)]), vec![0xff, 0xfe]);
    assert_eq!(encode_fields(&vec![FieldValue::I16(0x0102)]), vec![0x01, 0x02]);
    assert_eq!(encode_fields(&vec![FieldValue::I32(-2)]), vec![0xff, 0xff, 0xff, 0xfe]);
    assert_eq!(encode_fields(&vec![FieldValue::I32(0x01020304)]), vec![1, 2, 3, 4]);
    assert_eq!(
        encode_fields(&vec![FieldValue::F32(2.5f32.to_bits())]),
        2.5f32.to_be_bytes().to_vec()
    );
    assert_eq!(encode_fields(&vec![]), Vec::<u8>::new());
}

#[test]
fn round_trip_at_the_boundaries() {
    let values = vec![
        FieldValue::U8(0),
        FieldValue::U8(255),
        FieldValue::I8(-1),
        FieldValue::I8(i8::MIN),
        FieldValue::I8(i8::MAX),
        FieldValue::U16(0),
        FieldValue::U16(65535),
        FieldValue::I16(-1),
        FieldValue::I16(i16::MIN),
        FieldValue::I16(i16::MAX),
        FieldValue::U32(0),
        FieldValue::U32(u32::MAX),
        FieldValue::I32(-1),
        FieldValue::I32(i32::MIN),
        FieldValue::I32(i32::MAX),
        FieldValue::F32(0),
        FieldValue::F32((-0.0f32).to_bits()),
        FieldValue::F32(f32::MAX.to_bits()),
        FieldValue::F32(f32::NAN.to_bits()),
    ];
    let formats = names(&[
        "u8", "u8", "i8", "i8", "i8", "u16", "u16", "i16", "i16", "i16", "u32", "u32", "i32",
        "i32", "i32", "f32", "f32", "f32", "f32",
    ]);
    let raw = encode_fields(&values);
    assert_eq!(raw.len(), 2 + 3 + 2 * 5 + 4 * 9);
    assert_eq!(decode_fields(&formats, &raw), Ok(values));
}

#[test]
fn round_trip_from_bytes() {
    let raw: Vec<u8> = (0..=17u8).map(|b| b.wrapping_mul(37).wrapping_add(200)).collect();
    let formats = names(&["i8", "u8", "i16", "u16", "i32", "f32", "u32"]);
    let values = decode_fields(&formats, &raw).unwrap();
    assert_eq!(values.len(), 7);
    assert_eq!(encode_fields(&values), raw);
}

#[test]
fn short_buffers_are_underruns() {
    let formats = names(&["u8", "u32", "i16"]);
    let raw: Vec<u8> = vec![1, 2, 3, 4, 5, 6, 7];
    for len in 0..7 {
        assert_eq!(
            decode_fields(&formats, &raw[..len].to_vec()),
            Err(DecodeError::BufferUnderrun),
            "{} bytes",
            len
        );
    }
    assert_eq!(
        decode_fields(&formats, &raw),
        Ok(vec![FieldValue::U8(1), FieldValue::U32(0x02030405), FieldValue::I16(0x0607)])
    );
    let mut long = raw.clone();
    long.push(8);
    assert_eq!(decode_fields(&formats, &long), Err(DecodeError::FieldCountMismatch));
}

#[test]
fn split_and_join() {
    let list = b"Status Temp Humid".to_vec();
    let parts = split_tokens(&list);
    assert_eq!(parts, vec![b"Status".to_vec(), b"Temp".to_vec(), b"Humid".to_vec()]);
    assert_eq!(join_texts(&names(&["Status", "Temp", "Humid"])), list);
}

#[test]
fn split_keeps_empty_tokens() {
    assert_eq!(split_tokens(b""), vec![Vec::<u8>::new()]);
    assert_eq!(split_tokens(b" "), vec![Vec::<u8>::new(), vec![]]);
    assert_eq!(split_tokens(b"a"), vec![b"a".to_vec()]);
    assert_eq!(split_tokens(b"a  b"), vec![b"a".to_vec(), vec![], b"b".to_vec()]);
    assert_eq!(split_tokens(b" a "), vec![vec![], b"a".to_vec(), vec![]]);
    assert_eq!(split_tokens(b"a\tb\nc"), vec![b"a\tb\nc".to_vec()]);
}

#[test]
fn join_of_few() {
    assert_eq!(join_texts(&vec![]), Vec::<u8>::new());
    assert_eq!(join_texts(&names(&["one"])), b"one".to_vec());
    assert_eq!(join_texts(&names(&[""])), Vec::<u8>::new());
    assert_eq!(join_texts(&names(&["", ""])), b" ".to_vec());
    assert_eq!(join_texts(&names(&["a", "", "b"])), b"a  b".to_vec());
    assert_eq!(join_texts(&names(&["\u{b0}C", "x"])), vec![0xc2, 0xb0, b'C', b' ', b'x']);
}

#[test]
fn join_then_split_gives_the_names_back() {
    for list in [
        names(&["a"]),
        names(&["Status", "Temp", "Humid"]),
        names(&["", "", ""]),
        names(&["\u{6e7f}", "", "x\u{1f321}y"]),
    ] {
        assert_eq!(texts_of(&join_texts(&list)), Some(list));
    }
}

#[test]
fn split_then_join_gives_the_bytes_back() {
    for text in ["", " ", "a", "a b", "  a  b  ", "\u{6e7f} \u{b0}"] {
        let parts = texts_of(text.as_bytes()).unwrap();
        assert_eq!(join_texts(&parts), text.as_bytes().to_vec());
    }
}

#[test]
fn text_of_reads_utf8() {
    assert_eq!(text_of(b"Fakesensor".to_vec()), Some(String::from("Fakesensor")));
    assert_eq!(text_of(vec![0xe6, 0xb9, 0xbf]), Some(String::from("\u{6e7f}")));
    assert_eq!(text_of(vec![]), Some(String::new()));
    assert_eq!(text_of(vec![0xe6, 0xb9]), None);
    assert_eq!(text_of(vec![0xc0, 0x80]), None);
    assert_eq!(text_of(vec![0xed, 0xa0, 0x80]), None);
    assert_eq!(text_of(vec![0x80]), None);
}

#[test]
fn texts_of_is_all_or_nothing() {
    assert_eq!(texts_of(b"a b"), Some(names(&["a", "b"])));
    assert_eq!(texts_of(&[b'a', b' ', 0xff]), None);
    assert_eq!(texts_of(&[0xe6, b' ', 0xb9, 0xbf]), None);
}
