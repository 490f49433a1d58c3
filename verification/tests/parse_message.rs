use protobuf_iter::message::Message;
use protobuf_iter::parse_message::{parse_message, ParseResult, ParseValue};

#[test]
fn parse_message_strings() {
    let data = [0x12, 0x07, 0x74, 0x65, 0x73, 0x74, 0x69, 0x6e, 0x67];
    let r = parse_message(&data);
    assert_eq!(r, ParseResult::Result((2, ParseValue::LengthDelimited(b"testing".as_ref()), &[][..])));
}

#[test]
fn parse_message_varint() {
    let data = [0x08, 0x96, 0x01];
    let r = parse_message(&data);
    assert_eq!(r, ParseResult::Result((1, ParseValue::Varint(150), &[][..])));
}

#[test]
fn parse_message_varint_value() {
    let data = [0b10101100, 0b00000010];
    let r = protobuf_iter::parse_message::parse_varint_value(&data);
    assert_eq!(r, ParseResult::Result((ParseValue::Varint(300), &[][..])));
}

#[test]
fn parse_message_typed() {
    let value32 = ParseValue::Value32(vec![0x96, 0, 0, 0]);
    assert_eq!(150u32, From::from(value32.clone()));
    assert_eq!(75i32, From::from(value32.clone()));
    assert_eq!(150u64, From::from(value32.clone()));
    assert_eq!(75i64, From::from(value32.clone()));

    let value64 = ParseValue::Value64(vec![0x96, 0, 0, 0, 0, 0, 0, 0]);
    assert_eq!(150u64, From::from(value64.clone()));
    assert_eq!(75i64, From::from(value64.clone()));
    assert_eq!(150u64, From::from(value64.clone()));
    assert_eq!(75i64, From::from(value64.clone()));

    let varint: ParseValue<Vec<u8>> = ParseValue::Varint(150);
    assert_eq!(150u64, From::from(varint.clone()));
    assert_eq!(75i64, From::from(varint.clone()));
    assert_eq!(150u64, From::from(varint.clone()));
    assert_eq!(75i64, From::from(varint.clone()));
}

#[test]
fn parse_message_typed_buffer() {
    let delimited: ParseValue<&'static [u8]> = ParseValue::LengthDelimited(b"testing");
    let value: &'static [u8] = From::from(delimited);
    assert_eq!(b"testing", value);
}

#[test]
fn parse_message_packed_varints() {
    let data = [0x22, 0x06, 0x03, 0x8E, 0x02, 0x9E, 0xA7, 0x05];
    match parse_message(&data) {
        ParseResult::Result((tag, value, rest)) => {
            assert_eq!(tag, 4);
            assert_eq!(vec![3, 270, 86942], value.packed_varints::<u32>().collect());
            assert_eq!(rest.len(), 0);
        },
        _ => {
            assert!(false);
        }
    }
}

#[test]
fn parse_message_fixed_width_fields() {
    let data = [0x0d, 1, 2, 3, 4, 9];
    assert_eq!(
        parse_message(&data),
        ParseResult::Result((1, ParseValue::Value32(&[1u8, 2, 3, 4][..]), &[9u8][..]))
    );
    let data = [0x09, 1, 2, 3, 4, 5, 6, 7, 8];
    assert_eq!(
        parse_message(&data),
        ParseResult::Result((1, ParseValue::Value64(&[1u8, 2, 3, 4, 5, 6, 7, 8][..]), &[][..]))
    );
}

#[test]
fn parse_message_failures() {
    assert_eq!(parse_message(&[]), ParseResult::NotEnoughData);
    assert_eq!(parse_message(&[0x80]), ParseResult::NotEnoughData);
    assert_eq!(parse_message(&[0x08, 0x80]), ParseResult::NotEnoughData);
    assert_eq!(parse_message(&[0x0d, 1, 2, 3]), ParseResult::NotEnoughData);
    assert_eq!(parse_message(&[0x09, 1, 2, 3, 4, 5, 6, 7]), ParseResult::NotEnoughData);
    assert_eq!(parse_message(&[0x0a, 0x02, 1]), ParseResult::NotEnoughData);
    assert_eq!(
        parse_message(&[0x0b, 0x00]),
        ParseResult::Error("Deprecated groups field".to_owned())
    );
    assert_eq!(
        parse_message(&[0x0c, 0x00]),
        ParseResult::Error("Deprecated groups field".to_owned())
    );
    assert_eq!(parse_message(&[0x0e, 0x00]), ParseResult::Error("Invalid type".to_owned()));
    assert_eq!(parse_message(&[0x0f, 0x00]), ParseResult::Error("Invalid type".to_owned()));
}

#[test]
fn parse_message_keeps_the_whole_field_number() {
    // key = ((1 << 32) + 5) << 3
    let key: u64 = ((1u64 << 32) + 5) << 3;
    let mut data = Vec::new();
    let mut n = key;
    while n >= 0x80 {
        data.push((n & 0x7f) as u8 | 0x80);
        n >>= 7;
    }
    data.push(n as u8);
    data.push(0x01);
    assert_eq!(
        parse_message(&data),
        ParseResult::Result(((1u64 << 32) + 5, ParseValue::Varint(1), &[][..]))
    );
}

#[test]
fn parse_message_conversions_of_odd_sizes() {
    let short32: ParseValue<Vec<u8>> = ParseValue::Value32(vec![1, 2, 3]);
    assert_eq!(0u32, From::from(short32.clone()));
    assert_eq!(0i32, From::from(short32.clone()));
    assert_eq!(0u64, From::from(short32.clone()));
    assert_eq!(0i64, From::from(short32.clone()));
    let short64: ParseValue<Vec<u8>> = ParseValue::Value64(vec![1, 2, 3, 4, 5, 6, 7]);
    assert_eq!(0u32, From::from(short64.clone()));
    assert_eq!(0u64, From::from(short64.clone()));
    let bytes: ParseValue<Vec<u8>> = ParseValue::LengthDelimited(vec![1, 2, 3, 4]);
    assert_eq!(0u32, From::from(bytes.clone()));
    assert_eq!(0i64, From::from(bytes.clone()));
}

#[test]
fn parse_message_conversions_read_little_endian() {
    let value32 = ParseValue::Value32(&[0x78u8, 0x56, 0x34, 0x12][..]);
    assert_eq!(0x1234_5678u32, From::from(value32));
    assert_eq!(0x1234_5678u64, From::from(value32));
    assert_eq!(0x091a_2b3ci32, From::from(value32));
    let value64 = ParseValue::Value64(&[0x08u8, 0x07, 0x06, 0x05, 0x04, 0x03, 0x02, 0x01][..]);
    assert_eq!(0x0102_0304_0506_0708u64, From::from(value64));
    assert_eq!(0x0506_0708u32, From::from(value64));
    assert_eq!(0x0081_0182_0283_0384i64, From::from(value64));
    let odd: ParseValue<&[u8]> = ParseValue::Varint(0x1_0000_0003);
    assert_eq!(3u32, From::from(odd));
    assert_eq!(-2i32, From::from(odd));
}

#[test]
fn parse_message_bytes_of_a_value() {
    let value = ParseValue::LengthDelimited(&[1u8, 2, 3][..]);
    assert_eq!(value.get_data(), &[1, 2, 3]);
    let other: ParseValue<&[u8]> = ParseValue::Varint(3);
    let bytes: &[u8] = From::from(other);
    assert!(bytes.is_empty());
}

#[test]
fn message_converts_to_its_value() {
    let message = Message { tag: 7, value: ParseValue::Varint::<Vec<u8>>(9) };
    let value: ParseValue<Vec<u8>> = From::from(message);
    assert_eq!(value, ParseValue::Varint(9));
}
