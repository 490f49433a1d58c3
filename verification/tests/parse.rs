use protobuf_iter::field::Field;
use protobuf_iter::parse::{parse_field, ParseError, ParseValue};
use protobuf_iter::value32::Value32;
use protobuf_iter::value64::Value64;
use protobuf_iter::varint::Varint;

#[test]
fn parse_strings() {
    let data = [0x12, 0x07, 0x74, 0x65, 0x73, 0x74, 0x69, 0x6e, 0x67];
    let r = parse_field(&data).unwrap();
    assert_eq!(r, (Field {
        tag: 2,
        value: ParseValue::LengthDelimited(b"testing".as_ref())
    }, &[][..]));
}

#[test]
fn parse_varint() {
    let data = [0x08, 0x96, 0x01];
    let r = parse_field(&data).unwrap();
    assert_eq!(r, (Field {
        tag: 1,
        value: ParseValue::Varint(Varint { value: 150 })
    }, &[][..]));
}

#[test]
fn parse_varint_value() {
    let data = [0b10101100, 0b00000010];
    let r = protobuf_iter::parse::parse_varint_value(&data).unwrap();
    assert_eq!(r, (ParseValue::Varint(Varint { value: 300 }), &[][..]));
}

#[test]
fn parse_typed() {
    let data32 = &[0x96, 0, 0, 0];
    let value32 = ParseValue::Value32(Value32::new(data32));
    assert_eq!(150u32, From::from(value32.clone()));
    assert_eq!(150i32, From::from(value32.clone()));
    assert_eq!(150u64, From::from(value32.clone()));
    assert_eq!(150i64, From::from(value32.clone()));

    let data64 = &[0x96, 0, 0, 0, 0, 0, 0, 0];
    let value64 = ParseValue::Value64(Value64::new(data64));
    assert_eq!(150u64, From::from(value64.clone()));
    assert_eq!(150i64, From::from(value64.clone()));
    assert_eq!(150u64, From::from(value64.clone()));
    assert_eq!(150i64, From::from(value64.clone()));

    let varint = ParseValue::Varint(Varint { value: 150 });
    assert_eq!(150u64, From::from(varint.clone()));
    assert_eq!(75i64, From::from(varint.clone()));
    assert_eq!(150u64, From::from(varint.clone()));
    assert_eq!(75i64, From::from(varint.clone()));
}

#[test]
fn parse_typed_buffer() {
    let delimited: ParseValue<'static> = ParseValue::LengthDelimited(b"testing");
    let value: &'static [u8] = From::from(delimited);
    assert_eq!(b"testing", value);
}

#[test]
fn parse_packed_varints() {
    let data = [0x22, 0x06, 0x03, 0x8E, 0x02, 0x9E, 0xA7, 0x05];
    match parse_field(&data) {
        Ok((field, rest)) => {
            assert_eq!(field.tag, 4);
            assert_eq!(vec![3, 270, 86942], field.value.packed_varints::<u32>().collect());
            assert_eq!(rest.len(), 0);
        },
        _ => {
            assert!(false);
        }
    }
}

#[test]
fn field_decode_is_repeatable() {
    let data = [0x1a, 0x03, 0x08, 0x96, 0x01, 0x08, 0x01];
    let first = parse_field(&data);
    let second = parse_field(&data);
    assert_eq!(first, second);
    let (field, rest) = first.unwrap();
    assert_eq!(field.tag, 3);
    assert_eq!(rest, &[0x08, 0x01]);
}

#[test]
fn field_decode_reads_only_its_prefix() {
    let head = [0x1a, 0x03, 0x08, 0x96, 0x01];
    let tails: [&[u8]; 4] = [&[], &[0x00], &[0xff, 0xff, 0xff], &[0x08, 0x01]];
    for tail in tails {
        let mut data = head.to_vec();
        data.extend_from_slice(tail);
        let (field, rest) = parse_field(&data).unwrap();
        assert_eq!(field, Field { tag: 3, value: ParseValue::LengthDelimited(&[0x08, 0x96, 0x01]) });
        assert_eq!(rest, tail);
    }
}

#[test]
fn dispatch_wire_type_0_is_a_varint() {
    let (field, rest) = parse_field(&[0x28, 0xac, 0x02, 0x99]).unwrap();
    assert_eq!(field, Field { tag: 5, value: ParseValue::Varint(Varint { value: 300 }) });
    assert_eq!(rest, &[0x99]);
}

#[test]
fn dispatch_wire_type_1_is_eight_bytes() {
    let data = [0x29, 1, 2, 3, 4, 5, 6, 7, 8, 0x99];
    let (field, rest) = parse_field(&data).unwrap();
    assert_eq!(field, Field { tag: 5, value: ParseValue::Value64(Value64::new(&[1, 2, 3, 4, 5, 6, 7, 8])) });
    assert_eq!(rest, &[0x99]);
}

#[test]
fn dispatch_wire_type_2_is_length_delimited() {
    let data = [0x2a, 0x02, 0xaa, 0xbb, 0x99];
    let (field, rest) = parse_field(&data).unwrap();
    assert_eq!(field, Field { tag: 5, value: ParseValue::LengthDelimited(&[0xaa, 0xbb]) });
    assert_eq!(rest, &[0x99]);
}

#[test]
fn dispatch_wire_types_3_and_4_are_deprecated() {
    assert_eq!(parse_field(&[0x2b, 0x00, 0x00]), Err(ParseError::DeprecatedType));
    assert_eq!(parse_field(&[0x2c, 0x00, 0x00]), Err(ParseError::DeprecatedType));
    assert_eq!(parse_field(&[0x2b]), Err(ParseError::DeprecatedType));
}

#[test]
fn dispatch_wire_type_5_is_four_bytes() {
    let data = [0x2d, 1, 2, 3, 4, 0x99];
    let (field, rest) = parse_field(&data).unwrap();
    assert_eq!(field, Field { tag: 5, value: ParseValue::Value32(Value32::new(&[1, 2, 3, 4])) });
    assert_eq!(rest, &[0x99]);
}

#[test]
fn dispatch_wire_types_6_and_7_are_invalid() {
    assert_eq!(parse_field(&[0x2e, 0x00, 0x00]), Err(ParseError::InvalidType));
    assert_eq!(parse_field(&[0x2f, 0x00, 0x00]), Err(ParseError::InvalidType));
    assert_eq!(parse_field(&[0x06]), Err(ParseError::InvalidType));
}

#[test]
fn truncated_varint_is_not_enough_data() {
    assert_eq!(
        protobuf_iter::parse::parse_varint(&[0b1010_1100]).map(|(v, _)| v),
        Err(ParseError::NotEnoughData)
    );
    assert_eq!(
        protobuf_iter::parse::parse_varint_value(&[0b1010_1100]),
        Err(ParseError::NotEnoughData)
    );
    assert_eq!(protobuf_iter::parse::parse_varint(&[]).map(|(v, _)| v), Err(ParseError::NotEnoughData));
}

#[test]
fn truncated_fields_are_not_enough_data() {
    assert_eq!(parse_field(&[]), Err(ParseError::NotEnoughData));
    assert_eq!(parse_field(&[0x80]), Err(ParseError::NotEnoughData));
    assert_eq!(parse_field(&[0x08]), Err(ParseError::NotEnoughData));
    assert_eq!(parse_field(&[0x08, 0x80]), Err(ParseError::NotEnoughData));
    assert_eq!(parse_field(&[0x09, 1, 2, 3, 4, 5, 6, 7]), Err(ParseError::NotEnoughData));
    assert_eq!(parse_field(&[0x0d, 1, 2, 3]), Err(ParseError::NotEnoughData));
    assert_eq!(parse_field(&[0x0a]), Err(ParseError::NotEnoughData));
    assert_eq!(parse_field(&[0x0a, 0x80]), Err(ParseError::NotEnoughData));
    assert_eq!(parse_field(&[0x0a, 0x03, 1, 2]), Err(ParseError::NotEnoughData));
}

#[test]
fn length_prefix_beyond_the_buffer_is_not_enough_data() {
    let data = [0x0a, 0xff, 0xff, 0xff, 0xff, 0xff, 0xff, 0xff, 0xff, 0xff, 0x01, 0x00];
    assert_eq!(parse_field(&data), Err(ParseError::NotEnoughData));
    assert_eq!(
        protobuf_iter::parse::parse_length_delimited_value(&[0x05, 1, 2, 3, 4]),
        Err(ParseError::NotEnoughData)
    );
}

#[test]
fn empty_length_delimited_value() {
    let (field, rest) = parse_field(&[0x0a, 0x00, 0x07]).unwrap();
    assert_eq!(field, Field { tag: 1, value: ParseValue::LengthDelimited(&[]) });
    assert_eq!(rest, &[0x07]);
}

#[test]
fn key_splits_into_tag_and_wire_type() {
    // key = (16 << 3) | 0 = 128, a two-byte varint
    let (field, _) = parse_field(&[0x80, 0x01, 0x2a]).unwrap();
    assert_eq!(field.tag, 16);
    assert_eq!(u32::from(field.value), 42);
    // the largest field number that fits 32 bits: key = (0xffff_ffff << 3) | 0
    let (field, _) = parse_field(&[0xf8, 0xff, 0xff, 0xff, 0x7f, 0x01]).unwrap();
    assert_eq!(field.tag, 0xffff_ffff);
}

#[test]
fn tag_keeps_the_low_32_bits_of_a_longer_key() {
    // key = ((1 << 32) + 5) << 3
    let key: u64 = ((1u64 << 32) + 5) << 3;
    let mut data = Vec::new();
    let mut n = key;
    while n >= 0x80 {
        data.push((n & 0x7f) as u8 | 0x80);
        n >>= 7;
    }
    data.push(n as u8);
    data.push(0x01);
    let (field, rest) = parse_field(&data).unwrap();
    assert_eq!(field.tag, 5);
    assert!(rest.is_empty());
}

#[test]
fn fixed_width_values_on_their_own() {
    let (v, rest) = protobuf_iter::parse::parse_value32(&[1, 2, 3, 4, 5]).unwrap();
    assert_eq!(v, Value32::new(&[1, 2, 3, 4]));
    assert_eq!(rest, &[5]);
    assert_eq!(protobuf_iter::parse::parse_value32(&[1, 2, 3]), Err(ParseError::NotEnoughData));
    let (v, rest) = protobuf_iter::parse::parse_value64(&[1, 2, 3, 4, 5, 6, 7, 8]).unwrap();
    assert_eq!(v, Value64::new(&[1, 2, 3, 4, 5, 6, 7, 8]));
    assert!(rest.is_empty());
    assert_eq!(
        protobuf_iter::parse::parse_value64(&[1, 2, 3, 4, 5, 6, 7]),
        Err(ParseError::NotEnoughData)
    );
    assert_eq!(
        protobuf_iter::parse::parse_value32_value(&[1, 2, 3, 4]).unwrap().0,
        ParseValue::Value32(Value32::new(&[1, 2, 3, 4]))
    );
    assert_eq!(
        protobuf_iter::parse::parse_value64_value(&[1, 2, 3, 4, 5, 6, 7, 8]).unwrap().0,
        ParseValue::Value64(Value64::new(&[1, 2, 3, 4, 5, 6, 7, 8]))
    );
}

#[test]
fn rejecting_decoders_reject_whatever_follows() {
    assert_eq!(protobuf_iter::parse::parse_deprecated_value(&[]), Err(ParseError::DeprecatedType));
    assert_eq!(protobuf_iter::parse::parse_deprecated_value(&[1, 2]), Err(ParseError::DeprecatedType));
    assert_eq!(protobuf_iter::parse::parse_invalid_type(&[]), Err(ParseError::InvalidType));
    assert_eq!(protobuf_iter::parse::parse_invalid_type(&[1, 2]), Err(ParseError::InvalidType));
}

#[test]
fn fixed32_reads_little_endian() {
    let v = Value32::new(&[0x78, 0x56, 0x34, 0x12]);
    assert_eq!(u32::from(v), 0x1234_5678);
    assert_eq!(i32::from(v), 0x1234_5678);
    assert_eq!(u64::from(v), 0x1234_5678);
    assert_eq!(i64::from(v), 0x1234_5678);
    let v = Value32::new(&[0xfe, 0xff, 0xff, 0xff]);
    assert_eq!(u32::from(v), 0xffff_fffe);
    assert_eq!(i32::from(v), -2);
    assert_eq!(u64::from(v), 0xffff_fffe);
    assert_eq!(i64::from(v), -2);
    assert_eq!(v.data(), &[0xfe, 0xff, 0xff, 0xff]);
}

#[test]
fn fixed64_reads_little_endian_and_narrows() {
    let v = Value64::new(&[0x08, 0x07, 0x06, 0x05, 0x04, 0x03, 0x02, 0x01]);
    assert_eq!(u64::from(v), 0x0102_0304_0506_0708);
    assert_eq!(i64::from(v), 0x0102_0304_0506_0708);
    assert_eq!(u32::from(v), 0x0506_0708);
    assert_eq!(i32::from(v), 0x0506_0708);
    let v = Value64::new(&[0xfe, 0xff, 0xff, 0xff, 0xff, 0xff, 0xff, 0xff]);
    assert_eq!(u64::from(v), u64::MAX - 1);
    assert_eq!(i64::from(v), -2);
    assert_eq!(u32::from(v), 0xffff_fffe);
    assert_eq!(i32::from(v), -2);
    let v = Value64::new(&[0x00, 0x00, 0x00, 0x80, 0x01, 0x00, 0x00, 0x00]);
    assert_eq!(i64::from(v), 0x1_8000_0000);
    assert_eq!(i32::from(v), i32::MIN);
    assert_eq!(v.data().len(), 8);
}

#[test]
fn varint_conversions() {
    let v = Varint { value: 0x1_0000_0003 };
    assert_eq!(u64::from(v), 0x1_0000_0003);
    assert_eq!(u32::from(v), 3);
    assert_eq!(i64::from(v), -0x8000_0002);
    assert_eq!(i32::from(v), 0x7fff_fffe);
    let v = Varint { value: 1 };
    assert_eq!(i32::from(v), -1);
    assert_eq!(i64::from(v), -1);
    let v = Varint { value: u64::MAX };
    assert_eq!(i64::from(v), i64::MIN);
    assert_eq!(u32::from(v), u32::MAX);
    assert_eq!(i32::from(v), 0);
}

#[test]
fn length_delimited_value_reads_as_zero() {
    let v = ParseValue::LengthDelimited(&[1, 2, 3, 4]);
    assert_eq!(u32::from(v), 0);
    assert_eq!(i32::from(v), 0);
    assert_eq!(u64::from(v), 0);
    assert_eq!(i64::from(v), 0);
}

#[test]
fn bytes_of_a_value() {
    let v = ParseValue::LengthDelimited(&[1, 2, 3]);
    assert_eq!(v.get_data(), &[1, 2, 3]);
    let bytes: &[u8] = From::from(ParseValue::Varint(Varint { value: 1 }));
    assert!(bytes.is_empty());
    let bytes: &[u8] = From::from(ParseValue::Value32(Value32::new(&[1, 2, 3, 4])));
    assert!(bytes.is_empty());
}

#[test]
fn packed_fixed_getters() {
    let v = ParseValue::LengthDelimited(&[1, 0, 0, 0, 2, 0, 0, 0]);
    assert_eq!(v.packed_value32s::<u32>().collect(), vec![1, 2]);
    assert_eq!(v.packed_value64s::<u64>().collect(), vec![0x2_0000_0001]);
}

#[test]
fn field_converts_to_its_value() {
    let field = Field { tag: 1, value: ParseValue::Varint(Varint { value: 9 }) };
    let value: ParseValue = From::from(field);
    assert_eq!(value, ParseValue::Varint(Varint { value: 9 }));
}
