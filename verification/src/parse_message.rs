//! Decoding of fields whose values sit in a container of bytes that the
//! caller picks: a borrowed slice, or a vector that owns them.
//!
//! Signed conversions here always go through the ZigZag transform.

use crate::endian::{read_u32, read_u64};
use crate::leb128::decode_varint;
use crate::packed::{PackedIter, PackedVarint};
use crate::parse::{
    empty_bytes, no_bytes, parse_value32, parse_value64, parse_varint, ParseError,
};
use crate::wire::{decode_value, key_wire_type, payload_bytes, WireValue};
use crate::zigzag::{zigzag_decode, ZigZag};
use vstd::pervasive::unreached;
use vstd::prelude::*;
use vstd::std_specs::convert::FromSpecImpl;

verus! {

/// A container that holds bytes.
pub trait AsBytes {
    /// The bytes held.
    spec fn bytes(&self) -> Seq<u8>;

    fn as_bytes(&self) -> (r: &[u8])
        ensures
            r@ == self.bytes(),
    ;
}

impl AsBytes for Vec<u8> {
    open spec fn bytes(&self) -> Seq<u8> {
        self@
    }

    fn as_bytes(&self) -> (r: &[u8]) {
        self.as_slice()
    }
}

impl<'a> AsBytes for &'a [u8] {
    open spec fn bytes(&self) -> Seq<u8> {
        (*self)@
    }

    fn as_bytes(&self) -> (r: &[u8]) {
        *self
    }
}

/// The value of one field, its bytes held in a `C`.
#[derive(Debug, Eq, PartialEq, Clone, Copy)]
pub enum ParseValue<C> {
    Value32(C),
    Value64(C),
    Varint(u64),
    LengthDelimited(C),
}

impl<C: AsBytes> View for ParseValue<C> {
    type V = WireValue;

    open spec fn view(&self) -> WireValue {
        match *self {
            ParseValue::Value32(data) => WireValue::Value32(data.bytes()),
            ParseValue::Value64(data) => WireValue::Value64(data.bytes()),
            ParseValue::Varint(value) => WireValue::Varint(value),
            ParseValue::LengthDelimited(data) => WireValue::LengthDelimited(data.bytes()),
        }
    }
}

/// Whether a fixed-width value has the bytes of its width.
pub open spec fn well_sized(value: WireValue) -> bool {
    match value {
        WireValue::Value32(bytes) => bytes.len() >= 4,
        WireValue::Value64(bytes) => bytes.len() >= 8,
        _ => true,
    }
}

/// The value read as `u32`; zero for a fixed-width value with too few bytes.
pub open spec fn unsigned32(value: WireValue) -> u32 {
    if well_sized(value) {
        value.as_u32()
    } else {
        0
    }
}

/// The value read as `u64`; zero for a fixed-width value with too few bytes.
pub open spec fn unsigned64(value: WireValue) -> u64 {
    if well_sized(value) {
        value.as_u64()
    } else {
        0
    }
}

/// The bytes of a length-delimited value.
impl<'a> From<ParseValue<&'a [u8]>> for &'a [u8] {
    fn from(input: ParseValue<&'a [u8]>) -> (r: &'a [u8])
        ensures
            r@ == payload_bytes(input@),
    {
        match input {
            ParseValue::LengthDelimited(data) => data,
            _ => empty_bytes(),
        }
    }
}

impl<'a> FromSpecImpl<ParseValue<&'a [u8]>> for &'a [u8] {
    open spec fn obeys_from_spec() -> bool {
        true
    }

    open spec fn from_spec(input: ParseValue<&'a [u8]>) -> &'a [u8] {
        match input {
            ParseValue::LengthDelimited(data) => data,
            _ => no_bytes(),
        }
    }
}

/// A fixed-width value or a varint, read as `u32`; zero for a
/// length-delimited value and for a fixed-width value with too few bytes.
impl<C: AsBytes> From<ParseValue<C>> for u32 {
    fn from(value: ParseValue<C>) -> (r: u32) {
        match value {
            ParseValue::Value32(data) => {
                let bytes = data.as_bytes();
                if bytes.len() >= 4 {
                    read_u32(bytes)
                } else {
                    0
                }
            },
            ParseValue::Value64(data) => {
                let bytes = data.as_bytes();
                if bytes.len() >= 8 {
                    read_u32(bytes)
                } else {
                    0
                }
            },
            ParseValue::Varint(i) => {
                assert(i as u32 == i % 0x1_0000_0000) by (bit_vector);
                #[verifier::truncate]
                (i as u32)
            },
            _ => 0,
        }
    }
}

impl<C: AsBytes> FromSpecImpl<ParseValue<C>> for u32 {
    open spec fn obeys_from_spec() -> bool {
        true
    }

    open spec fn from_spec(value: ParseValue<C>) -> u32 {
        unsigned32(value@)
    }
}

/// The ZigZag decoding of the value read as `u32`.
impl<C: AsBytes> From<ParseValue<C>> for i32 {
    fn from(value: ParseValue<C>) -> (r: i32) {
        let r: u32 = From::from(value);
        r.zigzag()
    }
}

impl<C: AsBytes> FromSpecImpl<ParseValue<C>> for i32 {
    open spec fn obeys_from_spec() -> bool {
        true
    }

    open spec fn from_spec(value: ParseValue<C>) -> i32 {
        zigzag_decode(unsigned32(value@) as int) as i32
    }
}

/// A fixed-width value or a varint, read as `u64`; zero for a
/// length-delimited value and for a fixed-width value with too few bytes.
impl<C: AsBytes> From<ParseValue<C>> for u64 {
    fn from(value: ParseValue<C>) -> (r: u64) {
        match value {
            ParseValue::Value32(data) => {
                let bytes = data.as_bytes();
                if bytes.len() >= 4 {
                    read_u32(bytes) as u64
                } else {
                    0
                }
            },
            ParseValue::Value64(data) => {
                let bytes = data.as_bytes();
                if bytes.len() >= 8 {
                    read_u64(bytes)
                } else {
                    0
                }
            },
            ParseValue::Varint(i) => i,
            _ => 0,
        }
    }
}

impl<C: AsBytes> FromSpecImpl<ParseValue<C>> for u64 {
    open spec fn obeys_from_spec() -> bool {
        true
    }

    open spec fn from_spec(value: ParseValue<C>) -> u64 {
        unsigned64(value@)
    }
}

/// The ZigZag decoding of the value read as `u64`.
impl<C: AsBytes> From<ParseValue<C>> for i64 {
    fn from(value: ParseValue<C>) -> (r: i64) {
        let r: u64 = From::from(value);
        r.zigzag()
    }
}

impl<C: AsBytes> FromSpecImpl<ParseValue<C>> for i64 {
    open spec fn obeys_from_spec() -> bool {
        true
    }

    open spec fn from_spec(value: ParseValue<C>) -> i64 {
        zigzag_decode(unsigned64(value@) as int) as i64
    }
}

impl<'a> ParseValue<&'a [u8]> {
    /// The bytes of a length-delimited value.
    pub fn get_data(self) -> (r: &'a [u8])
        requires
            self is LengthDelimited,
        ensures
            self@ == WireValue::LengthDelimited(r@),
    {
        match self {
            ParseValue::LengthDelimited(data) => data,
            _ => unreached(),
        }
    }

    /// A cursor over the bytes of a length-delimited value, taken as packed
    /// varints.
    pub fn packed_varints<T>(self) -> (r: PackedIter<'a, PackedVarint, T>)
        requires
            self is LengthDelimited,
        ensures
            self@ == WireValue::LengthDelimited(r@),
    {
        PackedIter::new(self.get_data())
    }
}

/// What decoding gave: a result, the finding that the buffer ends too early,
/// or another failure with its description.
#[derive(Debug, Eq, PartialEq, Clone)]
pub enum ParseResult<A> {
    Result(A),
    NotEnoughData,
    Error(String),
}

/// Whether `r` is what this module makes of the decoding `decoded` of a
/// value: the value itself, the finding that the buffer ends too early, or
/// the failure by its description.
pub open spec fn reports<'a>(
    r: ParseResult<(ParseValue<&'a [u8]>, &'a [u8])>,
    decoded: Result<(WireValue, Seq<u8>), ParseError>,
) -> bool {
    match decoded {
        Ok((value, rest)) => r matches ParseResult::Result((found, left)) && found@ == value
            && left@ == rest,
        Err(ParseError::NotEnoughData) => r is NotEnoughData,
        Err(ParseError::DeprecatedType) => r matches ParseResult::Error(description)
            && description@ == "Deprecated groups field"@,
        Err(ParseError::InvalidType) => r matches ParseResult::Error(description) && description@
            == "Invalid type"@,
        Err(ParseError::Unexpected) => r matches ParseResult::Error(description) && description@
            == "Not varint"@,
    }
}

/// What decoding a field gave, without the field number.
pub open spec fn without_tag<'a>(
    r: ParseResult<(u64, ParseValue<&'a [u8]>, &'a [u8])>,
) -> ParseResult<(ParseValue<&'a [u8]>, &'a [u8])> {
    match r {
        ParseResult::Result((_, value, rest)) => ParseResult::Result((value, rest)),
        ParseResult::NotEnoughData => ParseResult::NotEnoughData,
        ParseResult::Error(description) => ParseResult::Error(description),
    }
}

/// Decodes a fixed-width 32-bit value as the value of a field.
pub fn parse_value32_value<'a>(data: &'a [u8]) -> (r: ParseResult<
    (ParseValue<&'a [u8]>, &'a [u8]),
>)
    ensures
        reports(r, decode_value(5, data@)),
{
    match parse_value32(data) {
        Ok((value32, rest)) => ParseResult::Result((ParseValue::Value32(value32.data()), rest)),
        Err(_) => ParseResult::NotEnoughData,
    }
}

/// Decodes a fixed-width 64-bit value as the value of a field.
pub fn parse_value64_value<'a>(data: &'a [u8]) -> (r: ParseResult<
    (ParseValue<&'a [u8]>, &'a [u8]),
>)
    ensures
        reports(r, decode_value(1, data@)),
{
    match parse_value64(data) {
        Ok((value64, rest)) => ParseResult::Result((ParseValue::Value64(value64.data()), rest)),
        Err(_) => ParseResult::NotEnoughData,
    }
}

/// Decodes a varint as the value of a field.
pub fn parse_varint_value<'a>(data: &'a [u8]) -> (r: ParseResult<
    (ParseValue<&'a [u8]>, &'a [u8]),
>)
    ensures
        reports(r, decode_value(0, data@)),
{
    match parse_varint(data) {
        Ok((varint, rest)) => ParseResult::Result((ParseValue::Varint(varint.value), rest)),
        Err(_) => ParseResult::NotEnoughData,
    }
}

/// Decodes a length prefix and takes as many bytes after it as it says.
pub fn parse_length_delimited_value<'a>(data: &'a [u8]) -> (r: ParseResult<
    (ParseValue<&'a [u8]>, &'a [u8]),
>)
    ensures
        reports(r, decode_value(2, data@)),
{
    match crate::parse::parse_length_delimited_value(data) {
        Ok((value, rest)) => ParseResult::Result(
            (ParseValue::LengthDelimited(value.get_data()), rest),
        ),
        Err(_) => ParseResult::NotEnoughData,
    }
}

/// Turns down the start or the end of a group.
pub fn parse_deprecated_value<'a>(_data: &'a [u8]) -> (r: ParseResult<
    (ParseValue<&'a [u8]>, &'a [u8]),
>)
    ensures
        reports(r, Err(ParseError::DeprecatedType)),
{
    ParseResult::Error("Deprecated groups field".to_owned())
}

/// Turns down a reserved wire type.
pub fn parse_invalid_type<'a>(_data: &'a [u8]) -> (r: ParseResult<
    (ParseValue<&'a [u8]>, &'a [u8]),
>)
    ensures
        reports(r, Err(ParseError::InvalidType)),
{
    ParseResult::Error("Invalid type".to_owned())
}

/// Decodes the field at the start of `data`: its key, then the value that
/// the wire type in the key calls for. The field number is the key without
/// its low three bits.
pub fn parse_message<'a>(data: &'a [u8]) -> (r: ParseResult<
    (u64, ParseValue<&'a [u8]>, &'a [u8]),
>)
    ensures
        match decode_varint(data@) {
            Some((key, after)) => reports(
                without_tag(r),
                decode_value(key_wire_type(key), after),
            ) && (r matches ParseResult::Result((tag, _, _)) ==> tag == key / 8),
            None => r is NotEnoughData,
        },
{
    let (key, data) = match parse_varint_value(data) {
        ParseResult::Result((ParseValue::Varint(key), data)) => (key, data),
        ParseResult::Result(_) => return ParseResult::Error("Not varint".to_owned()),
        ParseResult::NotEnoughData => return ParseResult::NotEnoughData,
        ParseResult::Error(s) => return ParseResult::Error(s),
    };
    let msg_tag: u64 = key >> 3;
    let msg_type: u64 = key & 7;
    proof {
        assert(key >> 3 == key / 8) by (bit_vector);
        assert(key & 7 == key % 8) by (bit_vector);
    }
    let parsed = match msg_type {
        0 => parse_varint_value(data),
        1 => parse_value64_value(data),
        2 => parse_length_delimited_value(data),
        3 | 4 => parse_deprecated_value(data),
        5 => parse_value32_value(data),
        _ => parse_invalid_type(data),
    };
    match parsed {
        ParseResult::Result((value, data)) => ParseResult::Result((msg_tag, value, data)),
        ParseResult::NotEnoughData => ParseResult::NotEnoughData,
        ParseResult::Error(s) => ParseResult::Error(s),
    }
}

} // verus!
