//! The mathematical model of a field on the wire: what a run of bytes
//! decodes to, stated over sequences of bytes.

use crate::endian::{le_u32, le_u64, signed32, signed64};
use crate::leb128::{decode_varint, lemma_span_shape, lemma_varint_prefix, varint_span};
use crate::parse::ParseError;
use crate::zigzag::zigzag_decode;
use vstd::prelude::*;

verus! {

/// The value of one field as it stands on the wire, before it is taken as
/// any particular type.
pub enum WireValue {
    /// The four bytes of a fixed-width 32-bit value.
    Value32(Seq<u8>),
    /// The eight bytes of a fixed-width 64-bit value.
    Value64(Seq<u8>),
    /// The integer that a varint carries.
    Varint(u64),
    /// The bytes that follow a length prefix.
    LengthDelimited(Seq<u8>),
}

impl WireValue {
    /// The value read as `u32`: the little-endian integer in the first four
    /// bytes of a fixed-width value, the low 32 bits of a varint, zero for a
    /// length-delimited value.
    pub open spec fn as_u32(self) -> u32 {
        match self {
            WireValue::Value32(bytes) => le_u32(bytes) as u32,
            WireValue::Value64(bytes) => le_u32(bytes) as u32,
            WireValue::Varint(value) => (value % 0x1_0000_0000) as u32,
            WireValue::LengthDelimited(_) => 0,
        }
    }

    /// The value read as `i32`: the first four bytes of a fixed-width value
    /// in two's complement, the ZigZag decoding of a varint cut to 32 bits,
    /// zero for a length-delimited value.
    pub open spec fn as_i32(self) -> i32 {
        match self {
            WireValue::Value32(bytes) => signed32(le_u32(bytes)) as i32,
            WireValue::Value64(bytes) => signed32(le_u32(bytes)) as i32,
            WireValue::Varint(value) => signed32(zigzag_decode(value as int) % 0x1_0000_0000) as i32,
            WireValue::LengthDelimited(_) => 0,
        }
    }

    /// The value read as `u64`: the little-endian integer of a fixed-width
    /// value, a varint as it is, zero for a length-delimited value.
    pub open spec fn as_u64(self) -> u64 {
        match self {
            WireValue::Value32(bytes) => le_u32(bytes) as u64,
            WireValue::Value64(bytes) => le_u64(bytes) as u64,
            WireValue::Varint(value) => value,
            WireValue::LengthDelimited(_) => 0,
        }
    }

    /// The value read as `i64`: a fixed-width value in two's complement of
    /// its own width, the ZigZag decoding of a varint, zero for a
    /// length-delimited value.
    pub open spec fn as_i64(self) -> i64 {
        match self {
            WireValue::Value32(bytes) => signed32(le_u32(bytes)) as i64,
            WireValue::Value64(bytes) => signed64(le_u64(bytes)) as i64,
            WireValue::Varint(value) => zigzag_decode(value as int) as i64,
            WireValue::LengthDelimited(_) => 0,
        }
    }
}

/// The bytes of a length-delimited value; no bytes for a value of another
/// kind.
pub open spec fn payload_bytes(value: WireValue) -> Seq<u8> {
    match value {
        WireValue::LengthDelimited(bytes) => bytes,
        _ => Seq::empty(),
    }
}

/// One field: its number and its value.
pub struct WireField {
    pub tag: u32,
    pub value: WireValue,
}

/// The four bytes at the start of `s` and the bytes after them.
pub open spec fn decode_value32(s: Seq<u8>) -> Result<(Seq<u8>, Seq<u8>), ParseError> {
    if s.len() >= 4 {
        Ok((s.take(4), s.skip(4)))
    } else {
        Err(ParseError::NotEnoughData)
    }
}

/// The eight bytes at the start of `s` and the bytes after them.
pub open spec fn decode_value64(s: Seq<u8>) -> Result<(Seq<u8>, Seq<u8>), ParseError> {
    if s.len() >= 8 {
        Ok((s.take(8), s.skip(8)))
    } else {
        Err(ParseError::NotEnoughData)
    }
}

/// The bytes that the length prefix at the start of `s` announces, and the
/// bytes after them.
pub open spec fn decode_length_delimited(s: Seq<u8>) -> Result<(Seq<u8>, Seq<u8>), ParseError> {
    match decode_varint(s) {
        Some((len, rest)) => if len <= rest.len() {
            Ok((rest.take(len as int), rest.skip(len as int)))
        } else {
            Err(ParseError::NotEnoughData)
        },
        None => Err(ParseError::NotEnoughData),
    }
}

/// The value of wire type `wire_type` at the start of `s`, and the bytes
/// after it. Wire types 3 and 4 are the groups that the format gave up, 6 and
/// 7 are reserved.
pub open spec fn decode_value(wire_type: int, s: Seq<u8>) -> Result<
    (WireValue, Seq<u8>),
    ParseError,
> {
    if wire_type == 0 {
        match decode_varint(s) {
            Some((value, rest)) => Ok((WireValue::Varint(value), rest)),
            None => Err(ParseError::NotEnoughData),
        }
    } else if wire_type == 1 {
        match decode_value64(s) {
            Ok((bytes, rest)) => Ok((WireValue::Value64(bytes), rest)),
            Err(e) => Err(e),
        }
    } else if wire_type == 2 {
        match decode_length_delimited(s) {
            Ok((bytes, rest)) => Ok((WireValue::LengthDelimited(bytes), rest)),
            Err(e) => Err(e),
        }
    } else if wire_type == 3 || wire_type == 4 {
        Err(ParseError::DeprecatedType)
    } else if wire_type == 5 {
        match decode_value32(s) {
            Ok((bytes, rest)) => Ok((WireValue::Value32(bytes), rest)),
            Err(e) => Err(e),
        }
    } else {
        Err(ParseError::InvalidType)
    }
}

/// The field number in the key `key`: the key without its low three bits,
/// cut to 32 bits.
pub open spec fn key_tag(key: u64) -> u32 {
    ((key / 8) % 0x1_0000_0000) as u32
}

/// The wire type in the key `key`: its low three bits.
pub open spec fn key_wire_type(key: u64) -> int {
    (key % 8) as int
}

/// The field at the start of `s`, and the bytes after it: a varint key, then
/// the value that the wire type in the key calls for.
pub open spec fn decode_field(s: Seq<u8>) -> Result<(WireField, Seq<u8>), ParseError> {
    match decode_varint(s) {
        Some((key, rest)) => match decode_value(key_wire_type(key), rest) {
            Ok((value, rest)) => Ok((WireField { tag: key_tag(key), value }, rest)),
            Err(e) => Err(e),
        },
        None => Err(ParseError::NotEnoughData),
    }
}

/// A field that decodes takes up at least one byte.
pub proof fn lemma_field_consumes(s: Seq<u8>)
    ensures
        decode_field(s) matches Ok((_, rest)) ==> rest.len() < s.len(),
{
    lemma_span_shape(s);
    match decode_varint(s) {
        Some((key, rest)) => {
            lemma_span_shape(rest);
        },
        None => {},
    }
}

/// What comes after a value has no part in how it decodes: where a value
/// of wire type `wire_type` decodes from `s`, the bytes it took followed by
/// any `tail` decode to the same value, and leave `tail`.
pub proof fn lemma_value_prefix(wire_type: int, s: Seq<u8>, tail: Seq<u8>)
    requires
        decode_value(wire_type, s) is Ok,
    ensures
        ({
            let (value, rest) = decode_value(wire_type, s).unwrap();
            let taken = s.len() - rest.len();
            &&& 0 <= taken <= s.len()
            &&& rest == s.skip(taken)
            &&& decode_value(wire_type, s.take(taken) + tail) == Ok::<_, ParseError>((value, tail))
        }),
{
    let (value, rest) = decode_value(wire_type, s).unwrap();
    let taken = s.len() - rest.len();
    let t = s.take(taken) + tail;
    if wire_type == 0 {
        lemma_varint_prefix(s, tail);
    } else if wire_type == 1 {
        assert(t.take(8) =~= s.take(8));
        assert(t.skip(8) =~= tail);
    } else if wire_type == 2 {
        let (len, after) = decode_varint(s).unwrap();
        let span = varint_span(s).unwrap() as int;
        let body = after.take(len as int);
        lemma_varint_prefix(s, body + tail);
        assert(after.skip(len as int) =~= s.skip(span + len));
        assert(t =~= s.take(span) + (body + tail));
        assert((body + tail).take(len as int) =~= body);
        assert((body + tail).skip(len as int) =~= tail);
    } else if wire_type == 5 {
        assert(t.take(4) =~= s.take(4));
        assert(t.skip(4) =~= tail);
    }
}

/// Decoding a field reads a prefix of the bytes and nothing else: where a
/// field decodes from `s`, the bytes it took followed by any `tail` decode
/// to the same field, and leave `tail`.
pub proof fn lemma_field_prefix(s: Seq<u8>, tail: Seq<u8>)
    requires
        decode_field(s) is Ok,
    ensures
        ({
            let (field, rest) = decode_field(s).unwrap();
            let taken = s.len() - rest.len();
            &&& 0 < taken <= s.len()
            &&& rest == s.skip(taken)
            &&& decode_field(s.take(taken) + tail) == Ok::<_, ParseError>((field, tail))
        }),
{
    let (field, rest) = decode_field(s).unwrap();
    let taken = s.len() - rest.len();
    let (key, after) = decode_varint(s).unwrap();
    let span = varint_span(s).unwrap() as int;
    let wire_type = key_wire_type(key);
    lemma_field_consumes(s);
    lemma_value_prefix(wire_type, after, tail);
    let body = after.take(after.len() - rest.len());
    lemma_varint_prefix(s, body + tail);
    assert(rest =~= s.skip(taken));
    assert(s.take(taken) + tail =~= s.take(span) + (body + tail));
}

/// Which value a field holds goes by the wire type in its key alone: wire
/// types 0, 1, 2 and 5 give a varint, eight bytes, length-delimited bytes
/// and four bytes, and fail only where the buffer ends too early; 3 and 4
/// are turned down as groups, 6 and 7 as reserved.
pub proof fn lemma_dispatch(s: Seq<u8>)
    requires
        decode_varint(s) is Some,
    ensures
        ({
            let (key, after) = decode_varint(s).unwrap();
            let wire_type = key_wire_type(key);
            let decoded = decode_field(s);
            &&& 0 <= wire_type <= 7
            &&& decoded matches Ok((field, _)) ==> field.tag == key_tag(key)
            &&& wire_type == 0 ==> match decoded {
                Ok((field, rest)) => decode_varint(after) == Some((field.value->Varint_0, rest))
                    && field.value is Varint,
                Err(e) => e == ParseError::NotEnoughData && decode_varint(after) is None,
            }
            &&& wire_type == 1 ==> match decoded {
                Ok((field, rest)) => field.value == WireValue::Value64(after.take(8)) && rest
                    == after.skip(8) && after.len() >= 8,
                Err(e) => e == ParseError::NotEnoughData && after.len() < 8,
            }
            &&& wire_type == 2 ==> match decoded {
                Ok((field, rest)) => decode_length_delimited(after) == Ok::<_, ParseError>(
                    (field.value->LengthDelimited_0, rest),
                ) && field.value is LengthDelimited,
                Err(e) => e == ParseError::NotEnoughData && decode_length_delimited(after) is Err,
            }
            &&& wire_type == 3 || wire_type == 4 ==> decoded == Err::<(WireField, Seq<u8>), _>(
                ParseError::DeprecatedType,
            )
            &&& wire_type == 5 ==> match decoded {
                Ok((field, rest)) => field.value == WireValue::Value32(after.take(4)) && rest
                    == after.skip(4) && after.len() >= 4,
                Err(e) => e == ParseError::NotEnoughData && after.len() < 4,
            }
            &&& wire_type == 6 || wire_type == 7 ==> decoded == Err::<(WireField, Seq<u8>), _>(
                ParseError::InvalidType,
            )
        }),
{
}

/// Decoding a field never fails as `Unexpected`: a key that decodes is a
/// varint.
pub proof fn lemma_never_unexpected(s: Seq<u8>)
    ensures
        decode_field(s) != Err::<(WireField, Seq<u8>), _>(ParseError::Unexpected),
{
}

} // verus!
