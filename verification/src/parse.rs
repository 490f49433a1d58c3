//! Decoding of single values and fields from the start of a buffer.

use crate::field::Field;
use crate::leb128::{
    base128, continues, decode_varint, lemma_base128_bound, lemma_base128_push,
    lemma_span_is_first_closing, lemma_span_none, payload,
};
use crate::packed::{PackedIter, PackedValue32, PackedValue64, PackedVarint};
use crate::value32::Value32;
use crate::value64::Value64;
use crate::varint::Varint;
use crate::wire::{
    decode_field, decode_length_delimited, decode_value, decode_value32, decode_value64, key_tag,
    key_wire_type, payload_bytes, WireField, WireValue,
};
use vstd::arithmetic::div_mod::*;
use vstd::arithmetic::power2::*;
use vstd::array::spec_array_as_slice;
use vstd::bits::*;
use vstd::pervasive::unreached;
use vstd::prelude::*;
use vstd::slice::slice_subrange;
use vstd::std_specs::convert::FromSpecImpl;

verus! {

/// The value of one field, as a window onto the buffer it was decoded from.
#[derive(Debug, Eq, PartialEq, Clone, Copy)]
pub enum ParseValue<'a> {
    Value32(Value32<'a>),
    Value64(Value64<'a>),
    Varint(Varint),
    LengthDelimited(&'a [u8]),
}

impl<'a> View for ParseValue<'a> {
    type V = WireValue;

    open spec fn view(&self) -> WireValue {
        match *self {
            ParseValue::Value32(value32) => WireValue::Value32(value32@),
            ParseValue::Value64(value64) => WireValue::Value64(value64@),
            ParseValue::Varint(varint) => WireValue::Varint(varint.value),
            ParseValue::LengthDelimited(data) => WireValue::LengthDelimited(data@),
        }
    }
}

impl<'a> ParseValue<'a> {
    /// The bytes of a length-delimited value.
    pub fn get_data(self) -> (r: &'a [u8])
        requires
            self is LengthDelimited,
        ensures
            self@ == WireValue::LengthDelimited(r@),
    {
        match self {
            ParseValue::LengthDelimited(data) => data,
            _ => unreached(),
        }
    }

    /// A cursor over the bytes of a length-delimited value, taken as packed
    /// varints.
    pub fn packed_varints<T>(self) -> (r: PackedIter<'a, PackedVarint, T>)
        requires
            self is LengthDelimited,
        ensures
            self@ == WireValue::LengthDelimited(r@),
    {
        PackedIter::new(self.get_data())
    }

    /// A cursor over the bytes of a length-delimited value, taken as packed
    /// values of four bytes each.
    pub fn packed_value32s<T>(self) -> (r: PackedIter<'a, PackedValue32, T>)
        requires
            self is LengthDelimited,
        ensures
            self@ == WireValue::LengthDelimited(r@),
    {
        PackedIter::new(self.get_data())
    }

    /// A cursor over the bytes of a length-delimited value, taken as packed
    /// values of eight bytes each.
    pub fn packed_value64s<T>(self) -> (r: PackedIter<'a, PackedValue64, T>)
        requires
            self is LengthDelimited,
        ensures
            self@ == WireValue::LengthDelimited(r@),
    {
        PackedIter::new(self.get_data())
    }
}

/// The slice without bytes.
pub open spec fn no_bytes<'a>() -> &'a [u8] {
    let none: &'a [u8; 0] = &[];
    spec_array_as_slice(none)
}

/// The bytes of a length-delimited value; no bytes for a value of another
/// kind.
pub open spec fn bytes_of<'a>(value: ParseValue<'a>) -> &'a [u8] {
    match value {
        ParseValue::LengthDelimited(data) => data,
        _ => no_bytes(),
    }
}

/// The slice without bytes.
pub(crate) fn empty_bytes<'a>() -> (r: &'a [u8])
    ensures
        r == no_bytes(),
        r@ == Seq::<u8>::empty(),
{
    let none: &'static [u8; 0] = &[];
    let r = none.as_slice();
    assert(r@ =~= no_bytes()@);
    r
}

/// The bytes of a length-delimited value; no bytes for a value of another
/// kind.
impl<'a> From<ParseValue<'a>> for &'a [u8] {
    fn from(input: ParseValue<'a>) -> (r: &'a [u8])
        ensures
            r@ == payload_bytes(input@),
    {
        match input {
            ParseValue::LengthDelimited(data) => data,
            _ => empty_bytes(),
        }
    }
}

impl<'a> FromSpecImpl<ParseValue<'a>> for &'a [u8] {
    open spec fn obeys_from_spec() -> bool {
        true
    }

    open spec fn from_spec(input: ParseValue<'a>) -> &'a [u8] {
        bytes_of(input)
    }
}

/// A fixed-width value or a varint, read as `u32`; zero for a
/// length-delimited value.
impl<'a> From<ParseValue<'a>> for u32 {
    fn from(value: ParseValue<'a>) -> (r: u32) {
        match value {
            ParseValue::Value32(value32) => From::from(value32),
            ParseValue::Value64(value64) => From::from(value64),
            ParseValue::Varint(varint) => From::from(varint),
            _ => 0,
        }
    }
}

impl<'a> FromSpecImpl<ParseValue<'a>> for u32 {
    open spec fn obeys_from_spec() -> bool {
        true
    }

    open spec fn from_spec(value: ParseValue<'a>) -> u32 {
        value@.as_u32()
    }
}

/// A fixed-width value or a varint, read as `i32`; zero for a
/// length-delimited value.
impl<'a> From<ParseValue<'a>> for i32 {
    fn from(value: ParseValue<'a>) -> (r: i32) {
        match value {
            ParseValue::Value32(value32) => From::from(value32),
            ParseValue::Value64(value64) => From::from(value64),
            ParseValue::Varint(varint) => From::from(varint),
            _ => 0,
        }
    }
}

impl<'a> FromSpecImpl<ParseValue<'a>> for i32 {
    open spec fn obeys_from_spec() -> bool {
        true
    }

    open spec fn from_spec(value: ParseValue<'a>) -> i32 {
        value@.as_i32()
    }
}

/// A fixed-width value or a varint, read as `u64`; zero for a
/// length-delimited value.
impl<'a> From<ParseValue<'a>> for u64 {
    fn from(value: ParseValue<'a>) -> (r: u64) {
        match value {
            ParseValue::Value32(value32) => From::from(value32),
            ParseValue::Value64(value64) => From::from(value64),
            ParseValue::Varint(varint) => From::from(varint),
            _ => 0,
        }
    }
}

impl<'a> FromSpecImpl<ParseValue<'a>> for u64 {
    open spec fn obeys_from_spec() -> bool {
        true
    }

    open spec fn from_spec(value: ParseValue<'a>) -> u64 {
        value@.as_u64()
    }
}

/// A fixed-width value or a varint, read as `i64`; zero for a
/// length-delimited value.
impl<'a> From<ParseValue<'a>> for i64 {
    fn from(value: ParseValue<'a>) -> (r: i64) {
        match value {
            ParseValue::Value32(value32) => From::from(value32),
            ParseValue::Value64(value64) => From::from(value64),
            ParseValue::Varint(varint) => From::from(varint),
            _ => 0,
        }
    }
}

impl<'a> FromSpecImpl<ParseValue<'a>> for i64 {
    open spec fn obeys_from_spec() -> bool {
        true
    }

    open spec fn from_spec(value: ParseValue<'a>) -> i64 {
        value@.as_i64()
    }
}

/// Why a value or a field could not be decoded.
#[derive(PartialEq, Eq, Debug)]
pub enum ParseError {
    /// The buffer ends within a value.
    NotEnoughData,
    /// The field is the start or the end of a group.
    DeprecatedType,
    /// The field has a wire type that the format reserves.
    InvalidType,
    /// The key of a field did not decode to a varint.
    Unexpected,
}

pub type ParseResult<A> = Result<A, ParseError>;

/// Puts the seven bits `group` into `value` at the place of the digit
/// `index`. Bits that fall above the 64 bits of the value are dropped.
fn with_group(value: u64, group: u8, index: usize) -> (r: u64)
    requires
        group < 0x80,
        index <= 9 ==> value < pow2(7 * index as nat),
    ensures
        r == (value + group * pow2(7 * index as nat)) % 0x1_0000_0000_0000_0000,
{
    let wide: u64 = group as u64;
    if index < 9 {
        let shift: u64 = 7 * (index as u64);
        let moved: u64 = wide << shift;
        proof {
            lemma2_to64();
            lemma2_to64_rest();
            lemma_pow2_strictly_increases(shift as nat, 57);
            lemma_u64_shl_is_mul(1, shift);
            assert(wide * pow2(shift as nat) <= 0x7f * pow2(shift as nat)) by (nonlinear_arith)
                requires
                    wide <= 0x7f,
            ;
            assert(0x7f * pow2(shift as nat) <= 0x7f * pow2(57)) by (nonlinear_arith)
                requires
                    pow2(shift as nat) < pow2(57),
            ;
            lemma_u64_shl_is_mul(wide, shift);
            assert((value | moved) == value + moved) by (bit_vector)
                requires
                    shift <= 56,
                    wide < 0x80,
                    moved == wide << shift,
                    value < (1u64 << shift),
            ;
            lemma_small_mod((value + moved) as nat, 0x1_0000_0000_0000_0000);
        }
        value | moved
    } else if index == 9 {
        let moved: u64 = wide << 63;
        proof {
            lemma2_to64();
            lemma2_to64_rest();
            assert((value | moved) == (value + wide * 0x8000_0000_0000_0000)
                % 0x1_0000_0000_0000_0000) by (bit_vector)
                requires
                    wide < 0x80,
                    moved == wide << 63,
                    value < 0x8000_0000_0000_0000,
            ;
        }
        value | moved
    } else {
        proof {
            let over: nat = (7 * index - 64) as nat;
            lemma2_to64();
            lemma_pow2_adds(64, over);
            assert(group * (0x1_0000_0000_0000_0000 * pow2(over)) == 0x1_0000_0000_0000_0000 * (
            group * pow2(over))) by (nonlinear_arith);
            lemma_mod_multiples_vanish(
                group * pow2(over),
                value as int,
                0x1_0000_0000_0000_0000,
            );
            lemma_small_mod(value as nat, 0x1_0000_0000_0000_0000);
        }
        value
    }
}

/// Decodes the varint at the start of `data`.
///
/// Succeeds where `data` holds a byte without a continuation bit, and then
/// returns the value of the varint that ends there with the bytes after it.
pub fn parse_varint<'a>(data: &'a [u8]) -> (r: ParseResult<(Varint, &'a [u8])>)
    ensures
        match r {
            Ok((varint, rest)) => decode_varint(data@) == Some((varint.value, rest@)),
            Err(e) => e == ParseError::NotEnoughData && decode_varint(data@) is None,
        },
{
    let mut value: u64 = 0;
    let mut i: usize = 0;
    proof {
        lemma2_to64();
        assert(data@.take(0) =~= Seq::<u8>::empty());
    }
    while i < data.len() && data[i] & 0x80 != 0
        invariant
            i <= data.len(),
            forall|j: int| 0 <= j < i ==> continues(#[trigger] data@[j]),
            value == base128(data@.take(i as int)) % 0x1_0000_0000_0000_0000,
        decreases data.len() - i,
    {
        let byte: u8 = data[i];
        let group: u8 = byte & 0x7f;
        proof {
            assert(byte & 0x80 != 0 ==> byte >= 0x80) by (bit_vector);
            assert(byte & 0x7f == byte % 0x80) by (bit_vector);
            lemma_group_added(data@, i as int, value);
        }
        value = with_group(value, group, i);
        i += 1;
    }
    if i < data.len() {
        let byte: u8 = data[i];
        proof {
            assert(!(byte & 0x80 != 0) ==> byte < 0x80) by (bit_vector);
            lemma_group_added(data@, i as int, value);
            lemma_span_is_first_closing(data@, i as int);
        }
        value = with_group(value, byte, i);
        let rest = slice_subrange(data, i + 1, data.len());
        assert(rest@ =~= data@.skip(i + 1));
        Ok((Varint { value }, rest))
    } else {
        proof {
            lemma_span_none(data@);
        }
        Err(ParseError::NotEnoughData)
    }
}

/// Decodes a fixed-width 32-bit value: the first four bytes of `data`.
pub fn parse_value32<'a>(data: &'a [u8]) -> (r: ParseResult<(Value32<'a>, &'a [u8])>)
    ensures
        match r {
            Ok((value32, rest)) => decode_value32(data@) == Ok::<_, ParseError>(
                (value32@, rest@),
            ),
            Err(e) => decode_value32(data@) == Err::<(Seq<u8>, Seq<u8>), _>(e),
        },
{
    if data.len() >= 4 {
        let head = slice_subrange(data, 0, 4);
        let rest = slice_subrange(data, 4, data.len());
        assert(head@ =~= data@.take(4));
        assert(rest@ =~= data@.skip(4));
        Ok((Value32::new(head), rest))
    } else {
        Err(ParseError::NotEnoughData)
    }
}

/// Decodes a fixed-width 32-bit value as the value of a field.
pub fn parse_value32_value<'a>(data: &'a [u8]) -> (r: ParseResult<(ParseValue<'a>, &'a [u8])>)
    ensures
        match r {
            Ok((value, rest)) => decode_value(5, data@) == Ok::<_, ParseError>((value@, rest@)),
            Err(e) => decode_value(5, data@) == Err::<(WireValue, Seq<u8>), _>(e),
        },
{
    match parse_value32(data) {
        Ok((value32, rest)) => Ok((ParseValue::Value32(value32), rest)),
        Err(e) => Err(e),
    }
}

/// Decodes a fixed-width 64-bit value: the first eight bytes of `data`.
pub fn parse_value64<'a>(data: &'a [u8]) -> (r: ParseResult<(Value64<'a>, &'a [u8])>)
    ensures
        match r {
            Ok((value64, rest)) => decode_value64(data@) == Ok::<_, ParseError>(
                (value64@, rest@),
            ),
            Err(e) => decode_value64(data@) == Err::<(Seq<u8>, Seq<u8>), _>(e),
        },
{
    if data.len() >= 8 {
        let head = slice_subrange(data, 0, 8);
        let rest = slice_subrange(data, 8, data.len());
        assert(head@ =~= data@.take(8));
        assert(rest@ =~= data@.skip(8));
        Ok((Value64::new(head), rest))
    } else {
        Err(ParseError::NotEnoughData)
    }
}

/// Decodes a fixed-width 64-bit value as the value of a field.
pub fn parse_value64_value<'a>(data: &'a [u8]) -> (r: ParseResult<(ParseValue<'a>, &'a [u8])>)
    ensures
        match r {
            Ok((value, rest)) => decode_value(1, data@) == Ok::<_, ParseError>((value@, rest@)),
            Err(e) => decode_value(1, data@) == Err::<(WireValue, Seq<u8>), _>(e),
        },
{
    match parse_value64(data) {
        Ok((value64, rest)) => Ok((ParseValue::Value64(value64), rest)),
        Err(e) => Err(e),
    }
}

/// Decodes a varint as the value of a field.
pub fn parse_varint_value<'a>(data: &'a [u8]) -> (r: ParseResult<(ParseValue<'a>, &'a [u8])>)
    ensures
        match r {
            Ok((value, rest)) => decode_value(0, data@) == Ok::<_, ParseError>((value@, rest@)),
            Err(e) => decode_value(0, data@) == Err::<(WireValue, Seq<u8>), _>(e),
        },
{
    match parse_varint(data) {
        Ok((varint, rest)) => Ok((ParseValue::Varint(varint), rest)),
        Err(e) => Err(e),
    }
}

/// Decodes a length prefix and takes as many bytes after it as it says.
/// Fails with `NotEnoughData` where fewer bytes are left.
pub fn parse_length_delimited_value<'a>(data: &'a [u8]) -> (r: ParseResult<
    (ParseValue<'a>, &'a [u8]),
>)
    ensures
        match r {
            Ok((value, rest)) => decode_value(2, data@) == Ok::<_, ParseError>((value@, rest@)),
            Err(e) => decode_value(2, data@) == Err::<(WireValue, Seq<u8>), _>(e),
        },
{
    match parse_varint(data) {
        Ok((len, data)) => {
            let len: u64 = len.value;
            if len <= data.len() as u64 {
                let len: usize = len as usize;
                let body = slice_subrange(data, 0, len);
                let rest = slice_subrange(data, len, data.len());
                assert(body@ =~= data@.take(len as int));
                assert(rest@ =~= data@.skip(len as int));
                Ok((ParseValue::LengthDelimited(body), rest))
            } else {
                Err(ParseError::NotEnoughData)
            }
        },
        Err(e) => Err(e),
    }
}

/// Turns down the start or the end of a group.
pub fn parse_deprecated_value<'a>(_data: &'a [u8]) -> (r: ParseResult<(ParseValue<'a>, &'a [u8])>)
    ensures
        r == Err::<(ParseValue<'a>, &'a [u8]), _>(ParseError::DeprecatedType),
{
    Err(ParseError::DeprecatedType)
}

/// Turns down a reserved wire type.
pub fn parse_invalid_type<'a>(_data: &'a [u8]) -> (r: ParseResult<(ParseValue<'a>, &'a [u8])>)
    ensures
        r == Err::<(ParseValue<'a>, &'a [u8]), _>(ParseError::InvalidType),
{
    Err(ParseError::InvalidType)
}

/// Decodes the field at the start of `data`: its key, then the value that
/// the wire type in the key calls for.
pub fn parse_field<'a>(data: &'a [u8]) -> (r: ParseResult<(Field<'a>, &'a [u8])>)
    ensures
        match r {
            Ok((field, rest)) => decode_field(data@) == Ok::<_, ParseError>((field@, rest@)),
            Err(e) => decode_field(data@) == Err::<(WireField, Seq<u8>), _>(e),
        },
{
    let (key, data) = match parse_varint_value(data) {
        Ok((ParseValue::Varint(key), data)) => (key.value, data),
        Ok(_) => return Err(ParseError::Unexpected),
        Err(e) => return Err(e),
    };
    let msg_tag: u32 = #[verifier::truncate] ((key >> 3) as u32);
    let msg_type: u64 = key & 7;
    proof {
        assert((key >> 3) as u32 == (key / 8) % 0x1_0000_0000) by (bit_vector);
        assert(key & 7 == key % 8) by (bit_vector);
    }
    let parsed = match msg_type {
        0 => parse_varint_value(data),
        1 => parse_value64_value(data),
        2 => parse_length_delimited_value(data),
        3 | 4 => parse_deprecated_value(data),
        5 => parse_value32_value(data),
        _ => parse_invalid_type(data),
    };
    match parsed {
        Ok((value, data)) => Ok((Field { tag: msg_tag, value }, data)),
        Err(e) => Err(e),
    }
}

/// Decoding a field is a function of the bytes alone: two runs on the same
/// bytes give the same field and leave the same bytes.
pub proof fn lemma_parse_field_deterministic<'a>(
    first: &'a [u8],
    second: &'a [u8],
    r1: ParseResult<(Field<'a>, &'a [u8])>,
    r2: ParseResult<(Field<'a>, &'a [u8])>,
)
    requires
        first@ == second@,
        call_ensures(parse_field, (first,), r1),
        call_ensures(parse_field, (second,), r2),
    ensures
        r1 == r2,
{
    match (r1, r2) {
        (Ok((f1, rest1)), Ok((f2, rest2))) => {
            assert(f1@ == f2@);
            assert(rest1 =~= rest2);
            lemma_value_by_view(f1.value, f2.value);
        },
        _ => {},
    }
}

/// A value is known by its view.
pub proof fn lemma_value_by_view<'a>(a: ParseValue<'a>, b: ParseValue<'a>)
    requires
        a@ == b@,
    ensures
        a == b,
{
    match (a, b) {
        (ParseValue::Value32(x), ParseValue::Value32(y)) => {
            x.lemma_by_view(y);
        },
        (ParseValue::Value64(x), ParseValue::Value64(y)) => {
            x.lemma_by_view(y);
        },
        (ParseValue::LengthDelimited(x), ParseValue::LengthDelimited(y)) => {
            assert(x =~= y);
        },
        _ => {},
    }
}

/// What the next byte adds to the value read so far.
proof fn lemma_group_added(s: Seq<u8>, i: int, value: u64)
    requires
        0 <= i < s.len(),
        value == base128(s.take(i)) % 0x1_0000_0000_0000_0000,
    ensures
        i <= 9 ==> value < pow2(7 * i as nat),
        base128(s.take(i + 1)) % 0x1_0000_0000_0000_0000 == (value + payload(s[i]) * pow2(
            7 * i as nat,
        )) % 0x1_0000_0000_0000_0000,
{
    let head = s.take(i);
    assert(s.take(i + 1) =~= head.push(s[i]));
    lemma_base128_push(head, s[i]);
    lemma_base128_bound(head);
    lemma_add_mod_noop(
        base128(head) as int,
        (payload(s[i]) * pow2(7 * i as nat)) as int,
        0x1_0000_0000_0000_0000,
    );
    lemma_add_mod_noop(
        value as int,
        (payload(s[i]) * pow2(7 * i as nat)) as int,
        0x1_0000_0000_0000_0000,
    );
    lemma_mod_twice(base128(head) as int, 0x1_0000_0000_0000_0000);
    if i <= 9 {
        lemma2_to64();
        if 7 * i < 64 {
            lemma_pow2_strictly_increases(7 * i as nat, 64);
        }
        lemma_small_mod(base128(head), 0x1_0000_0000_0000_0000);
    }
}

} // verus!
