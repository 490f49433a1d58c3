//! Walking a packed repeated field: values of one kind, one after another,
//! without keys between them.

use crate::leb128::{
    decode_varint, encode_varint, lemma_encoding_span, lemma_span_shape, lemma_varint_prefix,
    lemma_varint_round_trip, varint_span,
};
use crate::parse::{parse_value32, parse_value64, parse_varint, ParseError, ParseResult};
use crate::value32::Value32;
use crate::value64::Value64;
use crate::varint::Varint;
use crate::wire::{decode_value32, decode_value64};
use std::marker::PhantomData;
use vstd::prelude::*;

verus! {

/// The way the values of a packed field are encoded.
pub trait Packed<'a> {
    /// What one value decodes to.
    type Item: View;

    /// The value at the start of `data`, as its view, and the bytes after
    /// it; `None` where `data` ends within the value.
    spec fn decode(data: Seq<u8>) -> Option<(<Self::Item as View>::V, Seq<u8>)>;

    /// Decodes the value at the start of `data`. A value takes up at least
    /// one byte, and fails to decode only where `data` ends within it.
    fn parse(data: &'a [u8]) -> (r: ParseResult<(Self::Item, &'a [u8])>)
        ensures
            match r {
                Ok((item, rest)) => Self::decode(data@) == Some((item@, rest@)) && rest@.len()
                    < data@.len(),
                Err(e) => e == ParseError::NotEnoughData && Self::decode(data@) is None,
            },
    ;
}

/// Values encoded as varints.
pub struct PackedVarint;

impl<'a> Packed<'a> for PackedVarint {
    type Item = Varint;

    open spec fn decode(data: Seq<u8>) -> Option<(u64, Seq<u8>)> {
        decode_varint(data)
    }

    fn parse(data: &'a [u8]) -> (r: ParseResult<(Varint, &'a [u8])>) {
        proof {
            lemma_span_shape(data@);
        }
        parse_varint(data)
    }
}

/// Values encoded in four bytes each.
pub struct PackedValue32;

impl<'a> Packed<'a> for PackedValue32 {
    type Item = Value32<'a>;

    open spec fn decode(data: Seq<u8>) -> Option<(Seq<u8>, Seq<u8>)> {
        match decode_value32(data) {
            Ok(found) => Some(found),
            Err(_) => None,
        }
    }

    fn parse(data: &'a [u8]) -> (r: ParseResult<(Value32<'a>, &'a [u8])>) {
        parse_value32(data)
    }
}

/// Values encoded in eight bytes each.
pub struct PackedValue64;

impl<'a> Packed<'a> for PackedValue64 {
    type Item = Value64<'a>;

    open spec fn decode(data: Seq<u8>) -> Option<(Seq<u8>, Seq<u8>)> {
        match decode_value64(data) {
            Ok(found) => Some(found),
            Err(_) => None,
        }
    }

    fn parse(data: &'a [u8]) -> (r: ParseResult<(Value64<'a>, &'a [u8])>) {
        parse_value64(data)
    }
}

/// The next value of a packed field whose bytes left are `s`, and the bytes
/// after it: none where nothing is left or the bytes end within a value.
pub open spec fn packed_next<'a, P: Packed<'a>>(s: Seq<u8>) -> Option<
    (<P::Item as View>::V, Seq<u8>),
> {
    if s.len() == 0 {
        None
    } else {
        P::decode(s)
    }
}

/// The values of a packed field whose bytes are `s`, in their order, up to
/// the end of `s` or to the first value that does not decode.
pub open spec fn packed_items<'a, P: Packed<'a>>(s: Seq<u8>) -> Seq<<P::Item as View>::V>
    decreases s.len(),
{
    match packed_next::<P>(s) {
        Some((found, rest)) => if rest.len() < s.len() {
            seq![found] + packed_items::<P>(rest)
        } else {
            seq![found]
        },
        None => Seq::empty(),
    }
}

/// Whether `converted` is what the conversion to `T` may make of a value
/// whose view is `found`.
pub open spec fn converts<'a, P: Packed<'a>, T: From<P::Item>>(
    found: <P::Item as View>::V,
    converted: T,
) -> bool {
    exists|item: P::Item| #[trigger] item@ == found && call_ensures(T::from, (item,), converted)
}

/// The sequences of `chunks`, one after another.
pub open spec fn concat(chunks: Seq<Seq<u8>>) -> Seq<u8>
    decreases chunks.len(),
{
    if chunks.len() == 0 {
        Seq::empty()
    } else {
        chunks[0] + concat(chunks.skip(1))
    }
}

/// Whether `chunk` is one varint from its first byte to its last.
pub open spec fn is_varint(chunk: Seq<u8>) -> bool {
    varint_span(chunk) == Some(chunk.len())
}

/// A packed field made of `k` varints, one after another, holds exactly `k`
/// values: those of the varints, in their order.
pub proof fn lemma_packed_varints(chunks: Seq<Seq<u8>>)
    requires
        forall|i: int| 0 <= i < chunks.len() ==> is_varint(#[trigger] chunks[i]),
    ensures
        packed_items::<PackedVarint>(concat(chunks)) == chunks.map_values(
            |chunk: Seq<u8>| decode_varint(chunk).unwrap().0,
        ),
        packed_items::<PackedVarint>(concat(chunks)).len() == chunks.len(),
    decreases chunks.len(),
{
    let value = |chunk: Seq<u8>| decode_varint(chunk).unwrap().0;
    if chunks.len() == 0 {
        assert(packed_items::<PackedVarint>(concat(chunks)) =~= chunks.map_values(value));
    } else {
        let first = chunks[0];
        let others = chunks.skip(1);
        let rest = concat(others);
        assert(is_varint(first));
        lemma_span_shape(first);
        lemma_varint_prefix(first, rest);
        assert(first.take(first.len() as int) =~= first);
        assert forall|i: int| 0 <= i < others.len() implies is_varint(#[trigger] others[i]) by {
            assert(others[i] == chunks[i + 1]);
        }
        lemma_packed_varints(others);
        assert(packed_items::<PackedVarint>(concat(chunks)) == seq![value(first)]
            + packed_items::<PackedVarint>(rest));
        assert(seq![value(first)] + others.map_values(value) =~= chunks.map_values(value));
    }
}

/// A packed field made of the encodings of `values` decodes to `values`.
pub proof fn lemma_packed_round_trip(values: Seq<u64>)
    ensures
        packed_items::<PackedVarint>(
            concat(values.map_values(|v: u64| encode_varint(v as nat))),
        ) == values,
{
    let chunks = values.map_values(|v: u64| encode_varint(v as nat));
    assert forall|i: int| 0 <= i < chunks.len() implies is_varint(#[trigger] chunks[i])
        && decode_varint(chunks[i]).unwrap().0 == values[i] by {
        let encoding = encode_varint(values[i] as nat);
        assert(chunks[i] == encoding);
        assert(encoding + Seq::<u8>::empty() =~= encoding);
        lemma_encoding_span(values[i] as nat, Seq::empty());
        lemma_varint_round_trip(values[i], Seq::empty());
    }
    lemma_packed_varints(chunks);
    assert(chunks.map_values(|chunk: Seq<u8>| decode_varint(chunk).unwrap().0) =~= values);
}

/// A cursor over the values of a packed field. `P` is the encoding of the
/// values, `T` the type they are converted to.
pub struct PackedIter<'a, P, T> {
    data: &'a [u8],
    packed: PhantomData<P>,
    item: PhantomData<T>,
}

impl<'a, P, T> View for PackedIter<'a, P, T> {
    type V = Seq<u8>;

    closed spec fn view(&self) -> Seq<u8> {
        self.data@
    }
}

impl<'a, P, T> PackedIter<'a, P, T> {
    /// A cursor at the start of `data`.
    pub fn new(data: &'a [u8]) -> (r: Self)
        ensures
            r@ == data@,
    {
        PackedIter { data, packed: PhantomData, item: PhantomData }
    }
}

impl<'a, P: Packed<'a>, T: From<<P as Packed<'a>>::Item>> PackedIter<'a, P, T> {
    /// Decodes the next value, converts it and moves behind it. Where
    /// nothing is left, or the next value does not decode, the walk is over
    /// and the cursor stays.
    pub fn next(&mut self) -> (r: Option<T>)
        ensures
            match packed_next::<P>(old(self)@) {
                Some((found, rest)) => {
                    &&& final(self)@ == rest
                    &&& rest.len() < old(self)@.len()
                    &&& r matches Some(converted) && converts::<P, T>(found, converted)
                },
                None => r is None && final(self)@ == old(self)@,
            },
    {
        if self.data.len() < 1 {
            return None;
        }
        match P::parse(self.data) {
            Ok((value, rest)) => {
                self.data = rest;
                let converted = T::from(value);
                assert(value@ == packed_next::<P>(old(self)@).unwrap().0);
                Some(converted)
            },
            _ => None,
        }
    }

    /// Walks to the end and gathers the converted values.
    pub fn collect(self) -> (r: Vec<T>)
        ensures
            r@.len() == packed_items::<P>(self@).len(),
            forall|i: int|
                0 <= i < r@.len() ==> converts::<P, T>(
                    packed_items::<P>(self@)[i],
                    #[trigger] r@[i],
                ),
    {
        let mut iter = self;
        let mut out: Vec<T> = Vec::new();
        let ghost mut done: Seq<<P::Item as View>::V> = Seq::empty();
        loop
            invariant
                done + packed_items::<P>(iter@) == packed_items::<P>(self@),
                out@.len() == done.len(),
                forall|i: int| 0 <= i < out@.len() ==> converts::<P, T>(done[i], #[trigger] out@[i]),
            decreases iter@.len(),
        {
            let ghost before = iter@;
            match iter.next() {
                Some(converted) => {
                    proof {
                        let found = packed_next::<P>(before).unwrap().0;
                        assert(done.push(found) + packed_items::<P>(iter@) =~= done
                            + packed_items::<P>(before));
                        done = done.push(found);
                    }
                    out.push(converted);
                },
                None => {
                    assert(done + packed_items::<P>(iter@) =~= done);
                    return out;
                },
            }
        }
    }
}

} // verus!
