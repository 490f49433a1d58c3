//! Walking the fields of a message, one after another.

use crate::field::Field;
use crate::parse::{bytes_of, parse_field, ParseError, ParseValue};
use crate::wire::{decode_field, lemma_field_consumes, payload_bytes, WireField, WireValue};
use std::marker::PhantomData;
use vstd::prelude::*;
use vstd::std_specs::convert::FromSpecImpl;

verus! {

/// A cursor over the fields of a message: the bytes that are still to be
/// decoded.
pub struct MessageIter<'a> {
    data: &'a [u8],
}

impl<'a> Clone for MessageIter<'a> {
    fn clone(&self) -> (r: Self)
        ensures
            r == *self,
    {
        MessageIter { data: self.data }
    }
}

impl<'a> View for MessageIter<'a> {
    type V = Seq<u8>;

    closed spec fn view(&self) -> Seq<u8> {
        self.data@
    }
}

impl<'a> MessageIter<'a> {
    /// A cursor at the start of `data`.
    pub fn new(data: &'a [u8]) -> (r: Self)
        ensures
            r@ == data@,
    {
        MessageIter { data }
    }

    /// The fields with the number `tag` among those that are left, each
    /// converted to `T`.
    pub fn tag<T: From<ParseValue<'a>>>(self, tag: u32) -> (r: ByTag<'a, T>)
        ensures
            r.tag() == tag,
            r@ == self@,
    {
        ByTag { tag, inner: self, items: PhantomData }
    }

    /// Decodes the next field and moves behind it. Where no field can be
    /// decoded, for whatever reason, the walk is over and the cursor stays.
    pub fn next(&mut self) -> (r: Option<Field<'a>>)
        ensures
            match r {
                Some(field) => decode_field(old(self)@) == Ok::<_, ParseError>(
                    (field@, final(self)@),
                ),
                None => decode_field(old(self)@) is Err && final(self)@ == old(self)@,
            },
    {
        match parse_field(self.data) {
            Ok((field, rest)) => {
                self.data = rest;
                Some(field)
            },
            Err(_) => None,
        }
    }

    /// Walks to the end and gathers the fields.
    pub fn collect(self) -> (r: Vec<Field<'a>>)
        ensures
            r@.map_values(|field: Field<'a>| field@) == fields(self@),
    {
        let mut iter = self;
        let mut out: Vec<Field<'a>> = Vec::new();
        loop
            invariant
                out@.map_values(|field: Field<'a>| field@) + fields(iter@) == fields(self@),
            decreases iter@.len(),
        {
            let ghost before = iter@;
            let ghost found = out@.map_values(|field: Field<'a>| field@);
            match iter.next() {
                Some(field) => {
                    proof {
                        lemma_field_consumes(before);
                        assert(out@.push(field).map_values(|field: Field<'a>| field@) =~= found.push(
                            field@,
                        ));
                        assert(found.push(field@) + fields(iter@) =~= found + fields(before));
                    }
                    out.push(field);
                },
                None => {
                    assert(found + fields(iter@) =~= found);
                    return out;
                },
            }
        }
    }
}

/// The fields of a message whose bytes are `s`, in their order, up to the
/// end of `s` or to the first field that does not decode.
pub open spec fn fields(s: Seq<u8>) -> Seq<WireField>
    decreases s.len(),
{
    match decode_field(s) {
        Ok((field, rest)) => {
            proof {
                lemma_field_consumes(s);
            }
            seq![field] + fields(rest)
        },
        Err(_) => Seq::empty(),
    }
}

/// A cursor over the bytes of a length-delimited value, which are then
/// taken as an embedded message; a cursor over no bytes for a value of
/// another kind.
impl<'a> From<ParseValue<'a>> for MessageIter<'a> {
    fn from(value: ParseValue<'a>) -> (r: MessageIter<'a>)
        ensures
            r@ == payload_bytes(value@),
    {
        let data: &'a [u8] = From::from(value);
        MessageIter { data }
    }
}

impl<'a> FromSpecImpl<ParseValue<'a>> for MessageIter<'a> {
    open spec fn obeys_from_spec() -> bool {
        true
    }

    closed spec fn from_spec(value: ParseValue<'a>) -> MessageIter<'a> {
        MessageIter { data: bytes_of(value) }
    }
}

/// The first field of `s` with the number `tag`, if the fields before it
/// decode, and the bytes that are left where the search ends.
pub open spec fn find_tag(s: Seq<u8>, tag: u32) -> (Option<WireValue>, Seq<u8>)
    decreases s.len(),
{
    match decode_field(s) {
        Ok((field, rest)) => if field.tag == tag {
            (Some(field.value), rest)
        } else {
            proof {
                lemma_field_consumes(s);
            }
            find_tag(rest, tag)
        },
        Err(_) => (None, s),
    }
}

/// The search for a field moves forward where it finds one.
pub proof fn lemma_find_tag_consumes(s: Seq<u8>, tag: u32)
    ensures
        find_tag(s, tag).1.len() <= s.len(),
        find_tag(s, tag).0 is Some ==> find_tag(s, tag).1.len() < s.len(),
    decreases s.len(),
{
    lemma_field_consumes(s);
    match decode_field(s) {
        Ok((field, rest)) => {
            if field.tag != tag {
                lemma_find_tag_consumes(rest, tag);
            }
        },
        Err(_) => {},
    }
}

/// The values of the fields with the number `tag` in a message whose bytes
/// are `s`, in their order, up to the end of `s` or to the first field that
/// does not decode.
pub open spec fn fields_with_tag(s: Seq<u8>, tag: u32) -> Seq<WireValue>
    decreases s.len(),
{
    match find_tag(s, tag) {
        (Some(value), rest) => {
            proof {
                lemma_find_tag_consumes(s, tag);
            }
            seq![value] + fields_with_tag(rest, tag)
        },
        (None, _) => Seq::empty(),
    }
}

/// The values under a number are the first one found, then those found in
/// the bytes after it.
pub proof fn lemma_with_tag_unfold(s: Seq<u8>, tag: u32)
    ensures
        fields_with_tag(s, tag) == match find_tag(s, tag) {
            (Some(value), rest) => seq![value] + fields_with_tag(rest, tag),
            (None, _) => Seq::empty(),
        },
{
}

/// The fields under a number are all the fields of that number, each one as
/// often as it occurs: what is left of the fields of the message when those
/// of other numbers are taken out.
pub proof fn lemma_with_tag_is_filter(s: Seq<u8>, tag: u32)
    ensures
        fields_with_tag(s, tag) == fields(s).filter(|field: WireField| field.tag == tag).map_values(
            |field: WireField| field.value,
        ),
    decreases s.len(),
{
    let wanted = |field: WireField| field.tag == tag;
    let value = |field: WireField| field.value;
    lemma_with_tag_unfold(s, tag);
    match decode_field(s) {
        Ok((field, rest)) => {
            lemma_field_consumes(s);
            lemma_with_tag_is_filter(rest, tag);
            lemma_with_tag_unfold(rest, tag);
            fields(rest).lemma_filter_prepend(field, wanted);
            if field.tag == tag {
                assert((seq![field] + fields(rest).filter(wanted)).map_values(value) =~= seq![
                    field.value,
                ] + fields(rest).filter(wanted).map_values(value));
            } else {
                assert(Seq::<WireField>::empty() + fields(rest).filter(wanted) =~= fields(
                    rest,
                ).filter(wanted));
            }
        },
        Err(_) => {
            assert(fields(s).filter(wanted).len() == 0) by {
                fields(s).lemma_filter_len(wanted);
            }
            assert(fields(s).filter(wanted).map_values(value) =~= Seq::<WireValue>::empty());
        },
    }
}

/// Whether `converted` is what the conversion to `T` may make of a value
/// whose view is `found`.
pub open spec fn converts<'a, T: From<ParseValue<'a>>>(found: WireValue, converted: T) -> bool {
    exists|value: ParseValue<'a>| #[trigger]
        value@ == found && call_ensures(T::from, (value,), converted)
}

/// The fields of one number among the fields of a message.
pub struct ByTag<'a, T: 'a + From<ParseValue<'a>>> {
    tag: u32,
    inner: MessageIter<'a>,
    items: PhantomData<&'a T>,
}

impl<'a, T: 'a + From<ParseValue<'a>>> Clone for ByTag<'a, T> {
    fn clone(&self) -> (r: Self)
        ensures
            r == *self,
    {
        ByTag { tag: self.tag, inner: self.inner.clone(), items: PhantomData }
    }
}

impl<'a, T: 'a + From<ParseValue<'a>>> View for ByTag<'a, T> {
    type V = Seq<u8>;

    closed spec fn view(&self) -> Seq<u8> {
        self.inner@
    }
}

impl<'a, T: 'a + From<ParseValue<'a>>> ByTag<'a, T> {
    /// The field number that is looked for.
    pub closed spec fn tag(&self) -> u32 {
        self.tag
    }

    /// Skips fields of other numbers and converts the next field of the
    /// number looked for. Every such field is handed out, not only the first.
    pub fn next(&mut self) -> (r: Option<T>)
        ensures
            final(self).tag() == old(self).tag(),
            final(self)@ == find_tag(old(self)@, old(self).tag()).1,
            match find_tag(old(self)@, old(self).tag()).0 {
                Some(found) => r matches Some(converted) && converts(found, converted),
                None => r is None,
            },
    {
        loop
            invariant
                self.tag == old(self).tag,
                find_tag(self.inner@, self.tag) == find_tag(old(self).inner@, old(self).tag),
            decreases self.inner@.len(),
        {
            let ghost before = self.inner@;
            match self.inner.next() {
                Some(msg) => {
                    proof {
                        lemma_field_consumes(before);
                    }
                    if msg.tag == self.tag {
                        let item = T::from(msg.value);
                        assert(msg.value@ == find_tag(old(self)@, old(self).tag()).0.unwrap());
                        return Some(item);
                    }
                },
                None => {
                    return None;
                },
            }
        }
    }

    /// Walks to the end and gathers the converted values of the fields with
    /// the number looked for.
    pub fn collect(self) -> (r: Vec<T>)
        ensures
            r@.len() == fields_with_tag(self@, self.tag()).len(),
            forall|i: int|
                0 <= i < r@.len() ==> converts(
                    fields_with_tag(self@, self.tag())[i],
                    #[trigger] r@[i],
                ),
    {
        let mut iter = self;
        let mut out: Vec<T> = Vec::new();
        let ghost mut done: Seq<WireValue> = Seq::empty();
        loop
            invariant
                iter.tag() == self.tag(),
                done + fields_with_tag(iter@, self.tag()) == fields_with_tag(self@, self.tag()),
                out@.len() == done.len(),
                forall|i: int| 0 <= i < out@.len() ==> converts(done[i], #[trigger] out@[i]),
            decreases iter@.len(),
        {
            let ghost before = iter@;
            let ghost left = fields_with_tag(before, self.tag());
            proof {
                lemma_find_tag_consumes(before, self.tag());
                lemma_with_tag_unfold(before, self.tag());
            }
            match iter.next() {
                Some(converted) => {
                    proof {
                        let found = find_tag(before, self.tag()).0.unwrap();
                        let after = fields_with_tag(iter@, self.tag());
                        assert(left == seq![found] + after);
                        assert(done.push(found) + after =~= done + (seq![found] + after));
                        done = done.push(found);
                    }
                    out.push(converted);
                },
                None => {
                    assert(left == Seq::<WireValue>::empty());
                    assert(done + left =~= done);
                    return out;
                },
            }
        }
    }
}

} // verus!
