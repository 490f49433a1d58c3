//! One decoded field of a message.

use crate::parse::ParseValue;
use crate::wire::WireField;
use vstd::prelude::*;
use vstd::std_specs::convert::FromSpecImpl;

verus! {

/// A field number with the value that was found under it.
#[derive(Debug, Eq, PartialEq)]
pub struct Field<'a> {
    pub tag: u32,
    pub value: ParseValue<'a>,
}

impl<'a> View for Field<'a> {
    type V = WireField;

    open spec fn view(&self) -> WireField {
        WireField { tag: self.tag, value: self.value@ }
    }
}

impl<'a> From<Field<'a>> for ParseValue<'a> {
    fn from(m: Field<'a>) -> (r: ParseValue<'a>) {
        m.value
    }
}

impl<'a> FromSpecImpl<Field<'a>> for ParseValue<'a> {
    open spec fn obeys_from_spec() -> bool {
        true
    }

    open spec fn from_spec(m: Field<'a>) -> ParseValue<'a> {
        m.value
    }
}

} // verus!
