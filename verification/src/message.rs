//! One decoded field of a message, with its value held in a container of
//! the caller's choice.

use crate::parse_message::ParseValue;
use vstd::prelude::*;
use vstd::std_specs::convert::FromSpecImpl;

verus! {

/// A field number with the value that was found under it.
#[derive(Debug, Eq, PartialEq)]
pub struct Message<C> {
    pub tag: u64,
    pub value: ParseValue<C>,
}

impl<C> From<Message<C>> for ParseValue<C> {
    fn from(m: Message<C>) -> (r: ParseValue<C>) {
        m.value
    }
}

impl<C> FromSpecImpl<Message<C>> for ParseValue<C> {
    open spec fn obeys_from_spec() -> bool {
        true
    }

    open spec fn from_spec(m: Message<C>) -> ParseValue<C> {
        m.value
    }
}

} // verus!
