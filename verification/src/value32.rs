//! A window onto the four bytes of a fixed-width 32-bit value.

use crate::endian::{le_u32, read_i32, read_u32, signed32};
use vstd::prelude::*;
use vstd::std_specs::convert::FromSpecImpl;

verus! {

/// Four bytes of the buffer, not yet read as a number.
#[derive(Debug, Eq, PartialEq, Clone, Copy)]
pub struct Value32<'a> {
    data: &'a [u8],
}

impl<'a> View for Value32<'a> {
    type V = Seq<u8>;

    closed spec fn view(&self) -> Seq<u8> {
        self.data@
    }
}

impl<'a> Value32<'a> {
    #[verifier::type_invariant]
    spec fn four_bytes(self) -> bool {
        self.data@.len() == 4
    }

    /// Takes the four bytes `data` as a value.
    pub fn new(data: &'a [u8]) -> (r: Self)
        requires
            data@.len() == 4,
        ensures
            r@ == data@,
    {
        Value32 { data }
    }

    /// A value is known by its bytes.
    pub proof fn lemma_by_view(self, other: Self)
        requires
            self@ == other@,
        ensures
            self == other,
    {
        assert(self.data =~= other.data);
    }

    /// The four bytes of the value.
    pub fn data(&self) -> (r: &'a [u8])
        ensures
            r@ == self@,
            r@.len() == 4,
    {
        proof {
            use_type_invariant(self);
        }
        self.data
    }
}

impl<'a> From<Value32<'a>> for u32 {
    fn from(value32: Value32<'a>) -> (r: u32) {
        read_u32(value32.data())
    }
}

impl<'a> FromSpecImpl<Value32<'a>> for u32 {
    open spec fn obeys_from_spec() -> bool {
        true
    }

    open spec fn from_spec(value32: Value32<'a>) -> u32 {
        le_u32(value32@) as u32
    }
}

impl<'a> From<Value32<'a>> for i32 {
    fn from(value32: Value32<'a>) -> (r: i32) {
        read_i32(value32.data())
    }
}

impl<'a> FromSpecImpl<Value32<'a>> for i32 {
    open spec fn obeys_from_spec() -> bool {
        true
    }

    open spec fn from_spec(value32: Value32<'a>) -> i32 {
        signed32(le_u32(value32@)) as i32
    }
}

impl<'a> From<Value32<'a>> for u64 {
    fn from(value32: Value32<'a>) -> (r: u64) {
        read_u32(value32.data()) as u64
    }
}

impl<'a> FromSpecImpl<Value32<'a>> for u64 {
    open spec fn obeys_from_spec() -> bool {
        true
    }

    open spec fn from_spec(value32: Value32<'a>) -> u64 {
        le_u32(value32@) as u64
    }
}

impl<'a> From<Value32<'a>> for i64 {
    fn from(value32: Value32<'a>) -> (r: i64) {
        read_i32(value32.data()) as i64
    }
}

impl<'a> FromSpecImpl<Value32<'a>> for i64 {
    open spec fn obeys_from_spec() -> bool {
        true
    }

    open spec fn from_spec(value32: Value32<'a>) -> i64 {
        signed32(le_u32(value32@)) as i64
    }
}

} // verus!
