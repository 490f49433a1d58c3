//! A window onto the eight bytes of a fixed-width 64-bit value.

use crate::endian::{le_u32, le_u64, read_i64, read_u64, signed32, signed64};
use vstd::arithmetic::div_mod::lemma_mod_multiples_vanish;
use vstd::prelude::*;
use vstd::std_specs::convert::FromSpecImpl;

verus! {

/// Eight bytes of the buffer, not yet read as a number.
#[derive(Debug, Eq, PartialEq, Clone, Copy)]
pub struct Value64<'a> {
    data: &'a [u8],
}

impl<'a> View for Value64<'a> {
    type V = Seq<u8>;

    closed spec fn view(&self) -> Seq<u8> {
        self.data@
    }
}

impl<'a> Value64<'a> {
    #[verifier::type_invariant]
    spec fn eight_bytes(self) -> bool {
        self.data@.len() == 8
    }

    /// Takes the eight bytes `data` as a value.
    pub fn new(data: &'a [u8]) -> (r: Self)
        requires
            data@.len() == 8,
        ensures
            r@ == data@,
    {
        Value64 { data }
    }

    /// A value is known by its bytes.
    pub proof fn lemma_by_view(self, other: Self)
        requires
            self@ == other@,
        ensures
            self == other,
    {
        assert(self.data =~= other.data);
    }

    /// The eight bytes of the value.
    pub fn data(&self) -> (r: &'a [u8])
        ensures
            r@ == self@,
            r@.len() == 8,
    {
        proof {
            use_type_invariant(self);
        }
        self.data
    }
}

/// Narrowing to 32 bits keeps the low four bytes.
impl<'a> From<Value64<'a>> for u32 {
    fn from(value64: Value64<'a>) -> (r: u32) {
        let wide: u64 = read_u64(value64.data());
        proof {
            lemma_low_half(value64@);
            assert(wide as u32 == wide % 0x1_0000_0000) by (bit_vector);
        }
        #[verifier::truncate]
        (wide as u32)
    }
}

impl<'a> FromSpecImpl<Value64<'a>> for u32 {
    open spec fn obeys_from_spec() -> bool {
        true
    }

    open spec fn from_spec(value64: Value64<'a>) -> u32 {
        le_u32(value64@) as u32
    }
}

/// Narrowing to 32 bits keeps the low four bytes, taken as two's complement.
impl<'a> From<Value64<'a>> for i32 {
    fn from(value64: Value64<'a>) -> (r: i32) {
        let wide: i64 = read_i64(value64.data());
        proof {
            let unsigned: u64 = le_u64(value64@) as u64;
            let low: u32 = le_u32(value64@) as u32;
            lemma_low_half(value64@);
            assert(wide as i32 == signed32(low as int)) by (bit_vector)
                requires
                    wide == signed64(unsigned as int),
                    low == unsigned % 0x1_0000_0000,
            ;
        }
        #[verifier::truncate]
        (wide as i32)
    }
}

impl<'a> FromSpecImpl<Value64<'a>> for i32 {
    open spec fn obeys_from_spec() -> bool {
        true
    }

    open spec fn from_spec(value64: Value64<'a>) -> i32 {
        signed32(le_u32(value64@)) as i32
    }
}

impl<'a> From<Value64<'a>> for u64 {
    fn from(value64: Value64<'a>) -> (r: u64) {
        read_u64(value64.data())
    }
}

impl<'a> FromSpecImpl<Value64<'a>> for u64 {
    open spec fn obeys_from_spec() -> bool {
        true
    }

    open spec fn from_spec(value64: Value64<'a>) -> u64 {
        le_u64(value64@) as u64
    }
}

impl<'a> From<Value64<'a>> for i64 {
    fn from(value64: Value64<'a>) -> (r: i64) {
        read_i64(value64.data())
    }
}

impl<'a> FromSpecImpl<Value64<'a>> for i64 {
    open spec fn obeys_from_spec() -> bool {
        true
    }

    open spec fn from_spec(value64: Value64<'a>) -> i64 {
        signed64(le_u64(value64@)) as i64
    }
}

/// The low 32 bits of an eight-byte value are its first four bytes.
pub proof fn lemma_low_half(s: Seq<u8>)
    ensures
        le_u64(s) % 0x1_0000_0000 == le_u32(s),
{
    lemma_mod_multiples_vanish(le_u32(s.skip(4)), le_u32(s), 0x1_0000_0000);
}

} // verus!
