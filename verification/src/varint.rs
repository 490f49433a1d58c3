//! A decoded variable-length integer.

use crate::endian::signed32;
use crate::zigzag::{zigzag_decode, lemma_zigzag_ranges, ZigZag};
use vstd::prelude::*;
use vstd::std_specs::convert::FromSpecImpl;

verus! {

/// An unsigned integer that was read from a varint. How it is to be taken,
/// as unsigned or through the ZigZag transform, is up to the conversion the
/// caller picks.
#[derive(Debug, Eq, PartialEq, Clone, Copy)]
pub struct Varint {
    pub value: u64,
}

impl View for Varint {
    type V = u64;

    open spec fn view(&self) -> u64 {
        self.value
    }
}

/// The low 32 bits of the integer.
impl From<Varint> for u32 {
    fn from(varint: Varint) -> (r: u32) {
        let value: u64 = varint.value;
        assert(value as u32 == value % 0x1_0000_0000) by (bit_vector);
        #[verifier::truncate]
        (value as u32)
    }
}

impl FromSpecImpl<Varint> for u32 {
    open spec fn obeys_from_spec() -> bool {
        true
    }

    open spec fn from_spec(varint: Varint) -> u32 {
        (varint.value % 0x1_0000_0000) as u32
    }
}

/// The signed integer that the ZigZag transform makes of the integer, cut to
/// its low 32 bits.
impl From<Varint> for i32 {
    fn from(varint: Varint) -> (r: i32) {
        let wide: i64 = varint.value.zigzag();
        proof {
            lemma_zigzag_ranges(varint.value as int);
            assert(wide as i32 == signed32((wide as int) % 0x1_0000_0000)) by (bit_vector);
        }
        #[verifier::truncate]
        (wide as i32)
    }
}

impl FromSpecImpl<Varint> for i32 {
    open spec fn obeys_from_spec() -> bool {
        true
    }

    open spec fn from_spec(varint: Varint) -> i32 {
        signed32(zigzag_decode(varint.value as int) % 0x1_0000_0000) as i32
    }
}

impl From<Varint> for u64 {
    fn from(varint: Varint) -> (r: u64) {
        varint.value
    }
}

impl FromSpecImpl<Varint> for u64 {
    open spec fn obeys_from_spec() -> bool {
        true
    }

    open spec fn from_spec(varint: Varint) -> u64 {
        varint.value
    }
}

/// The signed integer that the ZigZag transform makes of the integer.
impl From<Varint> for i64 {
    fn from(varint: Varint) -> (r: i64) {
        varint.value.zigzag()
    }
}

impl FromSpecImpl<Varint> for i64 {
    open spec fn obeys_from_spec() -> bool {
        true
    }

    open spec fn from_spec(varint: Varint) -> i64 {
        zigzag_decode(varint.value as int) as i64
    }
}

} // verus!
