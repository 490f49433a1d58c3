//! The ZigZag transform between unsigned and signed integers.
//!
//! ZigZag maps signed integers of small magnitude to small unsigned integers:
//! `0, -1, 1, -2, 2, ...` become `0, 1, 2, 3, 4, ...`.

use vstd::prelude::*;

verus! {

/// The signed integer that the unsigned integer `n` stands for: even numbers
/// are the non-negative integers, odd numbers the negative ones.
pub open spec fn zigzag_decode(n: int) -> int {
    if n % 2 == 0 {
        n / 2
    } else {
        -(n / 2) - 1
    }
}

/// The unsigned integer that stands for the signed integer `n`.
pub open spec fn zigzag_encode(n: int) -> int {
    if n >= 0 {
        2 * n
    } else {
        -2 * n - 1
    }
}

/// Conversion to the type on the other side of the ZigZag transform.
pub trait ZigZag<T> {
    /// The value that `zigzag` returns.
    spec fn zigzag_spec(&self) -> T;

    fn zigzag(&self) -> (r: T)
        ensures
            r == self.zigzag_spec(),
    ;
}

impl ZigZag<i32> for u32 {
    open spec fn zigzag_spec(&self) -> i32 {
        zigzag_decode(*self as int) as i32
    }

    fn zigzag(&self) -> (r: i32) {
        let n: u32 = *self;
        assert(n & 1 <= 1 && (n >> 1) <= 0x7fff_ffff) by (bit_vector);
        let half: i32 = (n >> 1) as i32;
        let sign: i32 = -((n & 1) as i32);
        assert(half ^ sign == zigzag_decode(n as int)) by (bit_vector)
            requires
                half == (n >> 1) as i32,
                sign == -((n & 1) as i32),
        ;
        half ^ sign
    }
}

impl ZigZag<u32> for i32 {
    open spec fn zigzag_spec(&self) -> u32 {
        zigzag_encode(*self as int) as u32
    }

    fn zigzag(&self) -> (r: u32) {
        let n: i32 = *self;
        let bits: u32 = #[verifier::truncate] (n as u32);
        let doubled: u32 = bits << 1;
        let sign: u32 = #[verifier::truncate] ((n >> 31) as u32);
        assert(doubled ^ sign == zigzag_encode(n as int)) by (bit_vector)
            requires
                doubled == (n as u32) << 1,
                sign == (n >> 31) as u32,
        ;
        doubled ^ sign
    }
}

impl ZigZag<i64> for u64 {
    open spec fn zigzag_spec(&self) -> i64 {
        zigzag_decode(*self as int) as i64
    }

    fn zigzag(&self) -> (r: i64) {
        let n: u64 = *self;
        assert(n & 1 <= 1 && (n >> 1) <= 0x7fff_ffff_ffff_ffff) by (bit_vector);
        let half: i64 = (n >> 1) as i64;
        let sign: i64 = -((n & 1) as i64);
        assert(half ^ sign == zigzag_decode(n as int)) by (bit_vector)
            requires
                half == (n >> 1) as i64,
                sign == -((n & 1) as i64),
        ;
        half ^ sign
    }
}

impl ZigZag<u64> for i64 {
    open spec fn zigzag_spec(&self) -> u64 {
        zigzag_encode(*self as int) as u64
    }

    fn zigzag(&self) -> (r: u64) {
        let n: i64 = *self;
        let bits: u64 = #[verifier::truncate] (n as u64);
        let doubled: u64 = bits << 1;
        let sign: u64 = #[verifier::truncate] ((n >> 63) as u64);
        assert(doubled ^ sign == zigzag_encode(n as int)) by (bit_vector)
            requires
                doubled == (n as u64) << 1,
                sign == (n >> 63) as u64,
        ;
        doubled ^ sign
    }
}

/// Decoding stays within the signed range of the same width, and encoding
/// within the unsigned range.
pub proof fn lemma_zigzag_ranges(n: int)
    ensures
        0 <= n <= u32::MAX ==> i32::MIN <= zigzag_decode(n) <= i32::MAX,
        0 <= n <= u64::MAX ==> i64::MIN <= zigzag_decode(n) <= i64::MAX,
        i32::MIN <= n <= i32::MAX ==> 0 <= zigzag_encode(n) <= u32::MAX,
        i64::MIN <= n <= i64::MAX ==> 0 <= zigzag_encode(n) <= u64::MAX,
{
}

/// The two directions of the transform are inverse to each other: encoding
/// after decoding gives back every unsigned integer, and decoding after
/// encoding gives back every signed integer.
pub proof fn lemma_zigzag_inverse(u: int, s: int)
    requires
        0 <= u,
    ensures
        zigzag_encode(zigzag_decode(u)) == u,
        zigzag_decode(zigzag_encode(s)) == s,
        zigzag_encode(s) >= 0,
{
}

/// ZigZag is a bijection between `u32` and `i32`.
pub proof fn lemma_zigzag_bijection_32(u: u32, s: i32)
    ensures
        u.zigzag_spec().zigzag_spec() == u,
        s.zigzag_spec().zigzag_spec() == s,
{
    lemma_zigzag_ranges(u as int);
    lemma_zigzag_ranges(s as int);
    lemma_zigzag_inverse(u as int, s as int);
}

/// ZigZag is a bijection between `u64` and `i64`.
pub proof fn lemma_zigzag_bijection_64(u: u64, s: i64)
    ensures
        u.zigzag_spec().zigzag_spec() == u,
        s.zigzag_spec().zigzag_spec() == s,
{
    lemma_zigzag_ranges(u as int);
    lemma_zigzag_ranges(s as int);
    lemma_zigzag_inverse(u as int, s as int);
}

} // verus!
