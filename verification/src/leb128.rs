//! The mathematical model of the base-128 variable-length integers of the
//! wire format.
//!
//! A varint is a run of bytes whose high bit is set, closed by one byte whose
//! high bit is clear. Each byte carries seven bits of the integer, the least
//! significant group first.

use vstd::arithmetic::div_mod::*;
use vstd::arithmetic::mul::*;
use vstd::arithmetic::power2::*;
use vstd::prelude::*;

verus! {

/// Whether another byte of the same varint follows the byte `b`.
pub open spec fn continues(b: u8) -> bool {
    b >= 0x80
}

/// The seven bits of the integer that the byte `b` carries.
pub open spec fn payload(b: u8) -> nat {
    (b % 0x80) as nat
}

/// The number whose base-128 digits, least significant first, are the
/// payloads of the bytes of `s`.
pub open spec fn base128(s: Seq<u8>) -> nat
    decreases s.len(),
{
    if s.len() == 0 {
        0
    } else {
        payload(s[0]) + 128 * base128(s.skip(1))
    }
}

/// The number of bytes of the varint at the start of `s`, its closing byte
/// included, or `None` where `s` ends before a closing byte.
pub open spec fn varint_span(s: Seq<u8>) -> Option<nat>
    decreases s.len(),
{
    if s.len() == 0 {
        None
    } else if !continues(s[0]) {
        Some(1)
    } else {
        match varint_span(s.skip(1)) {
            Some(n) => Some(n + 1),
            None => None,
        }
    }
}

/// The varint at the start of `s` and the bytes that follow it. The value is
/// held in 64 bits: what a longer varint carries above them is dropped.
pub open spec fn decode_varint(s: Seq<u8>) -> Option<(u64, Seq<u8>)> {
    match varint_span(s) {
        Some(n) => Some(
            ((base128(s.take(n as int)) % 0x1_0000_0000_0000_0000) as u64, s.skip(n as int)),
        ),
        None => None,
    }
}

/// The shortest varint that carries `v`.
pub open spec fn encode_varint(v: nat) -> Seq<u8>
    decreases v,
{
    if v < 128 {
        seq![v as u8]
    } else {
        seq![(128 + v % 128) as u8] + encode_varint(v / 128)
    }
}

/// The number of binary digits of `v`; zero has none.
pub open spec fn bits_needed(v: nat) -> nat
    decreases v,
{
    if v == 0 {
        0
    } else {
        1 + bits_needed(v / 2)
    }
}

/// The number of seven-bit groups that the binary digits of `v` fill, and one
/// for zero.
pub open spec fn encoded_len(v: nat) -> nat {
    if v == 0 {
        1
    } else {
        (bits_needed(v) + 6) / 7
    }
}

/// A span is the position after the first byte without a continuation bit.
pub proof fn lemma_span_is_first_closing(s: Seq<u8>, n: int)
    requires
        0 <= n < s.len(),
        forall|i: int| 0 <= i < n ==> continues(#[trigger] s[i]),
        !continues(s[n]),
    ensures
        varint_span(s) == Some((n + 1) as nat),
    decreases n,
{
    if n > 0 {
        let t = s.skip(1);
        assert forall|i: int| 0 <= i < n - 1 implies continues(#[trigger] t[i]) by {
            assert(t[i] == s[i + 1]);
        }
        lemma_span_is_first_closing(t, n - 1);
    }
}

/// Bytes that all carry a continuation bit hold no complete varint.
pub proof fn lemma_span_none(s: Seq<u8>)
    requires
        forall|i: int| 0 <= i < s.len() ==> continues(#[trigger] s[i]),
    ensures
        varint_span(s) is None,
    decreases s.len(),
{
    if s.len() > 0 {
        let t = s.skip(1);
        assert forall|i: int| 0 <= i < t.len() implies continues(#[trigger] t[i]) by {
            assert(t[i] == s[i + 1]);
        }
        lemma_span_none(t);
    }
}

/// What a span says of the bytes: it lies within them, every byte before its
/// last carries a continuation bit, and its last does not.
pub proof fn lemma_span_shape(s: Seq<u8>)
    ensures
        match varint_span(s) {
            Some(n) => {
                &&& 1 <= n <= s.len()
                &&& forall|i: int| 0 <= i < n - 1 ==> continues(#[trigger] s[i])
                &&& !continues(s[n - 1])
            },
            None => forall|i: int| 0 <= i < s.len() ==> continues(#[trigger] s[i]),
        },
    decreases s.len(),
{
    if s.len() > 0 && continues(s[0]) {
        let t = s.skip(1);
        lemma_span_shape(t);
        match varint_span(t) {
            Some(n) => {
                assert forall|i: int| 0 <= i < n implies continues(#[trigger] s[i]) by {
                    if i > 0 {
                        assert(s[i] == t[i - 1]);
                    }
                }
                assert(s[n as int] == t[n - 1]);
            },
            None => {
                assert forall|i: int| 0 <= i < s.len() implies continues(#[trigger] s[i]) by {
                    if i > 0 {
                        assert(s[i] == t[i - 1]);
                    }
                }
            },
        }
    }
}

/// One more byte at the end adds its payload at the next group of seven bits.
pub proof fn lemma_base128_push(s: Seq<u8>, b: u8)
    ensures
        base128(s.push(b)) == base128(s) + payload(b) * pow2(7 * s.len()),
    decreases s.len(),
{
    lemma2_to64();
    let sb = s.push(b);
    assert(sb[0] == if s.len() == 0 { b } else { s[0] });
    if s.len() == 0 {
        assert(sb.skip(1) =~= Seq::<u8>::empty());
        assert(base128(sb) == payload(b) + 128 * base128(sb.skip(1)));
        assert(7 * s.len() == 0);
        assert(payload(b) * pow2(0) == payload(b));
    } else {
        let t = s.skip(1);
        let w = pow2(7 * t.len());
        assert(sb.skip(1) =~= t.push(b));
        lemma_base128_push(t, b);
        assert(base128(sb) == payload(s[0]) + 128 * base128(t.push(b)));
        assert(base128(s) == payload(s[0]) + 128 * base128(t));
        assert(pow2(7 * s.len()) == 128 * w) by {
            lemma_pow2_adds(7, 7 * t.len());
            assert(7 + 7 * t.len() == 7 * s.len());
        }
        assert(128 * (base128(t) + payload(b) * w) == 128 * base128(t) + payload(b) * (128 * w))
            by (nonlinear_arith);
    }
}

/// The digits of `s` stay below the power of 128 of their count.
pub proof fn lemma_base128_bound(s: Seq<u8>)
    ensures
        base128(s) < pow2(7 * s.len()),
    decreases s.len(),
{
    lemma2_to64();
    if s.len() > 0 {
        let t = s.skip(1);
        lemma_base128_bound(t);
        lemma_pow2_adds(7, 7 * t.len());
        assert(7 + 7 * t.len() == 7 * s.len());
    }
}

/// What comes after a varint has no part in how it decodes: where `s`
/// starts with a varint, these bytes followed by any `tail` decode to the
/// same value, and leave `tail`.
pub proof fn lemma_varint_prefix(s: Seq<u8>, tail: Seq<u8>)
    requires
        varint_span(s) is Some,
    ensures
        ({
            let n = varint_span(s).unwrap() as int;
            &&& n <= s.len()
            &&& decode_varint(s) == Some((decode_varint(s).unwrap().0, s.skip(n)))
            &&& decode_varint(s.take(n) + tail) == Some((decode_varint(s).unwrap().0, tail))
        }),
{
    let n = varint_span(s).unwrap() as int;
    lemma_span_shape(s);
    let t = s.take(n) + tail;
    assert forall|i: int| 0 <= i < n - 1 implies continues(#[trigger] t[i]) by {
        assert(t[i] == s[i]);
    }
    assert(t[n - 1] == s[n - 1]);
    lemma_span_is_first_closing(t, n - 1);
    assert(t.take(n) =~= s.take(n));
    assert(t.skip(n) =~= tail);
}

/// The encoding of `v` is one varint and nothing more.
pub proof fn lemma_encoding_span(v: nat, tail: Seq<u8>)
    ensures
        varint_span(encode_varint(v) + tail) == Some(encode_varint(v).len()),
    decreases v,
{
    let whole = encode_varint(v) + tail;
    if v < 128 {
        assert(whole[0] == v as u8);
    } else {
        let first = (128 + v % 128) as u8;
        assert(whole[0] == first);
        assert(whole.skip(1) =~= encode_varint(v / 128) + tail);
        lemma_encoding_span(v / 128, tail);
    }
}

/// The encoding of `v` carries `v`.
pub proof fn lemma_encoding_value(v: nat)
    ensures
        base128(encode_varint(v)) == v,
    decreases v,
{
    let enc = encode_varint(v);
    if v < 128 {
        assert(enc.skip(1) =~= Seq::<u8>::empty());
        assert(base128(enc.skip(1)) == 0);
    } else {
        assert(enc.skip(1) =~= encode_varint(v / 128));
        lemma_encoding_value(v / 128);
    }
}

/// A number of at least 128 has seven binary digits more than its 128th
/// part.
proof fn lemma_bits_of_128th(v: nat)
    requires
        v >= 128,
    ensures
        bits_needed(v) == 7 + bits_needed(v / 128),
{
    reveal_with_fuel(bits_needed, 8);
    assert(v / 2 / 2 / 2 / 2 / 2 / 2 / 2 == v / 128);
}

/// The encoding of `v` has one byte for every seven binary digits of `v`,
/// the last group rounded up, and one byte for zero.
pub proof fn lemma_encoding_len(v: nat)
    ensures
        encode_varint(v).len() == encoded_len(v),
    decreases v,
{
    if v < 128 {
        reveal_with_fuel(bits_needed, 9);
    } else {
        lemma_encoding_len(v / 128);
        lemma_bits_of_128th(v);
    }
}

/// Encoding and then decoding gives back every 64-bit value. The decoder
/// takes exactly the bytes of the encoding, one for every seven binary
/// digits of the value and at least one, and leaves what follows them.
pub proof fn lemma_varint_round_trip(v: u64, tail: Seq<u8>)
    ensures
        decode_varint(encode_varint(v as nat) + tail) == Some((v, tail)),
        encode_varint(v as nat).len() == encoded_len(v as nat),
        encoded_len(v as nat) >= 1,
{
    let enc = encode_varint(v as nat);
    let whole = enc + tail;
    lemma_encoding_span(v as nat, tail);
    lemma_encoding_value(v as nat);
    lemma_encoding_len(v as nat);
    assert(whole.take(enc.len() as int) =~= enc);
    assert(whole.skip(enc.len() as int) =~= tail);
}

} // verus!
