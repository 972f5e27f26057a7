//! The length-prefixed opaque byte string that carries spending conditions.
//!
//! The codec never interprets the payload: it writes a variable-length count
//! of the payload's bytes and then the payload verbatim, and on decode it
//! insists that every byte the count claims is actually present.

use vstd::prelude::*;

use crate::compact_size::lemma_compact_size_round_trip;
use crate::compact_size::lemma_encode_compact_size_len;
use crate::compact_size::lemma_decode_compact_size_bounds;
use crate::compact_size::lemma_decode_compact_size_take;
use crate::compact_size::spec_compact_size_len;
use crate::compact_size::spec_decode_compact_size;
use crate::compact_size::spec_encode_compact_size;
use crate::compact_size::CompactSize;
use crate::error::BitcoinError;
use crate::util::append_bytes;

verus! {

/// An opaque byte string, encoded with a variable-length count in front.
#[derive(Debug, PartialEq, Eq, Clone)]
pub struct Script {
    pub bytes: Vec<u8>,
}

impl View for Script {
    type V = Seq<u8>;

    open spec fn view(&self) -> Seq<u8> {
        self.bytes@
    }
}

/// The encoding of a script: the canonical variable-length form of the
/// payload's byte count, then the payload verbatim.
pub open spec fn spec_encode_script(payload: Seq<u8>) -> Seq<u8>
    recommends
        payload.len() <= u64::MAX,
{
    spec_encode_compact_size(payload.len() as u64) + payload
}

/// Decoding a script from a prefix of `s`: first the count, then that many
/// payload bytes; `None` when the count itself is cut short or claims more
/// payload than `s` holds.
pub open spec fn spec_decode_script(s: Seq<u8>) -> Option<(Seq<u8>, int)> {
    match spec_decode_compact_size(s) {
        None => None,
        Some((len, prefix)) => if s.len() < prefix + len {
            None
        } else {
            Some((s.subrange(prefix, prefix + len), prefix + len))
        },
    }
}

impl Script {
    /// Wraps a payload.
    pub fn new(bytes: Vec<u8>) -> (r: Self)
        ensures
            r@ == bytes@,
    {
        Script { bytes }
    }

    /// An immutable view of the payload bytes.
    pub fn payload(&self) -> (r: &Vec<u8>)
        ensures
            r@ == self@,
    {
        &self.bytes
    }

    /// Produces the encoding: count first, payload after.
    pub fn to_bytes(&self) -> (r: Vec<u8>)
        ensures
            r@ == spec_encode_script(self@),
    {
        let length = CompactSize::new(self.bytes.len() as u64);
        let mut r = length.to_bytes();
        append_bytes(&mut r, self.bytes.as_slice());
        r
    }

    /// Parses a script from the front of `bytes`, returning it and the number
    /// of bytes consumed. Fails with `InsufficientBytes` when the count is
    /// cut short or claims more payload than the buffer holds.
    pub fn from_bytes(bytes: &[u8]) -> (r: Result<(Self, usize), BitcoinError>)
        ensures
            match spec_decode_script(bytes@) {
                Some((p, n)) => (r matches Ok((s, consumed)) && s@ == p && consumed == n),
                None => r == Err::<(Self, usize), BitcoinError>(BitcoinError::InsufficientBytes),
            },
    {
        let (length, length_consumed) = match CompactSize::from_bytes(bytes) {
            Ok(p) => p,
            Err(e) => {
                return Err(e);
            },
        };
        proof {
            lemma_decode_compact_size_bounds(bytes@);
        }
        let remaining = bytes.len() - length_consumed;
        if length.value > remaining as u64 {
            return Err(BitcoinError::InsufficientBytes);
        }
        let script_length = length.value as usize;
        let payload = vstd::slice::slice_to_vec(
            vstd::slice::slice_subrange(bytes, length_consumed, length_consumed + script_length),
        );
        Ok((Script::new(payload), length_consumed + script_length))
    }
}

/// A successful script decode consumes at least one byte and never more than
/// the buffer holds.
pub proof fn lemma_decode_script_bounds(s: Seq<u8>)
    requires
        spec_decode_script(s) is Some,
    ensures
        0 < (spec_decode_script(s)->0).1 <= s.len(),
{
    lemma_decode_compact_size_bounds(s);
}

/// Decoding an encoded script, with any bytes at all after it, yields the
/// payload back and consumes exactly the encoding's length.
pub proof fn lemma_script_round_trip(payload: Seq<u8>, rest: Seq<u8>)
    requires
        payload.len() <= u64::MAX,
    ensures
        spec_decode_script(spec_encode_script(payload) + rest) == Some(
            (payload, spec_encode_script(payload).len() as int),
        ),
{
    let len64 = payload.len() as u64;
    let s = spec_encode_script(payload) + rest;
    lemma_compact_size_round_trip(len64, payload + rest);
    lemma_encode_compact_size_len(len64);
    assert(spec_encode_compact_size(len64) + (payload + rest) =~= s);
    let prefix = spec_compact_size_len(len64);
    assert(spec_decode_compact_size(s) == Some((len64, prefix)));
    assert(s.subrange(prefix, prefix + len64) =~= payload);
}

/// The exact round trip: decoding precisely the encoding of a payload yields
/// the payload back and consumes the whole buffer.
pub proof fn lemma_script_round_trip_exact(payload: Seq<u8>)
    requires
        payload.len() <= u64::MAX,
    ensures
        spec_decode_script(spec_encode_script(payload)) == Some(
            (payload, spec_encode_script(payload).len() as int),
        ),
{
    lemma_script_round_trip(payload, Seq::empty());
    assert(spec_encode_script(payload) + Seq::<u8>::empty() =~= spec_encode_script(payload));
}

/// The decode looks only at the bytes it consumes: truncating the buffer at
/// or past the consumed count leaves the result unchanged, and truncating
/// strictly inside it makes the decode fail.
pub proof fn lemma_decode_script_take(s: Seq<u8>, k: int)
    requires
        spec_decode_script(s) is Some,
        0 <= k <= s.len(),
    ensures
        k >= (spec_decode_script(s)->0).1 ==> spec_decode_script(s.take(k)) == spec_decode_script(
            s,
        ),
        k < (spec_decode_script(s)->0).1 ==> spec_decode_script(s.take(k)) is None,
{
    let (len, prefix) = spec_decode_compact_size(s)->0;
    lemma_decode_compact_size_bounds(s);
    lemma_decode_compact_size_take(s, k);
    if k >= prefix + len {
        assert(s.take(k).subrange(prefix, prefix + len) =~= s.subrange(prefix, prefix + len));
    } else if k >= prefix {
        assert(spec_decode_compact_size(s.take(k)) == Some((len, prefix)));
        assert(s.take(k).len() < prefix + len);
    }
}

} // verus!
