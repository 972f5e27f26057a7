//! The variable-length unsigned integer ("CompactSize") codec.
//!
//! A value is encoded in the shortest of four fixed classes, selected by the
//! first byte: values up to 0xFC stand alone in one byte; the markers 0xFD,
//! 0xFE and 0xFF announce a little-endian u16, u32 or u64 payload. The
//! decoder accepts every well-formed class, minimal or not; only the encoder
//! promises minimality.

use vstd::bytes::*;
use vstd::prelude::*;

use crate::error::BitcoinError;

verus! {

/// A 64-bit count carried in the wire format's variable-length form.
#[derive(Debug, PartialEq, Eq, Clone)]
pub struct CompactSize {
    pub value: u64,
}

/// The number of bytes of the canonical (minimal) encoding of `v`.
pub open spec fn spec_compact_size_len(v: u64) -> int {
    if v <= 0xFC {
        1
    } else if v <= 0xFFFF {
        3
    } else if v <= 0xFFFFFFFF {
        5
    } else {
        9
    }
}

/// The canonical encoding of `v`: the shortest class that holds it.
pub open spec fn spec_encode_compact_size(v: u64) -> Seq<u8> {
    if v <= 0xFC {
        seq![v as u8]
    } else if v <= 0xFFFF {
        seq![0xFDu8] + spec_u16_to_le_bytes(v as u16)
    } else if v <= 0xFFFFFFFF {
        seq![0xFEu8] + spec_u32_to_le_bytes(v as u32)
    } else {
        seq![0xFFu8] + spec_u64_to_le_bytes(v)
    }
}

/// Decoding a prefix of `s` as a variable-length integer: the value and the
/// number of bytes consumed, or `None` when `s` ends before the class that
/// its first byte announces is complete. Every well-formed class is accepted,
/// whether or not it is the minimal one for its value.
pub open spec fn spec_decode_compact_size(s: Seq<u8>) -> Option<(u64, int)> {
    if s.len() < 1 {
        None
    } else if s[0] <= 0xFC {
        Some((s[0] as u64, 1))
    } else if s[0] == 0xFD {
        if s.len() < 3 {
            None
        } else {
            Some((spec_u16_from_le_bytes(s.subrange(1, 3)) as u64, 3))
        }
    } else if s[0] == 0xFE {
        if s.len() < 5 {
            None
        } else {
            Some((spec_u32_from_le_bytes(s.subrange(1, 5)) as u64, 5))
        }
    } else {
        if s.len() < 9 {
            None
        } else {
            Some((spec_u64_from_le_bytes(s.subrange(1, 9)), 9))
        }
    }
}

impl CompactSize {
    /// Wraps a raw count.
    pub fn new(value: u64) -> (r: Self)
        ensures
            r.value == value,
    {
        CompactSize { value }
    }

    /// Produces the canonical encoding of the wrapped value.
    pub fn to_bytes(&self) -> (r: Vec<u8>)
        ensures
            r@ == spec_encode_compact_size(self.value),
            r@.len() == spec_compact_size_len(self.value),
    {
        proof {
            lemma_auto_spec_u16_to_from_le_bytes();
            lemma_auto_spec_u32_to_from_le_bytes();
            lemma_auto_spec_u64_to_from_le_bytes();
        }
        let value = self.value;
        if value <= 0xFC {
            let r = vec![value as u8];
            assert(r@ =~= spec_encode_compact_size(self.value));
            r
        } else if value <= 0xFFFF {
            let mut r = vec![0xFDu8];
            let mut tail = u16_to_le_bytes(value as u16);
            r.append(&mut tail);
            assert(r@ =~= spec_encode_compact_size(self.value));
            r
        } else if value <= 0xFFFFFFFF {
            let mut r = vec![0xFEu8];
            let mut tail = u32_to_le_bytes(value as u32);
            r.append(&mut tail);
            assert(r@ =~= spec_encode_compact_size(self.value));
            r
        } else {
            let mut r = vec![0xFFu8];
            let mut tail = u64_to_le_bytes(value);
            r.append(&mut tail);
            assert(r@ =~= spec_encode_compact_size(self.value));
            r
        }
    }

    /// Parses a variable-length integer from the front of `bytes`, returning
    /// the value and the number of bytes consumed. Fails with
    /// `InsufficientBytes` exactly when the buffer ends before the announced
    /// class is complete; a non-minimal but well-formed class is accepted.
    pub fn from_bytes(bytes: &[u8]) -> (r: Result<(Self, usize), BitcoinError>)
        ensures
            match spec_decode_compact_size(bytes@) {
                Some((v, n)) => (r matches Ok((c, consumed)) && c.value == v && consumed == n),
                None => r == Err::<(Self, usize), BitcoinError>(BitcoinError::InsufficientBytes),
            },
    {
        if bytes.len() < 1 {
            return Err(BitcoinError::InsufficientBytes);
        }
        let first: u8 = bytes[0];
        if first <= 0xFC {
            Ok((CompactSize::new(first as u64), 1))
        } else if first == 0xFD {
            if bytes.len() < 3 {
                return Err(BitcoinError::InsufficientBytes);
            }
            let payload = vstd::slice::slice_subrange(bytes, 1, 3);
            let value = u16_from_le_bytes(payload) as u64;
            Ok((CompactSize::new(value), 3))
        } else if first == 0xFE {
            if bytes.len() < 5 {
                return Err(BitcoinError::InsufficientBytes);
            }
            let payload = vstd::slice::slice_subrange(bytes, 1, 5);
            let value = u32_from_le_bytes(payload) as u64;
            Ok((CompactSize::new(value), 5))
        } else {
            if bytes.len() < 9 {
                return Err(BitcoinError::InsufficientBytes);
            }
            let payload = vstd::slice::slice_subrange(bytes, 1, 9);
            let value = u64_from_le_bytes(payload);
            Ok((CompactSize::new(value), 9))
        }
    }
}

/// The canonical encoding is as long as its class says.
pub proof fn lemma_encode_compact_size_len(v: u64)
    ensures
        spec_encode_compact_size(v).len() == spec_compact_size_len(v),
{
    lemma_auto_spec_u16_to_from_le_bytes();
    lemma_auto_spec_u32_to_from_le_bytes();
    lemma_auto_spec_u64_to_from_le_bytes();
}

/// Decoding the canonical encoding of `v`, with any bytes at all after it,
/// yields `v` back and consumes exactly the encoding's length.
pub proof fn lemma_compact_size_round_trip(v: u64, rest: Seq<u8>)
    ensures
        spec_decode_compact_size(spec_encode_compact_size(v) + rest) == Some(
            (v, spec_compact_size_len(v)),
        ),
{
    lemma_auto_spec_u16_to_from_le_bytes();
    lemma_auto_spec_u32_to_from_le_bytes();
    lemma_auto_spec_u64_to_from_le_bytes();
    let s = spec_encode_compact_size(v) + rest;
    if v <= 0xFC {
        assert(s[0] == v as u8);
    } else if v <= 0xFFFF {
        assert(s.subrange(1, 3) =~= spec_u16_to_le_bytes(v as u16));
        assert(spec_u16_from_le_bytes(spec_u16_to_le_bytes(v as u16)) == v as u16);
    } else if v <= 0xFFFFFFFF {
        assert(s.subrange(1, 5) =~= spec_u32_to_le_bytes(v as u32));
        assert(spec_u32_from_le_bytes(spec_u32_to_le_bytes(v as u32)) == v as u32);
    } else {
        assert(s.subrange(1, 9) =~= spec_u64_to_le_bytes(v));
        assert(spec_u64_from_le_bytes(spec_u64_to_le_bytes(v)) == v);
    }
}

/// The exact round trip: decoding precisely the canonical encoding of `v`
/// yields `v` back and consumes the whole buffer.
pub proof fn lemma_compact_size_round_trip_exact(v: u64)
    ensures
        spec_decode_compact_size(spec_encode_compact_size(v)) == Some(
            (v, spec_encode_compact_size(v).len() as int),
        ),
{
    lemma_compact_size_round_trip(v, Seq::empty());
    lemma_encode_compact_size_len(v);
    assert(spec_encode_compact_size(v) + Seq::<u8>::empty() =~= spec_encode_compact_size(v));
}

/// Canonicality: every encoding that decodes to `v` is at least as long as
/// the canonical one, and an encoding of exactly the canonical length is the
/// canonical encoding itself — so the canonical form is the unique shortest.
pub proof fn lemma_compact_size_canonical(s: Seq<u8>, v: u64, n: int)
    requires
        spec_decode_compact_size(s) == Some((v, n)),
    ensures
        n >= spec_compact_size_len(v),
        n == spec_compact_size_len(v) ==> s.subrange(0, n) == spec_encode_compact_size(v),
{
    lemma_auto_spec_u16_to_from_le_bytes();
    lemma_auto_spec_u32_to_from_le_bytes();
    lemma_auto_spec_u64_to_from_le_bytes();
    if s[0] <= 0xFC {
        assert(s.subrange(0, 1) =~= spec_encode_compact_size(v));
    } else if s[0] == 0xFD {
        assert(v == spec_u16_from_le_bytes(s.subrange(1, 3)) as u64);
        assert(v <= 0xFFFF);
        if n == spec_compact_size_len(v) {
            assert(spec_u16_to_le_bytes(spec_u16_from_le_bytes(s.subrange(1, 3))) == s.subrange(
                1,
                3,
            ));
            assert(s.subrange(0, 3) =~= spec_encode_compact_size(v));
        }
    } else if s[0] == 0xFE {
        assert(v == spec_u32_from_le_bytes(s.subrange(1, 5)) as u64);
        assert(v <= 0xFFFFFFFF);
        if n == spec_compact_size_len(v) {
            assert(spec_u32_to_le_bytes(spec_u32_from_le_bytes(s.subrange(1, 5))) == s.subrange(
                1,
                5,
            ));
            assert(s.subrange(0, 5) =~= spec_encode_compact_size(v));
        }
    } else {
        if n == spec_compact_size_len(v) {
            assert(spec_u64_to_le_bytes(spec_u64_from_le_bytes(s.subrange(1, 9))) == s.subrange(
                1,
                9,
            ));
            assert(s.subrange(0, 9) =~= spec_encode_compact_size(v));
        }
    }
}

/// A successful decode consumes at least one byte and never more than the
/// buffer holds.
pub proof fn lemma_decode_compact_size_bounds(s: Seq<u8>)
    requires
        spec_decode_compact_size(s) is Some,
    ensures
        0 < (spec_decode_compact_size(s)->0).1 <= s.len(),
{
}

/// The decode looks only at the bytes it consumes: truncating the buffer
/// anywhere at or past the consumed count leaves the result unchanged, and
/// truncating strictly inside it makes the decode fail.
pub proof fn lemma_decode_compact_size_take(s: Seq<u8>, k: int)
    requires
        spec_decode_compact_size(s) is Some,
        0 <= k <= s.len(),
    ensures
        k >= (spec_decode_compact_size(s)->0).1 ==> spec_decode_compact_size(s.take(k))
            == spec_decode_compact_size(s),
        k < (spec_decode_compact_size(s)->0).1 ==> spec_decode_compact_size(s.take(k)) is None,
{
    let n = (spec_decode_compact_size(s)->0).1;
    if k >= n {
        if s[0] <= 0xFC {
        } else if s[0] == 0xFD {
            assert(s.take(k).subrange(1, 3) =~= s.subrange(1, 3));
        } else if s[0] == 0xFE {
            assert(s.take(k).subrange(1, 5) =~= s.subrange(1, 5));
        } else {
            assert(s.take(k).subrange(1, 9) =~= s.subrange(1, 9));
        }
    }
}

} // verus!
