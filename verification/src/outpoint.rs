//! The fixed 36-byte reference to an output of a prior transaction.

use vstd::bytes::*;
use vstd::prelude::*;

use crate::error::BitcoinError;
use crate::txid::Txid;
use crate::util::append_bytes;
use crate::util::read_fixed32;

verus! {

/// The mathematical shape of an outpoint: the identifier's bytes and the
/// output index.
pub struct OutPointModel {
    pub txid: Seq<u8>,
    pub vout: u32,
}

impl OutPointModel {
    /// A well-formed outpoint carries exactly 32 identifier bytes.
    pub open spec fn wf(self) -> bool {
        self.txid.len() == 32
    }
}

/// A reference to one output of a prior transaction.
#[derive(Debug, PartialEq, Eq, Clone)]
pub struct OutPoint {
    pub txid: Txid,
    pub vout: u32,
}

impl View for OutPoint {
    type V = OutPointModel;

    open spec fn view(&self) -> OutPointModel {
        OutPointModel { txid: self.txid@, vout: self.vout }
    }
}

/// The encoding of an outpoint: the 32 identifier bytes, then the output
/// index in little-endian — 36 bytes in all.
pub open spec fn spec_encode_outpoint(o: OutPointModel) -> Seq<u8>
    recommends
        o.wf(),
{
    o.txid + spec_u32_to_le_bytes(o.vout)
}

/// Decoding an outpoint from a prefix of `s`: the first 36 bytes, or `None`
/// when fewer are there.
pub open spec fn spec_decode_outpoint(s: Seq<u8>) -> Option<(OutPointModel, int)> {
    if s.len() < 36 {
        None
    } else {
        Some(
            (
                OutPointModel {
                    txid: s.subrange(0, 32),
                    vout: spec_u32_from_le_bytes(s.subrange(32, 36)),
                },
                36,
            ),
        )
    }
}

impl OutPoint {
    /// Builds an outpoint from raw identifier bytes and an output index.
    pub fn new(txid: [u8; 32], vout: u32) -> (r: Self)
        ensures
            r@ == (OutPointModel { txid: txid@, vout }),
    {
        OutPoint { txid: Txid(txid), vout }
    }

    /// Produces the fixed 36-byte encoding.
    pub fn to_bytes(&self) -> (r: Vec<u8>)
        ensures
            r@ == spec_encode_outpoint(self@),
            r@.len() == 36,
    {
        proof {
            lemma_auto_spec_u32_to_from_le_bytes();
        }
        let mut r: Vec<u8> = Vec::new();
        append_bytes(&mut r, self.txid.0.as_slice());
        let mut tail = u32_to_le_bytes(self.vout);
        r.append(&mut tail);
        proof {
            assert(r@ =~= spec_encode_outpoint(self@));
        }
        r
    }

    /// Parses an outpoint from the front of `bytes`, consuming exactly 36
    /// bytes; fails with `InsufficientBytes` when fewer are there.
    pub fn from_bytes(bytes: &[u8]) -> (r: Result<(Self, usize), BitcoinError>)
        ensures
            match spec_decode_outpoint(bytes@) {
                Some((o, n)) => (r matches Ok((op, consumed)) && op@ == o && consumed == n),
                None => r == Err::<(Self, usize), BitcoinError>(BitcoinError::InsufficientBytes),
            },
    {
        if bytes.len() < 36 {
            return Err(BitcoinError::InsufficientBytes);
        }
        let raw = read_fixed32(bytes);
        let vout = u32_from_le_bytes(vstd::slice::slice_subrange(bytes, 32, 36));
        Ok((OutPoint { txid: Txid(raw), vout }, 36))
    }
}

/// Decoding an encoded outpoint, with any bytes at all after it, yields the
/// outpoint back and consumes exactly its 36 bytes.
pub proof fn lemma_outpoint_round_trip(o: OutPointModel, rest: Seq<u8>)
    requires
        o.wf(),
    ensures
        spec_decode_outpoint(spec_encode_outpoint(o) + rest) == Some((o, 36int)),
{
    lemma_auto_spec_u32_to_from_le_bytes();
    let s = spec_encode_outpoint(o) + rest;
    assert(s.subrange(0, 32) =~= o.txid);
    assert(s.subrange(32, 36) =~= spec_u32_to_le_bytes(o.vout));
}

/// The exact round trip: decoding precisely the encoding of `o` yields `o`
/// back and consumes the whole buffer.
pub proof fn lemma_outpoint_round_trip_exact(o: OutPointModel)
    requires
        o.wf(),
    ensures
        spec_decode_outpoint(spec_encode_outpoint(o)) == Some(
            (o, spec_encode_outpoint(o).len() as int),
        ),
{
    lemma_auto_spec_u32_to_from_le_bytes();
    lemma_outpoint_round_trip(o, Seq::empty());
    assert(spec_encode_outpoint(o) + Seq::<u8>::empty() =~= spec_encode_outpoint(o));
}

/// The decode looks only at its 36 bytes: truncating at or past them leaves
/// the result unchanged, and truncating inside them makes the decode fail.
pub proof fn lemma_decode_outpoint_take(s: Seq<u8>, k: int)
    requires
        spec_decode_outpoint(s) is Some,
        0 <= k <= s.len(),
    ensures
        k >= 36 ==> spec_decode_outpoint(s.take(k)) == spec_decode_outpoint(s),
        k < 36 ==> spec_decode_outpoint(s.take(k)) is None,
{
    if k >= 36 {
        assert(s.take(k).subrange(0, 32) =~= s.subrange(0, 32));
        assert(s.take(k).subrange(32, 36) =~= s.subrange(32, 36));
    }
}

} // verus!
