//! One spendable input of a transaction: the outpoint it spends, the script
//! that authorises the spend, and a sequence number.

use vstd::bytes::*;
use vstd::prelude::*;

use crate::error::BitcoinError;
use crate::outpoint::lemma_decode_outpoint_take;
use crate::outpoint::lemma_outpoint_round_trip;
use crate::outpoint::spec_decode_outpoint;
use crate::outpoint::spec_encode_outpoint;
use crate::outpoint::OutPoint;
use crate::outpoint::OutPointModel;
use crate::script::lemma_decode_script_bounds;
use crate::script::lemma_decode_script_take;
use crate::script::lemma_script_round_trip;
use crate::script::spec_decode_script;
use crate::script::spec_encode_script;
use crate::script::Script;
use crate::util::append_bytes;

verus! {

/// The mathematical shape of a transaction input.
pub struct InputModel {
    pub previous_output: OutPointModel,
    pub script_sig: Seq<u8>,
    pub sequence: u32,
}

impl InputModel {
    /// A well-formed input has a well-formed outpoint and a script whose
    /// length its count field can carry.
    pub open spec fn wf(self) -> bool {
        &&& self.previous_output.wf()
        &&& self.script_sig.len() <= u64::MAX
    }
}

/// One input of a transaction.
#[derive(Debug, PartialEq, Eq, Clone)]
pub struct TransactionInput {
    pub previous_output: OutPoint,
    pub script_sig: Script,
    pub sequence: u32,
}

impl View for TransactionInput {
    type V = InputModel;

    open spec fn view(&self) -> InputModel {
        InputModel {
            previous_output: self.previous_output@,
            script_sig: self.script_sig@,
            sequence: self.sequence,
        }
    }
}

/// The encoding of an input: the outpoint, the script, then the sequence
/// number in little-endian.
pub open spec fn spec_encode_input(i: InputModel) -> Seq<u8>
    recommends
        i.wf(),
{
    spec_encode_outpoint(i.previous_output) + spec_encode_script(i.script_sig)
        + spec_u32_to_le_bytes(i.sequence)
}

/// Decoding an input from a prefix of `s`: an outpoint, then a script, then
/// four sequence bytes, each at the offset the previous field left; `None`
/// as soon as one of them is cut short.
pub open spec fn spec_decode_input(s: Seq<u8>) -> Option<(InputModel, int)> {
    match spec_decode_outpoint(s) {
        None => None,
        Some((o, n1)) => match spec_decode_script(s.skip(n1)) {
            None => None,
            Some((p, n2)) => {
                let off = n1 + n2;
                if s.len() < off + 4 {
                    None
                } else {
                    Some(
                        (
                            InputModel {
                                previous_output: o,
                                script_sig: p,
                                sequence: spec_u32_from_le_bytes(s.subrange(off, off + 4)),
                            },
                            off + 4,
                        ),
                    )
                }
            },
        },
    }
}

impl TransactionInput {
    /// Assembles an input from its three fields.
    pub fn new(previous_output: OutPoint, script_sig: Script, sequence: u32) -> (r: Self)
        ensures
            r@ == (InputModel {
                previous_output: previous_output@,
                script_sig: script_sig@,
                sequence,
            }),
    {
        TransactionInput { previous_output, script_sig, sequence }
    }

    /// Produces the encoding: outpoint, script, sequence, in that order.
    pub fn to_bytes(&self) -> (r: Vec<u8>)
        ensures
            r@ == spec_encode_input(self@),
    {
        let mut r = self.previous_output.to_bytes();
        let mut script = self.script_sig.to_bytes();
        r.append(&mut script);
        let mut seq_bytes = u32_to_le_bytes(self.sequence);
        r.append(&mut seq_bytes);
        proof {
            assert(r@ =~= spec_encode_input(self@));
        }
        r
    }

    /// Parses an input from the front of `bytes`, returning it and the total
    /// number of bytes its three fields consumed. The first field that is cut
    /// short fails the whole parse with `InsufficientBytes`.
    pub fn from_bytes(bytes: &[u8]) -> (r: Result<(Self, usize), BitcoinError>)
        ensures
            match spec_decode_input(bytes@) {
                Some((i, n)) => (r matches Ok((inp, consumed)) && inp@ == i && consumed == n),
                None => r == Err::<(Self, usize), BitcoinError>(BitcoinError::InsufficientBytes),
            },
    {
        let (previous_output, outpoint_consumed) = match OutPoint::from_bytes(bytes) {
            Ok(p) => p,
            Err(e) => {
                return Err(e);
            },
        };
        let rest = vstd::slice::slice_subrange(bytes, outpoint_consumed, bytes.len());
        proof {
            assert(rest@ =~= bytes@.skip(36));
        }
        let (script_sig, script_consumed) = match Script::from_bytes(rest) {
            Ok(p) => p,
            Err(e) => {
                return Err(e);
            },
        };
        proof {
            lemma_decode_script_bounds(rest@);
        }
        let offset = outpoint_consumed + script_consumed;
        if bytes.len() - offset < 4 {
            return Err(BitcoinError::InsufficientBytes);
        }
        let sequence = u32_from_le_bytes(vstd::slice::slice_subrange(bytes, offset, offset + 4));
        Ok((TransactionInput::new(previous_output, script_sig, sequence), offset + 4))
    }
}

/// A successful input decode consumes at least one byte and never more than
/// the buffer holds.
pub proof fn lemma_decode_input_bounds(s: Seq<u8>)
    requires
        spec_decode_input(s) is Some,
    ensures
        0 < (spec_decode_input(s)->0).1 <= s.len(),
{
    lemma_decode_script_bounds(s.skip(36));
}

/// Decoding an encoded input, with any bytes at all after it, yields the
/// input back and consumes exactly the encoding's length.
pub proof fn lemma_input_round_trip(i: InputModel, rest: Seq<u8>)
    requires
        i.wf(),
    ensures
        spec_decode_input(spec_encode_input(i) + rest) == Some(
            (i, spec_encode_input(i).len() as int),
        ),
{
    lemma_auto_spec_u32_to_from_le_bytes();
    let s = spec_encode_input(i) + rest;
    let enc_script = spec_encode_script(i.script_sig);
    let tail1 = enc_script + (spec_u32_to_le_bytes(i.sequence) + rest);
    assert(s =~= spec_encode_outpoint(i.previous_output) + tail1);
    lemma_outpoint_round_trip(i.previous_output, tail1);
    assert(s.skip(36) =~= tail1);
    lemma_script_round_trip(i.script_sig, spec_u32_to_le_bytes(i.sequence) + rest);
    let off = 36 + enc_script.len() as int;
    assert(s.subrange(off, off + 4) =~= spec_u32_to_le_bytes(i.sequence));
}

/// The exact round trip: decoding precisely the encoding of `i` yields `i`
/// back and consumes the whole buffer.
pub proof fn lemma_input_round_trip_exact(i: InputModel)
    requires
        i.wf(),
    ensures
        spec_decode_input(spec_encode_input(i)) == Some((i, spec_encode_input(i).len() as int)),
{
    lemma_input_round_trip(i, Seq::empty());
    assert(spec_encode_input(i) + Seq::<u8>::empty() =~= spec_encode_input(i));
}

/// The decode looks only at the bytes it consumes: truncating the buffer at
/// or past the consumed count leaves the result unchanged, and truncating
/// strictly inside it makes the decode fail.
pub proof fn lemma_decode_input_take(s: Seq<u8>, k: int)
    requires
        spec_decode_input(s) is Some,
        0 <= k <= s.len(),
    ensures
        k >= (spec_decode_input(s)->0).1 ==> spec_decode_input(s.take(k)) == spec_decode_input(s),
        k < (spec_decode_input(s)->0).1 ==> spec_decode_input(s.take(k)) is None,
{
    lemma_decode_outpoint_take(s, k);
    if k >= 36 {
        let (p, n2) = spec_decode_script(s.skip(36))->0;
        lemma_decode_script_bounds(s.skip(36));
        assert(s.take(k).skip(36) =~= s.skip(36).take(k - 36));
        lemma_decode_script_take(s.skip(36), k - 36);
        let off = 36 + n2;
        if k >= off + 4 {
            assert(s.take(k).subrange(off, off + 4) =~= s.subrange(off, off + 4));
        }
    }
}

} // verus!
