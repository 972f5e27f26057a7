//! The transaction codec: a version, a counted sequence of inputs, and a
//! lock time.
//!
//! This is the entry point of the format and the component that exercises
//! cumulative offset bookkeeping: every input is variable-length, so each
//! field is read at the offset the previous fields left, and the decoder
//! reports the total it consumed. Bytes after a complete transaction are
//! tolerated — the caller learns how much was consumed and decides.

use vstd::bytes::*;
use vstd::prelude::*;

use crate::compact_size::lemma_compact_size_round_trip;
use crate::compact_size::lemma_decode_compact_size_bounds;
use crate::compact_size::lemma_decode_compact_size_take;
use crate::compact_size::lemma_encode_compact_size_len;
use crate::compact_size::spec_decode_compact_size;
use crate::compact_size::spec_encode_compact_size;
use crate::compact_size::CompactSize;
use crate::error::BitcoinError;
use crate::input::lemma_decode_input_bounds;
use crate::input::lemma_decode_input_take;
use crate::input::lemma_input_round_trip;
use crate::input::spec_decode_input;
use crate::input::spec_encode_input;
use crate::input::InputModel;
use crate::input::TransactionInput;

verus! {

/// The mathematical shape of a transaction.
pub struct TxModel {
    pub version: u32,
    pub inputs: Seq<InputModel>,
    pub lock_time: u32,
}

impl TxModel {
    /// A well-formed transaction has well-formed inputs, few enough for the
    /// count field to carry.
    pub open spec fn wf(self) -> bool {
        &&& forall|j: int| 0 <= j < self.inputs.len() ==> (#[trigger] self.inputs[j]).wf()
        &&& self.inputs.len() <= u64::MAX
    }
}

/// A transaction: version, inputs in order (duplicates allowed), lock time.
#[derive(Debug, PartialEq, Eq, Clone)]
pub struct BitcoinTransaction {
    pub version: u32,
    pub inputs: Vec<TransactionInput>,
    pub lock_time: u32,
}

/// The models of a sequence of inputs, in order.
pub open spec fn spec_inputs_view(v: Seq<TransactionInput>) -> Seq<InputModel> {
    v.map_values(|i: TransactionInput| i@)
}

impl View for BitcoinTransaction {
    type V = TxModel;

    open spec fn view(&self) -> TxModel {
        TxModel {
            version: self.version,
            inputs: spec_inputs_view(self.inputs@),
            lock_time: self.lock_time,
        }
    }
}

/// The concatenation of the encodings of `inputs`, in order.
pub open spec fn spec_encode_inputs(inputs: Seq<InputModel>) -> Seq<u8>
    decreases inputs.len(),
{
    if inputs.len() == 0 {
        Seq::empty()
    } else {
        spec_encode_input(inputs[0]) + spec_encode_inputs(inputs.skip(1))
    }
}

/// The encoding of a transaction: version, input count, each input in order,
/// lock time.
pub open spec fn spec_encode_tx(t: TxModel) -> Seq<u8>
    recommends
        t.wf(),
{
    spec_u32_to_le_bytes(t.version) + spec_encode_compact_size(t.inputs.len() as u64)
        + spec_encode_inputs(t.inputs) + spec_u32_to_le_bytes(t.lock_time)
}

/// Decoding exactly `count` inputs from the front of `s`: the inputs in order
/// and the total bytes they consumed, or `None` as soon as one is cut short.
pub open spec fn spec_decode_inputs(s: Seq<u8>, count: nat) -> Option<(Seq<InputModel>, int)>
    decreases count,
{
    if count == 0 {
        Some((Seq::empty(), 0int))
    } else {
        match spec_decode_input(s) {
            None => None,
            Some((i, n)) => match spec_decode_inputs(s.skip(n), (count - 1) as nat) {
                None => None,
                Some((rest, m)) => Some((seq![i] + rest, n + m)),
            },
        }
    }
}

/// Decoding a transaction from a prefix of `s`: four version bytes, the input
/// count, that many inputs, four lock-time bytes; `None` as soon as any field
/// is cut short. Bytes beyond the consumed count are ignored.
pub open spec fn spec_decode_tx(s: Seq<u8>) -> Option<(TxModel, int)> {
    if s.len() < 4 {
        None
    } else {
        match spec_decode_compact_size(s.skip(4)) {
            None => None,
            Some((count, nc)) => match spec_decode_inputs(s.skip(4 + nc), count as nat) {
                None => None,
                Some((ins, ni)) => {
                    let off = 4 + nc + ni;
                    if s.len() < off + 4 {
                        None
                    } else {
                        Some(
                            (
                                TxModel {
                                    version: spec_u32_from_le_bytes(s.subrange(0, 4)),
                                    inputs: ins,
                                    lock_time: spec_u32_from_le_bytes(s.subrange(off, off + 4)),
                                },
                                off + 4,
                            ),
                        )
                    }
                },
            },
        }
    }
}

impl BitcoinTransaction {
    /// Assembles a transaction from its three fields.
    pub fn new(version: u32, inputs: Vec<TransactionInput>, lock_time: u32) -> (r: Self)
        ensures
            r@ == (TxModel { version, inputs: spec_inputs_view(inputs@), lock_time }),
    {
        BitcoinTransaction { version, inputs, lock_time }
    }

    /// Produces the encoding: version, canonical input count, each input in
    /// order, lock time.
    pub fn to_bytes(&self) -> (r: Vec<u8>)
        ensures
            r@ == spec_encode_tx(self@),
    {
        let mut r = u32_to_le_bytes(self.version);
        let mut count = CompactSize::new(self.inputs.len() as u64).to_bytes();
        r.append(&mut count);
        let ghost head = r@;
        let mut idx: usize = 0;
        while idx < self.inputs.len()
            invariant
                idx <= self.inputs@.len(),
                r@ == head + spec_encode_inputs(spec_inputs_view(self.inputs@).take(idx as int)),
            decreases self.inputs@.len() - idx,
        {
            let mut one = self.inputs[idx].to_bytes();
            r.append(&mut one);
            proof {
                let m = spec_inputs_view(self.inputs@);
                assert(m.take(idx + 1) =~= m.take(idx as int).push(m[idx as int]));
                lemma_encode_inputs_push(m.take(idx as int), m[idx as int]);
            }
            idx = idx + 1;
        }
        let mut tail = u32_to_le_bytes(self.lock_time);
        r.append(&mut tail);
        proof {
            let m = spec_inputs_view(self.inputs@);
            assert(m.take(self.inputs@.len() as int) =~= m);
            assert(r@ =~= spec_encode_tx(self@));
        }
        r
    }

    /// Parses a transaction from the front of `bytes`, returning it and the
    /// total number of bytes consumed — possibly fewer than the buffer holds:
    /// trailing bytes are tolerated and left for the caller to judge. The
    /// first field that is cut short, at any nesting level, fails the whole
    /// parse with `InsufficientBytes`.
    pub fn from_bytes(bytes: &[u8]) -> (r: Result<(Self, usize), BitcoinError>)
        ensures
            match spec_decode_tx(bytes@) {
                Some((t, n)) => (r matches Ok((tx, consumed)) && tx@ == t && consumed == n),
                None => r == Err::<(Self, usize), BitcoinError>(BitcoinError::InsufficientBytes),
            },
    {
        if bytes.len() < 4 {
            return Err(BitcoinError::InsufficientBytes);
        }
        let version = u32_from_le_bytes(vstd::slice::slice_subrange(bytes, 0, 4));
        let after_version = vstd::slice::slice_subrange(bytes, 4, bytes.len());
        proof {
            assert(after_version@ =~= bytes@.skip(4));
        }
        let (count_cs, count_consumed) = match CompactSize::from_bytes(after_version) {
            Ok(p) => p,
            Err(e) => {
                return Err(e);
            },
        };
        proof {
            lemma_decode_compact_size_bounds(bytes@.skip(4));
        }
        let count = count_cs.value;
        let ghost inputs_start = 4 + count_consumed as int;
        let mut offset: usize = 4 + count_consumed;
        let mut inputs: Vec<TransactionInput> = Vec::new();
        let mut idx: u64 = 0;
        while idx < count
            invariant
                bytes@.len() >= 4,
                idx <= count,
                inputs@.len() == idx,
                inputs_start <= offset <= bytes@.len(),
                spec_decode_compact_size(bytes@.skip(4)) == Some((count, inputs_start - 4)),
                match spec_decode_inputs(bytes@.skip(offset as int), (count - idx) as nat) {
                    Some((rest, m)) => spec_decode_inputs(bytes@.skip(inputs_start), count as nat)
                        == Some((spec_inputs_view(inputs@) + rest, offset - inputs_start + m)),
                    None => spec_decode_inputs(bytes@.skip(inputs_start), count as nat) is None,
                },
            decreases count - idx,
        {
            let sub = vstd::slice::slice_subrange(bytes, offset, bytes.len());
            proof {
                assert(sub@ =~= bytes@.skip(offset as int));
            }
            let (input, consumed) = match TransactionInput::from_bytes(sub) {
                Ok(p) => p,
                Err(e) => {
                    return Err(e);
                },
            };
            proof {
                lemma_decode_input_bounds(sub@);
            }
            let ghost prev_inputs = inputs@;
            let ghost prev_offset = offset as int;
            inputs.push(input);
            offset = offset + consumed;
            idx = idx + 1;
            proof {
                assert(bytes@.skip(prev_offset).skip(consumed as int) =~= bytes@.skip(
                    offset as int,
                ));
                assert(spec_inputs_view(inputs@) =~= spec_inputs_view(prev_inputs).push(input@));
                let inner = spec_decode_inputs(bytes@.skip(offset as int), (count - idx) as nat);
                if inner is Some {
                    let rest = (inner->0).0;
                    assert(spec_inputs_view(prev_inputs) + (seq![input@] + rest) =~= spec_inputs_view(
                        inputs@,
                    ) + rest);
                }
            }
        }
        if bytes.len() - offset < 4 {
            return Err(BitcoinError::InsufficientBytes);
        }
        let lock_time = u32_from_le_bytes(vstd::slice::slice_subrange(bytes, offset, offset + 4));
        proof {
            assert(spec_inputs_view(inputs@) + Seq::<InputModel>::empty() =~= spec_inputs_view(
                inputs@,
            ));
            assert(bytes@.subrange(offset as int, offset + 4) =~= bytes@.skip(offset as int,
            ).subrange(0, 4));
        }
        Ok((BitcoinTransaction::new(version, inputs, lock_time), offset + 4))
    }
}

/// Encoding one more input appends its encoding at the end.
pub proof fn lemma_encode_inputs_push(inputs: Seq<InputModel>, i: InputModel)
    ensures
        spec_encode_inputs(inputs.push(i)) == spec_encode_inputs(inputs) + spec_encode_input(i),
    decreases inputs.len(),
{
    reveal_with_fuel(spec_encode_inputs, 3);
    let p = inputs.push(i);
    if inputs.len() == 0 {
        assert(p.skip(1) =~= Seq::<InputModel>::empty());
        assert(p[0] == i);
        assert(spec_encode_inputs(p) =~= spec_encode_inputs(inputs) + spec_encode_input(i));
    } else {
        assert(p[0] == inputs[0]);
        assert(p.skip(1) =~= inputs.skip(1).push(i));
        lemma_encode_inputs_push(inputs.skip(1), i);
        assert(spec_encode_inputs(p) == spec_encode_input(inputs[0]) + (spec_encode_inputs(
            inputs.skip(1),
        ) + spec_encode_input(i)));
        assert(spec_encode_input(inputs[0]) + (spec_encode_inputs(inputs.skip(1))
            + spec_encode_input(i)) =~= spec_encode_inputs(inputs) + spec_encode_input(i));
    }
}

/// A successful decode of `count` inputs consumes no more bytes than the
/// buffer holds.
pub proof fn lemma_decode_inputs_bounds(s: Seq<u8>, count: nat)
    requires
        spec_decode_inputs(s, count) is Some,
    ensures
        0 <= (spec_decode_inputs(s, count)->0).1 <= s.len(),
    decreases count,
{
    if count != 0 {
        let (i, n) = spec_decode_input(s)->0;
        lemma_decode_input_bounds(s);
        lemma_decode_inputs_bounds(s.skip(n), (count - 1) as nat);
    }
}

/// Decoding the concatenated encodings of `inputs`, with any bytes at all
/// after them, yields the inputs back and consumes exactly their total
/// encoded length.
pub proof fn lemma_inputs_round_trip(inputs: Seq<InputModel>, rest: Seq<u8>)
    requires
        forall|j: int| 0 <= j < inputs.len() ==> (#[trigger] inputs[j]).wf(),
    ensures
        spec_decode_inputs(spec_encode_inputs(inputs) + rest, inputs.len()) == Some(
            (inputs, spec_encode_inputs(inputs).len() as int),
        ),
    decreases inputs.len(),
{
    if inputs.len() == 0 {
        assert(spec_encode_inputs(inputs) + rest =~= rest);
        assert(inputs =~= Seq::<InputModel>::empty());
    } else {
        let s = spec_encode_inputs(inputs) + rest;
        let e0 = spec_encode_input(inputs[0]);
        let erest = spec_encode_inputs(inputs.skip(1));
        let tail = erest + rest;
        assert(s =~= e0 + tail);
        lemma_input_round_trip(inputs[0], tail);
        let n0 = e0.len() as int;
        assert(spec_decode_input(s) == Some((inputs[0], n0)));
        assert(s.skip(n0) =~= tail);
        assert forall|j: int| 0 <= j < inputs.skip(1).len() implies (#[trigger] inputs.skip(
            1,
        )[j]).wf() by {
            assert(inputs.skip(1)[j] == inputs[j + 1]);
        }
        lemma_inputs_round_trip(inputs.skip(1), rest);
        assert(spec_decode_inputs(tail, inputs.skip(1).len()) == Some(
            (inputs.skip(1), erest.len() as int),
        ));
        assert(seq![inputs[0]] + inputs.skip(1) =~= inputs);
        assert(spec_decode_inputs(s, inputs.len()) == Some((inputs, n0 + erest.len())));
        assert(spec_encode_inputs(inputs).len() == n0 + erest.len());
    }
}

/// Decoding an encoded transaction, with any bytes at all after it, yields
/// the transaction back and consumes exactly the encoding's length — the
/// round trip, stated over arbitrary trailing bytes.
pub proof fn lemma_tx_round_trip(t: TxModel, rest: Seq<u8>)
    requires
        t.wf(),
    ensures
        spec_decode_tx(spec_encode_tx(t) + rest) == Some((t, spec_encode_tx(t).len() as int)),
{
    lemma_auto_spec_u32_to_from_le_bytes();
    let s = spec_encode_tx(t) + rest;
    let count64 = t.inputs.len() as u64;
    let enc_cs = spec_encode_compact_size(count64);
    let enc_ins = spec_encode_inputs(t.inputs);
    let enc_lt = spec_u32_to_le_bytes(t.lock_time);
    lemma_encode_compact_size_len(count64);
    assert(s.subrange(0, 4) =~= spec_u32_to_le_bytes(t.version));
    assert(s.skip(4) =~= enc_cs + (enc_ins + (enc_lt + rest)));
    lemma_compact_size_round_trip(count64, enc_ins + (enc_lt + rest));
    let nc = enc_cs.len() as int;
    assert(s.skip(4 + nc) =~= enc_ins + (enc_lt + rest));
    lemma_inputs_round_trip(t.inputs, enc_lt + rest);
    let ni = enc_ins.len() as int;
    let off = 4 + nc + ni;
    assert(s.subrange(off, off + 4) =~= enc_lt);
}

/// The exact round trip: decoding precisely the encoding of `t` yields `t`
/// back and consumes the whole buffer.
pub proof fn lemma_tx_round_trip_exact(t: TxModel)
    requires
        t.wf(),
    ensures
        spec_decode_tx(spec_encode_tx(t)) == Some((t, spec_encode_tx(t).len() as int)),
{
    lemma_tx_round_trip(t, Seq::empty());
    assert(spec_encode_tx(t) + Seq::<u8>::empty() =~= spec_encode_tx(t));
}

/// The decode looks only at the bytes it consumes: truncating the buffer at
/// or past the consumed count leaves the result unchanged, and truncating
/// strictly inside it makes the decode fail — truncation is detected at
/// every nesting level.
pub proof fn lemma_decode_inputs_take(s: Seq<u8>, count: nat, k: int)
    requires
        spec_decode_inputs(s, count) is Some,
        0 <= k <= s.len(),
    ensures
        k >= (spec_decode_inputs(s, count)->0).1 ==> spec_decode_inputs(s.take(k), count)
            == spec_decode_inputs(s, count),
        k < (spec_decode_inputs(s, count)->0).1 ==> spec_decode_inputs(s.take(k), count) is None,
    decreases count,
{
    reveal_with_fuel(spec_decode_inputs, 2);
    if count == 0 {
        assert(spec_decode_inputs(s, count) == Some((Seq::<InputModel>::empty(), 0int)));
        assert(spec_decode_inputs(s.take(k), count) == Some((Seq::<InputModel>::empty(), 0int)));
    } else {
        let n = (spec_decode_inputs(s, count)->0).1;
        let (i, n0) = spec_decode_input(s)->0;
        let inner = spec_decode_inputs(s.skip(n0), (count - 1) as nat);
        let m = (inner->0).1;
        lemma_decode_input_bounds(s);
        lemma_decode_inputs_bounds(s.skip(n0), (count - 1) as nat);
        lemma_decode_input_take(s, k);
        if k < n0 {
            assert(spec_decode_input(s.take(k)) is None);
            assert(spec_decode_inputs(s.take(k), count) is None);
        } else {
            assert(spec_decode_input(s.take(k)) == Some((i, n0)));
            assert(s.take(k).skip(n0) =~= s.skip(n0).take(k - n0));
            lemma_decode_inputs_take(s.skip(n0), (count - 1) as nat, k - n0);
            if k < n {
                assert(k - n0 < m);
                assert(spec_decode_inputs(s.take(k).skip(n0), (count - 1) as nat) is None);
            } else {
                assert(spec_decode_inputs(s.take(k).skip(n0), (count - 1) as nat) == inner);
                assert(spec_decode_inputs(s.take(k), count) == spec_decode_inputs(s, count));
            }
        }
    }
}

/// The transaction decode looks only at the bytes it consumes: truncating at
/// or past the consumed count leaves the result unchanged, and truncating
/// strictly inside it makes the decode fail.
pub proof fn lemma_decode_tx_take(s: Seq<u8>, k: int)
    requires
        spec_decode_tx(s) is Some,
        0 <= k <= s.len(),
    ensures
        k >= (spec_decode_tx(s)->0).1 ==> spec_decode_tx(s.take(k)) == spec_decode_tx(s),
        k < (spec_decode_tx(s)->0).1 ==> spec_decode_tx(s.take(k)) is None,
{
    let n = (spec_decode_tx(s)->0).1;
    let (count, nc) = spec_decode_compact_size(s.skip(4))->0;
    lemma_decode_compact_size_bounds(s.skip(4));
    lemma_decode_inputs_bounds(s.skip(4 + nc), count as nat);
    if k < 4 {
        assert(s.take(k).len() < 4);
        assert(k < n);
    } else {
        assert(s.take(k).subrange(0, 4) =~= s.subrange(0, 4));
        assert(s.take(k).skip(4) =~= s.skip(4).take(k - 4));
        lemma_decode_compact_size_take(s.skip(4), k - 4);
        if k - 4 < nc {
            assert(spec_decode_compact_size(s.take(k).skip(4)) is None);
        } else {
            assert(spec_decode_compact_size(s.take(k).skip(4)) == Some((count, nc)));
            let full = spec_decode_inputs(s.skip(4 + nc), count as nat);
            let ni = (full->0).1;
            lemma_decode_inputs_bounds(s.skip(4 + nc), count as nat);
            assert(s.take(k).skip(4 + nc) =~= s.skip(4 + nc).take(k - 4 - nc));
            lemma_decode_inputs_take(s.skip(4 + nc), count as nat, k - 4 - nc);
            let off = 4 + nc + ni;
            if k < off {
                assert(spec_decode_inputs(s.take(k).skip(4 + nc), count as nat) is None);
            } else {
                assert(spec_decode_inputs(s.take(k).skip(4 + nc), count as nat) == full);
                if k < off + 4 {
                    assert(s.take(k).len() < off + 4);
                } else {
                    assert(s.take(k).subrange(off, off + 4) =~= s.subrange(off, off + 4));
                    assert(spec_decode_tx(s.take(k)) == spec_decode_tx(s));
                }
            }
        }
    }
}

} // verus!
