//! The 32-byte transaction identifier and its hexadecimal text form.
//!
//! In the binary wire format the identifier travels as its 32 raw bytes,
//! untouched; the hexadecimal form exists only for text interchange and
//! display. The text constructor is the one place the codec reports
//! `InvalidFormat`: it refuses any string that is not exactly 64 hexadecimal
//! digits.

use vstd::prelude::*;

use crate::error::BitcoinError;
use crate::util::read_fixed32;

verus! {

/// A 32-byte identifier of a prior transaction.
#[derive(Debug, PartialEq, Eq, Clone)]
pub struct Txid(pub [u8; 32]);

impl View for Txid {
    type V = Seq<u8>;

    open spec fn view(&self) -> Seq<u8> {
        self.0@
    }
}

/// The lowercase hexadecimal digit for a value below sixteen.
pub open spec fn spec_hex_digit(n: u8) -> char
    recommends
        n < 16,
{
    if n == 0 {
        '0'
    } else if n == 1 {
        '1'
    } else if n == 2 {
        '2'
    } else if n == 3 {
        '3'
    } else if n == 4 {
        '4'
    } else if n == 5 {
        '5'
    } else if n == 6 {
        '6'
    } else if n == 7 {
        '7'
    } else if n == 8 {
        '8'
    } else if n == 9 {
        '9'
    } else if n == 10 {
        'a'
    } else if n == 11 {
        'b'
    } else if n == 12 {
        'c'
    } else if n == 13 {
        'd'
    } else if n == 14 {
        'e'
    } else {
        'f'
    }
}

/// The numeric value of a hexadecimal digit, upper or lower case; sixteen for
/// any other character.
pub open spec fn spec_hex_value(c: char) -> u8 {
    match c {
        '0' => 0,
        '1' => 1,
        '2' => 2,
        '3' => 3,
        '4' => 4,
        '5' => 5,
        '6' => 6,
        '7' => 7,
        '8' => 8,
        '9' => 9,
        'a' => 10,
        'b' => 11,
        'c' => 12,
        'd' => 13,
        'e' => 14,
        'f' => 15,
        'A' => 10,
        'B' => 11,
        'C' => 12,
        'D' => 13,
        'E' => 14,
        'F' => 15,
        _ => 16,
    }
}

/// Whether `c` is a hexadecimal digit, in either case.
pub open spec fn spec_is_hex_digit(c: char) -> bool {
    spec_hex_value(c) < 16
}

/// The lowercase hexadecimal text of a byte sequence: two digits per byte,
/// high digit first, bytes in order.
pub open spec fn spec_hex_of(b: Seq<u8>) -> Seq<char>
    decreases b.len(),
{
    if b.len() == 0 {
        Seq::empty()
    } else {
        seq![
            spec_hex_digit((b[0] / 16) as u8),
            spec_hex_digit((b[0] % 16) as u8),
        ] + spec_hex_of(b.skip(1))
    }
}

/// The bytes named by a hexadecimal text: each pair of digits, high digit
/// first, gives one byte.
pub open spec fn spec_bytes_of_hex(s: Seq<char>) -> Seq<u8>
    recommends
        s.len() % 2 == 0,
    decreases s.len(),
{
    if s.len() < 2 {
        Seq::empty()
    } else {
        seq![(spec_hex_value(s[0]) * 16 + spec_hex_value(s[1])) as u8] + spec_bytes_of_hex(
            s.skip(2),
        )
    }
}

/// Relies on `hex::encode`: the result is the lowercase hexadecimal text of
/// the input bytes, two digits per byte, in order.
#[verifier::external_body]
fn hex_encode(bytes: &[u8]) -> (r: String)
    ensures
        r@ == spec_hex_of(bytes@),
{
    hex::encode(bytes)
}

/// The error type of the `hex` crate's decoder.
#[verifier::external_type_specification]
#[verifier::external_body]
pub struct ExFromHexError(hex::FromHexError);

/// Relies on `hex::decode`: it succeeds exactly on even-length strings of
/// hexadecimal digits (either case), and then returns the bytes those digit
/// pairs name.
#[verifier::external_body]
fn hex_decode(s: &str) -> (r: Result<Vec<u8>, hex::FromHexError>)
    ensures
        r is Ok <==> (s@.len() % 2 == 0 && forall|i: int|
            0 <= i < s@.len() ==> spec_is_hex_digit(#[trigger] s@[i])),
        r matches Ok(v) ==> v@ == spec_bytes_of_hex(s@),
{
    hex::decode(s)
}

/// A hexadecimal text of even length names half as many bytes as it has
/// digits.
pub proof fn lemma_bytes_of_hex_len(s: Seq<char>)
    requires
        s.len() % 2 == 0,
    ensures
        spec_bytes_of_hex(s).len() == s.len() / 2,
    decreases s.len(),
{
    if s.len() >= 2 {
        lemma_bytes_of_hex_len(s.skip(2));
    }
}

/// The hexadecimal text of a byte sequence has two digits per byte.
pub proof fn lemma_hex_of_len(b: Seq<u8>)
    ensures
        spec_hex_of(b).len() == 2 * b.len(),
    decreases b.len(),
{
    if b.len() > 0 {
        lemma_hex_of_len(b.skip(1));
    }
}

/// Every character of the hexadecimal text is a hexadecimal digit.
pub proof fn lemma_hex_of_digits(b: Seq<u8>)
    ensures
        forall|i: int|
            0 <= i < spec_hex_of(b).len() ==> spec_is_hex_digit(#[trigger] spec_hex_of(b)[i]),
    decreases b.len(),
{
    if b.len() > 0 {
        lemma_hex_of_digits(b.skip(1));
        assert forall|i: int|
            0 <= i < spec_hex_of(b).len() implies spec_is_hex_digit(
            #[trigger] spec_hex_of(b)[i],
        ) by {
            if i >= 2 {
                assert(spec_hex_of(b)[i] == spec_hex_of(b.skip(1))[i - 2]);
            }
        }
    }
}

/// The text round trip: the bytes that the hexadecimal text of `b` names are
/// `b` itself.
pub proof fn lemma_hex_text_round_trip(b: Seq<u8>)
    ensures
        spec_bytes_of_hex(spec_hex_of(b)) == b,
    decreases b.len(),
{
    if b.len() == 0 {
        assert(spec_bytes_of_hex(spec_hex_of(b)) =~= b);
    } else {
        let h = spec_hex_of(b);
        lemma_hex_of_len(b.skip(1));
        assert(h.skip(2) =~= spec_hex_of(b.skip(1)));
        lemma_hex_text_round_trip(b.skip(1));
        assert(spec_hex_value(h[0]) == b[0] / 16);
        assert(spec_hex_value(h[1]) == b[0] % 16);
        assert(spec_bytes_of_hex(h) =~= b);
    }
}

/// Writing an identifier as text and reading the text back yields the
/// identifier: its text is 64 hexadecimal digits and names its bytes.
pub proof fn lemma_txid_text_round_trip(b: Seq<u8>)
    requires
        b.len() == 32,
    ensures
        spec_hex_of(b).len() == 64,
        forall|i: int|
            0 <= i < spec_hex_of(b).len() ==> spec_is_hex_digit(#[trigger] spec_hex_of(b)[i]),
        spec_bytes_of_hex(spec_hex_of(b)) == b,
{
    lemma_hex_of_len(b);
    lemma_hex_of_digits(b);
    lemma_hex_text_round_trip(b);
}

impl Txid {
    /// Reads an identifier from its hexadecimal text form: exactly 64
    /// hexadecimal digits, two per byte. Any other string — wrong length, a
    /// non-digit character — is refused with `InvalidFormat`.
    pub fn from_hex(s: &str) -> (r: Result<Txid, BitcoinError>)
        ensures
            r is Ok <==> (s@.len() == 64 && forall|i: int|
                0 <= i < s@.len() ==> spec_is_hex_digit(#[trigger] s@[i])),
            r matches Ok(t) ==> t@ == spec_bytes_of_hex(s@),
            r is Err ==> r == Err::<Txid, BitcoinError>(BitcoinError::InvalidFormat),
    {
        match hex_decode(s) {
            Err(_) => Err(BitcoinError::InvalidFormat),
            Ok(bytes) => {
                proof {
                    lemma_bytes_of_hex_len(s@);
                }
                if bytes.len() != 32 {
                    Err(BitcoinError::InvalidFormat)
                } else {
                    let raw = read_fixed32(bytes.as_slice());
                    proof {
                        assert(bytes@.subrange(0, 32) =~= bytes@);
                    }
                    Ok(Txid(raw))
                }
            },
        }
    }

    /// Writes the identifier as its 64-character lowercase hexadecimal text.
    pub fn to_hex(&self) -> (r: String)
        ensures
            r@ == spec_hex_of(self@),
    {
        hex_encode(self.0.as_slice())
    }
}

} // verus!
