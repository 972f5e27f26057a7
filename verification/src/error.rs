//! The failure values a decode can report.

use vstd::prelude::*;

verus! {

/// Why a decode refused its input.
///
/// `InsufficientBytes` says the buffer ends before the field that was being
/// read; a caller in a streaming setting may retry with more bytes.
/// `InvalidFormat` says the content itself breaks an invariant; it arises only
/// from the hexadecimal text constructor of [`crate::Txid`].
#[derive(Debug, PartialEq, Eq, Clone)]
pub enum BitcoinError {
    InsufficientBytes,
    InvalidFormat,
}

} // verus!
