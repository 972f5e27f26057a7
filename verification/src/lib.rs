//! A verified codec for a subset of the Bitcoin transaction wire format.
//!
//! Each entity offers `to_bytes`, which produces its canonical encoding, and
//! `from_bytes`, which parses a prefix of a byte buffer and reports how many
//! bytes it consumed. Contracts relate both directions to spec-level encode
//! and decode functions, and round-trip, truncation and trailing-byte
//! tolerance are proved as lemmas.

pub mod compact_size;
pub mod error;
pub mod input;
pub mod outpoint;
pub mod script;
pub mod transaction;
pub mod txid;
pub mod util;

pub use compact_size::CompactSize;
pub use error::BitcoinError;
pub use input::TransactionInput;
pub use outpoint::OutPoint;
pub use script::Script;
pub use transaction::BitcoinTransaction;
pub use txid::Txid;
