use bitcoin_codec::BitcoinError;
use bitcoin_codec::BitcoinTransaction;
use bitcoin_codec::OutPoint;
use bitcoin_codec::Script;
use bitcoin_codec::TransactionInput;

#[test]
fn empty_transaction_encodes_to_nine_bytes() {
    let tx = BitcoinTransaction::new(1, vec![], 0);
    let encoded = tx.to_bytes();
    assert_eq!(
        encoded,
        vec![0x01, 0x00, 0x00, 0x00, 0x00, 0x00, 0x00, 0x00, 0x00]
    );
    let (decoded, consumed) = BitcoinTransaction::from_bytes(&encoded).unwrap();
    assert_eq!(decoded, tx);
    assert_eq!(consumed, 9);
}

fn one_input_transaction() -> BitcoinTransaction {
    let input = TransactionInput::new(
        OutPoint::new([0u8; 32], 0xFFFFFFFF),
        Script::new(vec![0xAB, 0xCD]),
        0,
    );
    BitcoinTransaction::new(1, vec![input], 0)
}

#[test]
fn one_input_transaction_round_trips_in_52_bytes() {
    let tx = one_input_transaction();
    let encoded = tx.to_bytes();
    assert_eq!(encoded.len(), 4 + 1 + 36 + (1 + 2) + 4 + 4);
    let (decoded, consumed) = BitcoinTransaction::from_bytes(&encoded).unwrap();
    assert_eq!(decoded, tx);
    assert_eq!(consumed, 52);
}

#[test]
fn trailing_bytes_are_tolerated() {
    let tx = one_input_transaction();
    let mut buffer = tx.to_bytes();
    buffer.push(0xDE);
    buffer.push(0xAD);
    let (decoded, consumed) = BitcoinTransaction::from_bytes(&buffer).unwrap();
    assert_eq!(decoded, tx);
    assert!(consumed < buffer.len());
    assert_eq!(consumed, 52);
}

#[test]
fn every_truncation_fails() {
    let tx = one_input_transaction();
    let encoded = tx.to_bytes();
    for cut in 0..encoded.len() {
        assert_eq!(
            BitcoinTransaction::from_bytes(&encoded[..cut]),
            Err(BitcoinError::InsufficientBytes)
        );
    }
}

#[test]
fn count_claiming_missing_inputs_fails() {
    // Version, a count of two, then a single complete input and a lock time.
    let input = TransactionInput::new(OutPoint::new([7; 32], 1), Script::new(vec![]), 0);
    let mut buffer = vec![0x01, 0x00, 0x00, 0x00, 0x02];
    buffer.extend_from_slice(&input.to_bytes());
    buffer.extend_from_slice(&[0, 0, 0, 0]);
    assert_eq!(
        BitcoinTransaction::from_bytes(&buffer),
        Err(BitcoinError::InsufficientBytes)
    );
}

#[test]
fn huge_claimed_input_count_fails_without_reading_past_the_end() {
    // Version, then a count claiming four billion inputs, then nothing.
    let buffer = vec![0x01, 0x00, 0x00, 0x00, 0xFE, 0xFF, 0xFF, 0xFF, 0xFF];
    assert_eq!(
        BitcoinTransaction::from_bytes(&buffer),
        Err(BitcoinError::InsufficientBytes)
    );
}

#[test]
fn inputs_keep_their_order_and_duplicates() {
    let a = TransactionInput::new(OutPoint::new([1; 32], 1), Script::new(vec![0x01]), 10);
    let b = TransactionInput::new(OutPoint::new([2; 32], 2), Script::new(vec![0x02]), 20);
    let tx = BitcoinTransaction::new(2, vec![a.clone(), b.clone(), a.clone()], 99);
    let encoded = tx.to_bytes();
    let (decoded, consumed) = BitcoinTransaction::from_bytes(&encoded).unwrap();
    assert_eq!(decoded.inputs, vec![a.clone(), b, a]);
    assert_eq!(decoded.version, 2);
    assert_eq!(decoded.lock_time, 99);
    assert_eq!(consumed, encoded.len());
}
