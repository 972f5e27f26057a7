use bitcoin_codec::BitcoinError;
use bitcoin_codec::OutPoint;
use bitcoin_codec::Script;
use bitcoin_codec::TransactionInput;

#[test]
fn outpoint_encodes_to_36_bytes() {
    let mut txid = [0u8; 32];
    txid[0] = 0x11;
    txid[31] = 0x22;
    let op = OutPoint::new(txid, 0x01020304);
    let encoded = op.to_bytes();
    assert_eq!(encoded.len(), 36);
    assert_eq!(encoded[0], 0x11);
    assert_eq!(encoded[31], 0x22);
    assert_eq!(&encoded[32..36], &[0x04, 0x03, 0x02, 0x01]);
}

#[test]
fn outpoint_round_trip() {
    let op = OutPoint::new([0xAB; 32], 7);
    let encoded = op.to_bytes();
    let (decoded, consumed) = OutPoint::from_bytes(&encoded).unwrap();
    assert_eq!(decoded, op);
    assert_eq!(consumed, 36);
}

#[test]
fn outpoint_short_buffer_fails() {
    assert_eq!(
        OutPoint::from_bytes(&[0u8; 35]),
        Err(BitcoinError::InsufficientBytes)
    );
}

#[test]
fn outpoint_ignores_trailing_bytes() {
    let mut buffer = OutPoint::new([3; 32], 9).to_bytes();
    buffer.push(0xEE);
    let (decoded, consumed) = OutPoint::from_bytes(&buffer).unwrap();
    assert_eq!(decoded.vout, 9);
    assert_eq!(consumed, 36);
}

#[test]
fn script_empty_encodes_to_single_zero() {
    assert_eq!(Script::new(vec![]).to_bytes(), vec![0x00]);
}

#[test]
fn script_round_trip() {
    let script = Script::new(vec![0xAB, 0xCD]);
    let encoded = script.to_bytes();
    assert_eq!(encoded, vec![0x02, 0xAB, 0xCD]);
    let (decoded, consumed) = Script::from_bytes(&encoded).unwrap();
    assert_eq!(decoded, script);
    assert_eq!(consumed, 3);
}

#[test]
fn script_payload_is_accessible() {
    let script = Script::new(vec![1, 2, 3]);
    assert_eq!(script.payload(), &vec![1, 2, 3]);
}

#[test]
fn script_prefix_claiming_more_than_present_fails() {
    // The count says ten bytes, only three follow.
    assert_eq!(
        Script::from_bytes(&[0x0A, 0x01, 0x02, 0x03]),
        Err(BitcoinError::InsufficientBytes)
    );
}

#[test]
fn script_with_huge_claimed_length_fails() {
    // The count claims four billion payload bytes; only two follow.
    assert_eq!(
        Script::from_bytes(&[0xFE, 0xFF, 0xFF, 0xFF, 0xFF, 0x01, 0x02]),
        Err(BitcoinError::InsufficientBytes)
    );
    // The count claims more bytes than any buffer can hold.
    assert_eq!(
        Script::from_bytes(&[0xFF, 0xFF, 0xFF, 0xFF, 0xFF, 0xFF, 0xFF, 0xFF, 0xFF]),
        Err(BitcoinError::InsufficientBytes)
    );
}

#[test]
fn script_accepts_non_minimal_length_prefix() {
    let (decoded, consumed) = Script::from_bytes(&[0xFD, 0x02, 0x00, 0xAB, 0xCD]).unwrap();
    assert_eq!(decoded.payload(), &vec![0xAB, 0xCD]);
    assert_eq!(consumed, 5);
}

#[test]
fn input_round_trip() {
    let input = TransactionInput::new(
        OutPoint::new([5; 32], 1),
        Script::new(vec![0x51, 0x52]),
        0xFFFFFFFE,
    );
    let encoded = input.to_bytes();
    assert_eq!(encoded.len(), 36 + 3 + 4);
    let (decoded, consumed) = TransactionInput::from_bytes(&encoded).unwrap();
    assert_eq!(decoded, input);
    assert_eq!(consumed, encoded.len());
}

#[test]
fn input_truncated_sequence_fails() {
    let input = TransactionInput::new(OutPoint::new([5; 32], 1), Script::new(vec![]), 0);
    let encoded = input.to_bytes();
    // Drop the last sequence byte: every shorter prefix must fail.
    assert_eq!(
        TransactionInput::from_bytes(&encoded[..encoded.len() - 1]),
        Err(BitcoinError::InsufficientBytes)
    );
}
