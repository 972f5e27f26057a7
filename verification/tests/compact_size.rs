use bitcoin_codec::BitcoinError;
use bitcoin_codec::CompactSize;

#[test]
fn encode_boundary_252_is_one_byte() {
    assert_eq!(CompactSize::new(252).to_bytes(), vec![0xFC]);
}

#[test]
fn encode_boundary_253_uses_u16_marker() {
    assert_eq!(CompactSize::new(253).to_bytes(), vec![0xFD, 0xFD, 0x00]);
}

#[test]
fn encode_boundary_65535_uses_u16_marker() {
    assert_eq!(CompactSize::new(65535).to_bytes(), vec![0xFD, 0xFF, 0xFF]);
}

#[test]
fn encode_boundary_65536_uses_u32_marker() {
    assert_eq!(
        CompactSize::new(65536).to_bytes(),
        vec![0xFE, 0x00, 0x00, 0x01, 0x00]
    );
}

#[test]
fn encode_boundary_u32_max_uses_u32_marker() {
    assert_eq!(
        CompactSize::new(4294967295).to_bytes(),
        vec![0xFE, 0xFF, 0xFF, 0xFF, 0xFF]
    );
}

#[test]
fn encode_boundary_past_u32_uses_u64_marker() {
    assert_eq!(
        CompactSize::new(4294967296).to_bytes(),
        vec![0xFF, 0x00, 0x00, 0x00, 0x00, 0x01, 0x00, 0x00, 0x00]
    );
}

#[test]
fn round_trip_every_class() {
    for value in [0u64, 1, 252, 253, 300, 65535, 65536, 70000, 4294967295, 4294967296, u64::MAX] {
        let encoded = CompactSize::new(value).to_bytes();
        let (decoded, consumed) = CompactSize::from_bytes(&encoded).unwrap();
        assert_eq!(decoded.value, value);
        assert_eq!(consumed, encoded.len());
    }
}

#[test]
fn decode_accepts_non_minimal_form() {
    let (decoded, consumed) = CompactSize::from_bytes(&[0xFD, 0x0A, 0x00]).unwrap();
    assert_eq!(decoded.value, 10);
    assert_eq!(consumed, 3);
}

#[test]
fn decode_empty_buffer_fails() {
    assert_eq!(
        CompactSize::from_bytes(&[]),
        Err(BitcoinError::InsufficientBytes)
    );
}

#[test]
fn decode_truncated_markers_fail() {
    assert_eq!(
        CompactSize::from_bytes(&[0xFD, 0x0A]),
        Err(BitcoinError::InsufficientBytes)
    );
    assert_eq!(
        CompactSize::from_bytes(&[0xFE, 0x01, 0x02, 0x03]),
        Err(BitcoinError::InsufficientBytes)
    );
    assert_eq!(
        CompactSize::from_bytes(&[0xFF, 0x01, 0x02, 0x03, 0x04, 0x05, 0x06, 0x07]),
        Err(BitcoinError::InsufficientBytes)
    );
}

#[test]
fn decode_ignores_trailing_bytes() {
    let (decoded, consumed) = CompactSize::from_bytes(&[0x07, 0xAA, 0xBB]).unwrap();
    assert_eq!(decoded.value, 7);
    assert_eq!(consumed, 1);
}
