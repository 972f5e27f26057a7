use bitcoin_codec::BitcoinError;
use bitcoin_codec::Txid;

#[test]
fn to_hex_writes_two_lowercase_digits_per_byte() {
    let txid = Txid([0xAB; 32]);
    assert_eq!(txid.to_hex(), "ab".repeat(32));
}

#[test]
fn from_hex_reads_all_zero_identifier() {
    let txid = Txid::from_hex(&"00".repeat(32)).unwrap();
    assert_eq!(txid, Txid([0u8; 32]));
}

#[test]
fn hex_round_trip() {
    let mut raw = [0u8; 32];
    for (i, byte) in raw.iter_mut().enumerate() {
        *byte = (i * 7 + 3) as u8;
    }
    let txid = Txid(raw);
    let text = txid.to_hex();
    assert_eq!(text.len(), 64);
    assert_eq!(Txid::from_hex(&text).unwrap(), txid);
}

#[test]
fn from_hex_accepts_uppercase_digits() {
    let txid = Txid::from_hex(&"AB".repeat(32)).unwrap();
    assert_eq!(txid, Txid([0xAB; 32]));
}

#[test]
fn from_hex_rejects_wrong_length() {
    assert_eq!(
        Txid::from_hex(&"00".repeat(31)),
        Err(BitcoinError::InvalidFormat)
    );
    assert_eq!(
        Txid::from_hex(&"00".repeat(33)),
        Err(BitcoinError::InvalidFormat)
    );
    assert_eq!(Txid::from_hex(""), Err(BitcoinError::InvalidFormat));
    let odd = "0".repeat(63);
    assert_eq!(Txid::from_hex(&odd), Err(BitcoinError::InvalidFormat));
}

#[test]
fn from_hex_rejects_non_hex_characters() {
    let mut text = "00".repeat(32);
    text.replace_range(10..11, "g");
    assert_eq!(Txid::from_hex(&text), Err(BitcoinError::InvalidFormat));
}
