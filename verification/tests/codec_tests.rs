use hexrun_miner::hexcode::{decode_hex, encode_hex, HexError};

#[test]
fn encode_known_bytes() {
    let b = vec![0xdeu8, 0xad, 0xbe, 0xef];
    assert_eq!(encode_hex(&b), b"deadbeef".to_vec());
}

#[test]
fn encode_empty() {
    let b: Vec<u8> = Vec::new();
    assert_eq!(encode_hex(&b), Vec::<u8>::new());
}

#[test]
fn decode_known_string() {
    let s = b"0aff".to_vec();
    assert_eq!(decode_hex(&s), Ok(vec![0x0au8, 0xff]));
}

#[test]
fn round_trip_all_byte_values() {
    let bytes: Vec<u8> = (0u8..=255).collect();
    let encoded = encode_hex(&bytes);
    assert_eq!(encoded.len(), 512);
    assert_eq!(decode_hex(&encoded), Ok(bytes));
}

#[test]
fn odd_length_is_rejected() {
    let s = b"abc".to_vec();
    assert_eq!(decode_hex(&s), Err(HexError::OddLength));
}

#[test]
fn invalid_digit_is_rejected() {
    let s = b"0g".to_vec();
    assert_eq!(decode_hex(&s), Err(HexError::InvalidDigit));
    let upper = b"AB".to_vec();
    assert_eq!(decode_hex(&upper), Err(HexError::InvalidDigit));
}
