use alpac::hex::{hex_decode, hex_encode};

#[test]
fn decode_valid_hex() {
    assert_eq!(hex_decode(b"00ff10").unwrap(), vec![0x00, 0xff, 0x10]);
    assert_eq!(hex_decode(b"DEADbeef").unwrap(), vec![0xde, 0xad, 0xbe, 0xef]);
    assert_eq!(hex_decode(b"").unwrap(), Vec::<u8>::new());
}

#[test]
fn decode_rejects_malformed() {
    assert!(hex_decode(b"0").is_none());
    assert!(hex_decode(b"abc").is_none());
    assert!(hex_decode(b"zz").is_none());
    assert!(hex_decode(b"0g").is_none());
    assert!(hex_decode(b" 00").is_none());
}

#[test]
fn encode_is_lower_case_two_digits_per_byte() {
    assert_eq!(hex_encode(&[0xbe, 0xef]), b"beef".to_vec());
    assert_eq!(hex_encode(&[0x00, 0x0a, 0xf0]), b"000af0".to_vec());
    assert_eq!(hex_encode(&[]), Vec::<u8>::new());
}

#[test]
fn encode_decode_round_trip() {
    let data: Vec<u8> = (0u16..=255).map(|b| b as u8).collect();
    let encoded = hex_encode(&data);
    assert_eq!(hex_decode(&encoded).unwrap(), data);
    assert_eq!(String::from_utf8(encoded).unwrap(), hex::encode(&data));
}
