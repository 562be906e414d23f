//! Tests of the binary-to-text codec.

use rcli::codec::decode_base64;
use rcli::codec::encode_base64;
use rcli::codec::CodecError;

#[test]
fn encode_known_values() {
    assert_eq!(encode_base64(&b"hello".to_vec()), "aGVsbG8=");
    assert_eq!(encode_base64(&b"".to_vec()), "");
    assert_eq!(encode_base64(&b"foobar".to_vec()), "Zm9vYmFy");
    assert_eq!(encode_base64(&vec![0u8, 255u8, 16u8]), "AP8Q");
}

#[test]
fn decode_inverts_encode() {
    let data: Vec<u8> = (0u8..=255u8).collect();
    let encoded = encode_base64(&data);
    let decoded = decode_base64(&encoded.clone().into_bytes()).unwrap();
    assert_eq!(decoded, data);
}

#[test]
fn decode_rejects_malformed_input() {
    assert_eq!(
        decode_base64(&b"!!!!".to_vec()).unwrap_err(),
        CodecError::InvalidByte { offset: 0, byte: b'!' }
    );
    assert!(decode_base64(&b"aGVsbG8".to_vec()).is_err());
    assert!(decode_base64(&b"a".to_vec()).is_err());
}

#[test]
fn encoded_length_is_four_per_three_bytes() {
    assert_eq!(encode_base64(&vec![1u8; 3]).len(), 4);
    assert_eq!(encode_base64(&vec![1u8; 4]).len(), 8);
    assert_eq!(encode_base64(&vec![1u8; 5]).len(), 8);
    assert_eq!(encode_base64(&vec![1u8; 6]).len(), 8);
}
