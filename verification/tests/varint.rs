//! Tests of the variable-length integer encoding.

use mqtt_broker::codec::{decode_variable_int, encode_variable_int, varint_len, DecodeError};

#[test]
fn test_encode_decode_roundtrip() {
    let test_values = [
        0,
        1,
        127,
        128,
        16383,
        16384,
        2097151,
        2097152,
        268435455,
    ];

    for &value in &test_values {
        let encoded = encode_variable_int(value);
        let (decoded, len) = decode_variable_int(&encoded).unwrap();
        assert_eq!(decoded, value, "Roundtrip failed for {}", value);
        assert_eq!(len, encoded.len());
    }
}

#[test]
fn test_specific_encodings() {
    // Per MQTT spec examples
    assert_eq!(encode_variable_int(0), vec![0x00]);
    assert_eq!(encode_variable_int(127), vec![0x7F]);
    assert_eq!(encode_variable_int(128), vec![0x80, 0x01]);
    assert_eq!(encode_variable_int(16383), vec![0xFF, 0x7F]);
    assert_eq!(encode_variable_int(16384), vec![0x80, 0x80, 0x01]);
    assert_eq!(encode_variable_int(2097151), vec![0xFF, 0xFF, 0x7F]);
    assert_eq!(encode_variable_int(2097152), vec![0x80, 0x80, 0x80, 0x01]);
    assert_eq!(
        encode_variable_int(268435455),
        vec![0xFF, 0xFF, 0xFF, 0x7F]
    );
}

#[test]
fn test_varint_len() {
    assert_eq!(varint_len(0), 1);
    assert_eq!(varint_len(127), 1);
    assert_eq!(varint_len(128), 2);
    assert_eq!(varint_len(16383), 2);
    assert_eq!(varint_len(16384), 3);
    assert_eq!(varint_len(2097151), 3);
    assert_eq!(varint_len(2097152), 4);
    assert_eq!(varint_len(268435455), 4);
}

#[test]
fn test_incomplete_varint() {
    // Continuation bit set but no more bytes
    let result = decode_variable_int(&[0x80]);
    assert!(matches!(result, Err(DecodeError::Incomplete { .. })));
}

#[test]
fn test_empty_buffer() {
    let result = decode_variable_int(&[]);
    assert!(matches!(result, Err(DecodeError::Incomplete { .. })));
}
