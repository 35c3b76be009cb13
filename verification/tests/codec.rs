//! Tests of the wire-format codec: round trips, the length-prefixed layout,
//! and rejection of truncated or corrupted byte streams.

use stark_boundary::wire::{decode_key, decode_record, encode_key, encode_record, WireRecord};
use stark_boundary::errors::DecodeError;

fn sample_record() -> WireRecord {
    WireRecord {
        segments: vec![vec![1u8, 2, 3], vec![4u8, 5]],
        verifying_keys: vec![vec![9u8], vec![8u8, 7, 6]],
        public_values: Some(vec![42u8, 0, 255, 13]),
    }
}

#[test]
fn round_trip_record() {
    let record = sample_record();
    let bytes: Vec<u8> = encode_record(&record);
    let decoded = decode_record(&bytes).expect("a fresh encoding must decode");
    assert_eq!(decoded, record);
}

#[test]
fn round_trip_empty_record() {
    let record = WireRecord { segments: vec![], verifying_keys: vec![], public_values: None };
    let bytes: Vec<u8> = encode_record(&record);
    let decoded = decode_record(&bytes).expect("a fresh encoding must decode");
    assert_eq!(decoded, record);
}

#[test]
fn round_trip_record_with_empty_blobs() {
    let record = WireRecord {
        segments: vec![vec![], vec![0u8]],
        verifying_keys: vec![vec![], vec![]],
        public_values: Some(vec![]),
    };
    let bytes: Vec<u8> = encode_record(&record);
    let decoded = decode_record(&bytes).expect("a fresh encoding must decode");
    assert_eq!(decoded, record);
}

#[test]
fn round_trip_key() {
    let key: Vec<u8> = vec![11u8, 22, 33, 44, 55];
    let bytes: Vec<u8> = encode_key(&key);
    let decoded = decode_key(&bytes).expect("a fresh encoding must decode");
    assert_eq!(decoded, key);
}

#[test]
fn encoding_matches_length_prefixed_layout() {
    // The layout must agree with the producer's: the little-endian-u64
    // length-prefixed serialization of (segments, keys, public values).
    let record = sample_record();
    let reference: Vec<u8> = bincode::serialize(&(
        record.segments.clone(),
        record.verifying_keys.clone(),
        record.public_values.clone(),
    ))
    .expect("reference serializer");
    assert_eq!(encode_record(&record), reference);

    let key: Vec<u8> = vec![11u8, 22, 33];
    let key_reference: Vec<u8> = bincode::serialize(&key).expect("reference serializer");
    assert_eq!(encode_key(&key), key_reference);
}

#[test]
fn truncated_record_rejected() {
    let bytes: Vec<u8> = encode_record(&sample_record());
    assert!(bytes.len() > 10);
    let truncated = &bytes[..bytes.len() - 10];
    assert_eq!(decode_record(truncated), Err(DecodeError::UnexpectedEnd));
    // every strict prefix is rejected, down to the empty input
    let mut n: usize = 0;
    while n < bytes.len() {
        assert!(decode_record(&bytes[..n]).is_err());
        n += 1;
    }
}

#[test]
fn truncated_key_rejected() {
    let bytes: Vec<u8> = encode_key(&vec![11u8, 22, 33, 44]);
    let mut n: usize = 0;
    while n < bytes.len() {
        assert!(decode_key(&bytes[..n]).is_err());
        n += 1;
    }
}

#[test]
fn empty_input_rejected() {
    assert_eq!(decode_record(&[]), Err(DecodeError::UnexpectedEnd));
    assert_eq!(decode_key(&[]), Err(DecodeError::UnexpectedEnd));
}

#[test]
fn corrupted_count_rejected() {
    // raising the segment count by one demands a frame the input lacks
    let mut bytes: Vec<u8> = encode_record(&sample_record());
    bytes[0] = bytes[0] + 1;
    assert_eq!(decode_record(&bytes), Err(DecodeError::UnexpectedEnd));
}

#[test]
fn corrupted_option_marker_rejected() {
    let record = WireRecord {
        segments: vec![vec![1u8]],
        verifying_keys: vec![vec![2u8]],
        public_values: None,
    };
    let mut bytes: Vec<u8> = encode_record(&record);
    // the final byte is the marker of the absent public values
    let last: usize = bytes.len() - 1;
    assert_eq!(bytes[last], 0u8);
    bytes[last] = 7u8;
    assert_eq!(decode_record(&bytes), Err(DecodeError::InvalidOptionTag));
}

#[test]
fn trailing_bytes_rejected() {
    let mut bytes: Vec<u8> = encode_record(&sample_record());
    bytes.push(0u8);
    assert_eq!(decode_record(&bytes), Err(DecodeError::TrailingBytes));

    let mut key_bytes: Vec<u8> = encode_key(&vec![5u8]);
    key_bytes.push(9u8);
    assert_eq!(decode_key(&key_bytes), Err(DecodeError::TrailingBytes));
}

#[test]
fn decoding_preserves_order() {
    let record = WireRecord {
        segments: vec![vec![3u8], vec![1u8], vec![2u8]],
        verifying_keys: vec![vec![30u8], vec![10u8], vec![20u8]],
        public_values: None,
    };
    let decoded = decode_record(&encode_record(&record)).expect("must decode");
    assert_eq!(decoded.segments, vec![vec![3u8], vec![1u8], vec![2u8]]);
    assert_eq!(decoded.verifying_keys, vec![vec![30u8], vec![10u8], vec![20u8]]);
}

#[test]
fn exact_wire_bytes() {
    let record = WireRecord {
        segments: vec![vec![0xABu8]],
        verifying_keys: vec![vec![0xCDu8, 0xEF]],
        public_values: None,
    };
    let expected: Vec<u8> = vec![
        1, 0, 0, 0, 0, 0, 0, 0, // one segment
        1, 0, 0, 0, 0, 0, 0, 0, 0xAB, // its length frame and byte
        1, 0, 0, 0, 0, 0, 0, 0, // one verifying key
        2, 0, 0, 0, 0, 0, 0, 0, 0xCD, 0xEF, // its length frame and bytes
        0, // public values absent
    ];
    assert_eq!(encode_record(&record), expected);

    let key_expected: Vec<u8> = vec![1, 0, 0, 0, 0, 0, 0, 0, 0x7F];
    assert_eq!(encode_key(&vec![0x7Fu8]), key_expected);
}
