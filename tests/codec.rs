use caspaxos::{decode, encode, CorruptRecord, VersionedValue};

#[test]
fn encode_writes_little_endian_ballot_then_value() {
    let v = VersionedValue { ballot: 5, value: Some(b"v1".to_vec()) };
    assert_eq!(encode(&v), vec![5, 0, 0, 0, 0, 0, 0, 0, b'v', b'1']);
}

#[test]
fn encode_without_value_is_header_only() {
    let v = VersionedValue { ballot: 0x0102_0304_0506_0708, value: None };
    assert_eq!(encode(&v), vec![8, 7, 6, 5, 4, 3, 2, 1]);
}

#[test]
fn encode_largest_ballot() {
    let v = VersionedValue { ballot: u64::MAX, value: Some(vec![0]) };
    assert_eq!(encode(&v), vec![255, 255, 255, 255, 255, 255, 255, 255, 0]);
}

#[test]
fn decode_reads_header_and_remainder() {
    let bytes = vec![7, 1, 0, 0, 0, 0, 0, 0, 9, 8];
    assert_eq!(
        decode(&bytes),
        Ok(VersionedValue { ballot: 263, value: Some(vec![9, 8]) })
    );
}

#[test]
fn decode_header_only_has_no_value() {
    let bytes = vec![3, 0, 0, 0, 0, 0, 0, 0];
    assert_eq!(decode(&bytes), Ok(VersionedValue { ballot: 3, value: None }));
}

#[test]
fn decode_short_record_is_corrupt() {
    assert_eq!(decode(&[1, 2, 3, 4, 5, 6, 7]), Err(CorruptRecord));
    assert_eq!(decode(&[]), Err(CorruptRecord));
}

#[test]
fn round_trip_without_value() {
    let v = VersionedValue { ballot: 42, value: None };
    assert_eq!(decode(&encode(&v)), Ok(v));
}

#[test]
fn round_trip_with_value() {
    let v = VersionedValue { ballot: u64::MAX - 1, value: Some(b"hello world".to_vec()) };
    assert_eq!(decode(&encode(&v)), Ok(v));
}

#[test]
fn round_trip_empty_value_reads_back_as_none() {
    let v = VersionedValue { ballot: 9, value: Some(Vec::new()) };
    assert_eq!(decode(&encode(&v)), Ok(VersionedValue { ballot: 9, value: None }));
}
