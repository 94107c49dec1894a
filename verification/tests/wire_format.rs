use checker_rs::wire::encode_record;

#[test]
fn encodes_short_payload_with_single_digit_prefix() {
    let r = encode_record(b"hello");
    assert_eq!(r, b"5hello".to_vec());
}

#[test]
fn encodes_empty_payload_as_zero_prefix() {
    let r = encode_record(b"");
    assert_eq!(r, b"0".to_vec());
}

#[test]
fn encodes_two_digit_length_without_separator() {
    let payload = b"123,456,678,10,12,12";
    assert_eq!(payload.len(), 20);
    let r = encode_record(payload);
    let mut expected = b"20".to_vec();
    expected.extend_from_slice(payload);
    assert_eq!(r, expected);
}

#[test]
fn encodes_three_digit_length() {
    let payload = vec![7u8; 123];
    let r = encode_record(&payload);
    assert_eq!(&r[..3], b"123");
    assert_eq!(r.len(), 126);
    assert_eq!(&r[3..], &payload[..]);
}

#[test]
fn encodes_boundary_lengths() {
    let nine = vec![1u8; 9];
    assert_eq!(&encode_record(&nine)[..1], b"9");
    let ten = vec![1u8; 10];
    assert_eq!(&encode_record(&ten)[..2], b"10");
}
