use euro_office_lite::encoding::{decode_payload, encode_payload};

#[test]
fn payloads_are_standard_base64() {
    assert_eq!(encode_payload(b"hello"), "aGVsbG8=");
    assert_eq!(encode_payload(b""), "");
    assert_eq!(decode_payload("aGVsbG8="), Ok(b"hello".to_vec()));
}

#[test]
fn decoding_what_was_encoded_gives_the_bytes_back() {
    let bytes: Vec<u8> = (0u8..=255).collect();
    assert_eq!(decode_payload(&encode_payload(&bytes)), Ok(bytes));
}

#[test]
fn text_that_is_not_base64_is_an_error() {
    assert!(decode_payload("!!!!").is_err());
    assert!(decode_payload("aGVsbG8").is_err());
}
