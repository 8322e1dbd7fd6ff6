use gltf_import::data_uri::{encode_data_uri, has_data_scheme, parse_data_uri, DataUriError};

#[test]
fn decodes_payload_after_first_comma() {
    assert_eq!(
        parse_data_uri("data:application/octet-stream;base64,AAEC"),
        Ok(vec![0u8, 1, 2])
    );
}

#[test]
fn decodes_whatever_the_prefix_says() {
    assert_eq!(parse_data_uri("data:text/plain,aGVsbG8="), Ok(b"hello".to_vec()));
    assert_eq!(parse_data_uri(",aGVsbG8="), Ok(b"hello".to_vec()));
}

#[test]
fn round_trip_of_empty_bytes() {
    let uri = encode_data_uri(&[]);
    assert_eq!(uri, "data:application/octet-stream;base64,");
    assert_eq!(parse_data_uri(&uri), Ok(vec![]));
}

#[test]
fn round_trip_of_some_bytes() {
    let bytes = vec![0u8, 1, 2, 253, 254, 255, 44, 61];
    let uri = encode_data_uri(&bytes);
    assert_eq!(uri, "data:application/octet-stream;base64,AAEC/f7/LD0=");
    assert!(has_data_scheme(&uri));
    assert_eq!(parse_data_uri(&uri), Ok(bytes));
}

#[test]
fn round_trip_of_every_short_length() {
    let mut bytes: Vec<u8> = Vec::new();
    for n in 0..70u8 {
        assert_eq!(parse_data_uri(&encode_data_uri(&bytes)), Ok(bytes.clone()));
        bytes.push(n.wrapping_mul(37));
    }
}

#[test]
fn encoded_text_differs_from_the_bytes() {
    let uri = encode_data_uri(b"abc");
    assert_eq!(uri, "data:application/octet-stream;base64,YWJj");
    assert_ne!(parse_data_uri("data:,abc"), Ok(b"abc".to_vec()));
}

#[test]
fn missing_comma_is_rejected() {
    assert_eq!(parse_data_uri("data:text/plain;base64"), Err(DataUriError::MissingComma));
    assert_eq!(parse_data_uri(""), Err(DataUriError::MissingComma));
}

#[test]
fn invalid_base64_is_rejected() {
    assert_eq!(
        parse_data_uri("data:application/octet-stream;base64,@@@@"),
        Err(DataUriError::InvalidBase64)
    );
}

#[test]
fn a_second_comma_belongs_to_the_payload() {
    assert_eq!(parse_data_uri("data:,AAEC,AAEC"), Err(DataUriError::InvalidBase64));
}

#[test]
fn empty_payload_is_no_bytes() {
    assert_eq!(parse_data_uri("data:,"), Ok(vec![]));
}

#[test]
fn scheme_is_told_by_the_first_five_characters() {
    assert!(has_data_scheme("data:"));
    assert!(has_data_scheme("data:application/octet-stream;base64,AAEC"));
    assert!(!has_data_scheme("data"));
    assert!(!has_data_scheme(""));
    assert!(!has_data_scheme("Data:x"));
    assert!(!has_data_scheme("models/data:bin"));
    assert!(!has_data_scheme("data.bin"));
}

#[test]
fn payload_is_found_behind_characters_of_several_bytes() {
    assert_eq!(parse_data_uri("d\u{e9}t\u{e0}\u{1F600},AAEC"), Ok(vec![0u8, 1, 2]));
}
