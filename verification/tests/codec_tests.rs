use rlunch::codec::{decode_entries, encode_entries, SavedEntry};

#[test]
fn empty_list_round_trips() {
    let bytes = encode_entries(&Vec::new());
    assert_eq!(bytes.len(), 0);
    let back = decode_entries(&bytes).unwrap();
    assert_eq!(back.len(), 0);
}

#[test]
fn records_round_trip() {
    let records = vec![
        SavedEntry { key: String::from("http://example.test/a"), value: vec![0, 1, 2, 255] },
        SavedEntry { key: String::from(""), value: Vec::new() },
        SavedEntry { key: String::from("smörgåsbord"), value: vec![42] },
    ];
    let bytes = encode_entries(&records);
    let back = decode_entries(&bytes).unwrap();
    assert_eq!(back, records);
}

#[test]
fn record_layout_is_length_prefixed() {
    let records = vec![SavedEntry { key: String::from("ab"), value: vec![7] }];
    let bytes = encode_entries(&records);
    // 8-byte key length, key bytes, 8-byte value length, value bytes
    assert_eq!(bytes.len(), 8 + 2 + 8 + 1);
    assert_eq!(&bytes[0..8], &[2, 0, 0, 0, 0, 0, 0, 0]);
    assert_eq!(&bytes[8..10], b"ab");
    assert_eq!(&bytes[10..18], &[1, 0, 0, 0, 0, 0, 0, 0]);
    assert_eq!(bytes[18], 7);
}

#[test]
fn truncated_bytes_decode_to_nothing() {
    let records = vec![SavedEntry { key: String::from("key"), value: vec![1, 2, 3] }];
    let mut bytes = encode_entries(&records);
    bytes.pop();
    assert!(decode_entries(&bytes).is_none());
    assert!(decode_entries(&vec![0, 1, 2]).is_none());
}

#[test]
fn oversized_length_prefix_decodes_to_nothing() {
    // a key length far past the end of the input
    let bytes = vec![255, 255, 255, 255, 255, 255, 255, 255, 1, 2, 3];
    assert!(decode_entries(&bytes).is_none());
}

#[test]
fn invalid_utf8_key_decodes_to_nothing() {
    // one record whose key bytes are not UTF-8
    let mut bytes = vec![2, 0, 0, 0, 0, 0, 0, 0, 0xff, 0xfe];
    bytes.extend_from_slice(&[0, 0, 0, 0, 0, 0, 0, 0]);
    assert!(decode_entries(&bytes).is_none());
}
