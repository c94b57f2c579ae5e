use beeline::h2::parser::{
    dynamic_table_info_from_bytes, new_header_field, static_table_fields, DynamicTableInfo, HEADER_FIELD_LEN,
};

fn padded(code: &[u8]) -> Vec<u8> {
    let mut v = code.to_vec();
    v.resize(HEADER_FIELD_LEN, 0);
    v
}

#[test]
fn header_field_holds_huffman_codes_padded() {
    let hf = new_header_field("custom-key", Some("custom-value"));
    let key = [0x25, 0xa8, 0x49, 0xe9, 0x5b, 0xa9, 0x7d, 0x7f];
    let val = [0x25, 0xa8, 0x49, 0xe9, 0x5b, 0xb8, 0xe8, 0xb4, 0xbf];
    assert_eq!(hf.key_len, 8);
    assert_eq!(hf.key, padded(&key));
    assert_eq!(hf.val_len, 9);
    assert_eq!(hf.val, padded(&val));
}

#[test]
fn header_field_without_value_has_an_empty_value() {
    let hf = new_header_field(":authority", None);
    assert_eq!(hf.val_len, 0);
    assert_eq!(hf.val, vec![0; HEADER_FIELD_LEN]);
    assert!(hf.key_len > 0);
}

#[test]
fn long_codes_are_cut_and_their_length_wraps() {
    let long = "a".repeat(500);
    let hf = new_header_field("x", Some(&long));
    assert_eq!(hf.val.len(), HEADER_FIELD_LEN);
    assert_eq!(hf.val_len, (313usize % 256) as u8);
    assert!(hf.val.iter().all(|b| *b != 0));
}

#[test]
fn static_table_lists_every_entry_once() {
    let fields = static_table_fields();
    assert_eq!(fields.len(), 61);
    let mut idx: Vec<u32> = fields.iter().map(|f| f.0).collect();
    idx.sort();
    assert_eq!(idx, (1..=61).collect::<Vec<u32>>());
    assert_eq!(fields[0].0, 2);
    let get = new_header_field(":method", Some("GET"));
    assert_eq!((fields[0].1.key.clone(), fields[0].1.val.clone()), (get.key, get.val));
    let (_, ua) = fields.iter().find(|f| f.0 == 58).unwrap();
    let expected = new_header_field("user-agent", None);
    assert_eq!((ua.key.clone(), ua.key_len, ua.val_len), (expected.key, expected.key_len, 0));
}

#[test]
fn dynamic_table_info_reads_native_words() {
    let mut bytes = Vec::new();
    for n in [3u32, 120, 1234, 1] {
        bytes.extend_from_slice(&n.to_ne_bytes());
    }
    let info = DynamicTableInfo { count: 3, size: 120, max_size: 1234, deleted: 1 };
    assert_eq!(dynamic_table_info_from_bytes(&bytes), Some(info));
    bytes.push(9);
    assert_eq!(dynamic_table_info_from_bytes(&bytes), Some(info));
    assert_eq!(dynamic_table_info_from_bytes(&bytes[..15]), None);
    assert_eq!(dynamic_table_info_from_bytes(&[]), None);
    assert_eq!(DynamicTableInfo::default(), DynamicTableInfo { count: 0, size: 0, max_size: 0, deleted: 0 });
}
