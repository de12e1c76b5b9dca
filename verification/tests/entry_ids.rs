use mnemosyne::entry_id::{entry_id_text, parse_entry_id};

#[test]
fn entry_id_text_is_hyphenated_lower_case_hex() {
    assert_eq!(entry_id_text(1), b"00000000-0000-0000-0000-000000000001".to_vec());
    assert_eq!(entry_id_text(0), b"00000000-0000-0000-0000-000000000000".to_vec());
    assert_eq!(
        entry_id_text(0x550e8400_e29b_41d4_a716_446655440000),
        b"550e8400-e29b-41d4-a716-446655440000".to_vec()
    );
    assert_eq!(entry_id_text(u128::MAX), b"ffffffff-ffff-ffff-ffff-ffffffffffff".to_vec());
    assert_eq!(
        entry_id_text(0x0123456789abcdef_0123456789abcdef),
        b"01234567-89ab-cdef-0123-456789abcdef".to_vec()
    );
}

#[test]
fn entry_id_text_has_36_bytes() {
    assert_eq!(entry_id_text(42).len(), 36);
}

#[test]
fn parse_entry_id_reads_the_canonical_text() {
    assert_eq!(
        parse_entry_id(b"550e8400-e29b-41d4-a716-446655440000"),
        Some(0x550e8400_e29b_41d4_a716_446655440000)
    );
    assert_eq!(parse_entry_id(b"00000000-0000-0000-0000-000000000001"), Some(1));
}

#[test]
fn parse_entry_id_reads_the_other_forms_of_the_parser() {
    let id = Some(0x550e8400_e29b_41d4_a716_446655440000u128);
    assert_eq!(parse_entry_id(b"550e8400e29b41d4a716446655440000"), id);
    assert_eq!(parse_entry_id(b"{550e8400-e29b-41d4-a716-446655440000}"), id);
    assert_eq!(parse_entry_id(b"urn:uuid:550e8400-e29b-41d4-a716-446655440000"), id);
    assert_eq!(parse_entry_id(b"550E8400-E29B-41D4-A716-446655440000"), id);
}

#[test]
fn parse_entry_id_rejects_what_is_no_id() {
    assert_eq!(parse_entry_id(b""), None);
    assert_eq!(parse_entry_id(b"hello"), None);
    assert_eq!(parse_entry_id(b"550e8400-e29b-41d4-a716-44665544000"), None);
    assert_eq!(parse_entry_id(b"550e8400-e29b-41d4-a716-44665544000g"), None);
    assert_eq!(parse_entry_id(b"\"550e8400-e29b-41d4-a716-446655440000\""), None);
}

#[test]
fn parse_entry_id_rejects_bytes_that_are_not_text() {
    let mut text = b"550e8400-e29b-41d4-a716-446655440000".to_vec();
    text[3] = 0xff;
    assert_eq!(parse_entry_id(&text), None);
    text[3] = b'\n';
    assert_eq!(parse_entry_id(&text), None);
}

#[test]
fn text_and_parse_round_trip() {
    for id in [0u128, 1, 0xdead_beef, u128::MAX, 0x550e8400_e29b_41d4_a716_446655440000] {
        assert_eq!(parse_entry_id(&entry_id_text(id)), Some(id));
    }
}
