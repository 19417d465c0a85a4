use clickthrough::archive::{classify_entry_name, iq_entries, EntryKind};

#[test]
fn classify_plain_iq_entry() {
    let r = classify_entry_name(&b"o10d20iq".to_vec());
    assert_eq!(r, EntryKind::Fields(b"10".to_vec(), b"20".to_vec()));
}

#[test]
fn classify_fractional_fields() {
    let r = classify_entry_name(&b"o-1.5d2.25iq".to_vec());
    assert_eq!(r, EntryKind::Fields(b"-1.5".to_vec(), b"2.25".to_vec()));
}

#[test]
fn classify_trailing_separator() {
    let r = classify_entry_name(&b"o3d4diq".to_vec());
    assert_eq!(r, EntryKind::Fields(b"3".to_vec(), b"4".to_vec()));
}

#[test]
fn classify_other_entry() {
    assert_eq!(classify_entry_name(&b"metadata".to_vec()), EntryKind::NotIq);
    assert_eq!(classify_entry_name(&b"x10d20iq".to_vec()), EntryKind::NotIq);
    assert_eq!(classify_entry_name(&b"o10d20ix".to_vec()), EntryKind::NotIq);
    assert_eq!(classify_entry_name(&b"iq".to_vec()), EntryKind::NotIq);
}

#[test]
fn classify_empty_interior_is_malformed() {
    assert_eq!(classify_entry_name(&b"oiq".to_vec()), EntryKind::Malformed);
}

#[test]
fn classify_missing_separator_is_malformed() {
    assert_eq!(classify_entry_name(&b"o1020iq".to_vec()), EntryKind::Malformed);
}

#[test]
fn classify_too_many_separators_is_malformed() {
    assert_eq!(classify_entry_name(&b"o1d2d3iq".to_vec()), EntryKind::Malformed);
    assert_eq!(classify_entry_name(&b"odiq".to_vec()), EntryKind::Malformed);
}

#[test]
fn iq_entries_collects_in_order() {
    let names = vec![
        b"header".to_vec(),
        b"o0d1iq".to_vec(),
        b"extra".to_vec(),
        b"o2.5d3iq".to_vec(),
    ];
    let entries = iq_entries(&names).unwrap();
    assert_eq!(entries.len(), 2);
    assert_eq!(entries[0].index, 1);
    assert_eq!(entries[0].output_field, b"0".to_vec());
    assert_eq!(entries[0].input_field, b"1".to_vec());
    assert_eq!(entries[1].index, 3);
    assert_eq!(entries[1].output_field, b"2.5".to_vec());
    assert_eq!(entries[1].input_field, b"3".to_vec());
}

#[test]
fn iq_entries_rejects_malformed_entry() {
    let names = vec![b"o0d1iq".to_vec(), b"oiq".to_vec()];
    assert!(iq_entries(&names).is_none());
}

#[test]
fn iq_entries_empty_list() {
    let names: Vec<Vec<u8>> = Vec::new();
    let entries = iq_entries(&names).unwrap();
    assert_eq!(entries.len(), 0);
}
