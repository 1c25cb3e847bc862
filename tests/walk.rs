use vlan_overview::table::IndexTable;
use vlan_overview::walk::{
    extract_last_id, optional_string_table, parse_oid, raw_table, snmp_value, starts_with,
    string_table, u32_table, walk_step, RawValue, SnmpValue,
};

#[test]
fn dotted_identifier_is_read() {
    assert_eq!(parse_oid("1.3.6.1.2.1.2.2.1.1.7"), vec![1, 3, 6, 1, 2, 1, 2, 2, 1, 1, 7]);
    assert_eq!(parse_oid(".1.3."), vec![1, 3]);
    assert_eq!(parse_oid("1.x.3"), vec![1, 3]);
    assert_eq!(parse_oid(""), Vec::<u32>::new());
    assert_eq!(parse_oid("1.99999999999.2"), vec![1, 2]);
}

#[test]
fn prefix_test_on_identifiers() {
    assert!(starts_with(&[1, 3, 6, 1], &[1, 3]));
    assert!(starts_with(&[1, 3], &[1, 3]));
    assert!(starts_with(&[1, 3], &[]));
    assert!(!starts_with(&[1, 3], &[1, 3, 6]));
    assert!(!starts_with(&[1, 4, 6], &[1, 3]));
}

#[test]
fn last_id_is_cut_to_sixteen_bits() {
    assert_eq!(extract_last_id(&[1, 3, 25]), 25);
    assert_eq!(extract_last_id(&[1, 70000]), 4464);
    assert_eq!(extract_last_id(&[]), 0);
}

#[test]
fn returned_values_become_table_values() {
    assert!(matches!(snmp_value(RawValue::Integer(-1)), Some(SnmpValue::Integer(4294967295))));
    assert!(matches!(snmp_value(RawValue::Unsigned32(7)), Some(SnmpValue::Integer(7))));
    assert!(matches!(snmp_value(RawValue::OctetString(vec![1, 2])), Some(SnmpValue::Bytes(b)) if b == vec![1, 2]));
    assert!(snmp_value(RawValue::Other).is_none());
}

#[test]
fn walk_stores_entries_under_the_root_and_stops_outside() {
    let base = [1u32, 3, 6, 1, 2, 1, 2, 2, 1, 3];
    let mut results: IndexTable<SnmpValue> = IndexTable::new();
    let next = walk_step(&base, &mut results, "1.3.6.1.2.1.2.2.1.3.5", RawValue::Integer(6));
    assert_eq!(next, Some(vec![1, 3, 6, 1, 2, 1, 2, 2, 1, 3, 5]));
    let next = walk_step(&base, &mut results, "1.3.6.1.2.1.2.2.1.3.2", RawValue::Other);
    assert_eq!(next, Some(vec![1, 3, 6, 1, 2, 1, 2, 2, 1, 3, 2]));
    let next = walk_step(&base, &mut results, "1.3.6.1.2.1.2.2.1.4.1", RawValue::Integer(1500));
    assert_eq!(next, None);
    assert_eq!(results.len(), 1);
    assert!(matches!(results.get(5), Some(SnmpValue::Integer(6))));
    assert!(results.get(2).is_none());
}

#[test]
fn later_walk_entry_replaces_earlier() {
    let base = [1u32, 2];
    let mut results: IndexTable<SnmpValue> = IndexTable::new();
    walk_step(&base, &mut results, "1.2.9", RawValue::Unsigned32(1));
    walk_step(&base, &mut results, "1.2.4", RawValue::Unsigned32(2));
    walk_step(&base, &mut results, "1.2.7.9", RawValue::Unsigned32(3));
    assert_eq!(results.len(), 2);
    assert_eq!(results.id_at(0), 4);
    assert_eq!(results.id_at(1), 9);
    assert!(matches!(results.get(9), Some(SnmpValue::Integer(3))));
}

fn raw(entries: Vec<(u32, SnmpValue)>) -> IndexTable<SnmpValue> {
    let mut t = IndexTable::new();
    for (k, v) in entries {
        t.insert(k, v);
    }
    t
}

#[test]
fn numbers_from_integers_and_bytes() {
    let t = u32_table(&raw(vec![
        (1, SnmpValue::Integer(6)),
        (2, SnmpValue::Bytes(vec![0, 0, 1, 2])),
        (3, SnmpValue::Bytes(vec![1, 2, 3])),
        (4, SnmpValue::Bytes(vec![0xFF, 0xFF, 0xFF, 0xFF, 9])),
    ]));
    assert_eq!(t.get(1), Some(&6));
    assert_eq!(t.get(2), Some(&258));
    assert_eq!(t.get(3), Some(&0));
    assert_eq!(t.get(4), Some(&u32::MAX));
}

#[test]
fn bytes_from_integers_and_bytes() {
    let t = raw_table(&raw(vec![(1, SnmpValue::Integer(0x0102_0304)), (2, SnmpValue::Bytes(vec![7]))]));
    assert_eq!(t.get(1), Some(&vec![1, 2, 3, 4]));
    assert_eq!(t.get(2), Some(&vec![7]));
}

#[test]
fn text_table_reads_bytes_and_refuses_integers() {
    let t = string_table(&raw(vec![(1, SnmpValue::Bytes(b"Port 1".to_vec())), (2, SnmpValue::Bytes(vec![]))]))
        .unwrap();
    assert_eq!(t.get(1).map(|s| s.as_str()), Some("Port 1"));
    assert_eq!(t.get(2).map(|s| s.as_str()), Some(""));
    let bad = string_table(&raw(vec![(1, SnmpValue::Bytes(b"a".to_vec())), (2, SnmpValue::Integer(3))]));
    assert!(bad.is_none());
}

#[test]
fn text_table_replaces_invalid_utf8() {
    let t = string_table(&raw(vec![(1, SnmpValue::Bytes(vec![b'a', 0xFF, b'b']))])).unwrap();
    assert_eq!(t.get(1).map(|s| s.as_str()), Some("a\u{FFFD}b"));
}

#[test]
fn optional_text_table_drops_empty_text() {
    let t = optional_string_table(&raw(vec![(1, SnmpValue::Bytes(b"up".to_vec())), (2, SnmpValue::Bytes(vec![]))]))
        .unwrap();
    assert_eq!(t.get(1), Some(&Some("up".to_string())));
    assert_eq!(t.get(2), Some(&None));
    assert!(optional_string_table(&raw(vec![(1, SnmpValue::Integer(0))])).is_none());
}
