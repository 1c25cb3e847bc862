use vlan_overview::bitmask::{decode_port_list, port_in_list};

#[test]
fn full_byte_decodes_to_first_eight_ports() {
    assert_eq!(decode_port_list(&[0xFF]), vec![1, 2, 3, 4, 5, 6, 7, 8]);
}

#[test]
fn empty_port_list_decodes_to_nothing() {
    assert_eq!(decode_port_list(&[]), Vec::<usize>::new());
}

#[test]
fn single_bit_decodes_to_its_port() {
    for n in [1usize, 2, 7, 8, 9, 16, 17, 52, 100] {
        let mut bytes = vec![0u8; (n - 1) / 8 + 1];
        bytes[(n - 1) / 8] = 0x80 >> ((n - 1) % 8);
        assert_eq!(decode_port_list(&bytes), vec![n]);
        bytes.extend_from_slice(&[0, 0]);
        assert_eq!(decode_port_list(&bytes), vec![n]);
    }
}

#[test]
fn trailing_bytes_are_decoded_too() {
    assert_eq!(decode_port_list(&[0x80, 0x00, 0x01]), vec![1, 24]);
    assert_eq!(decode_port_list(&[0x41, 0x80]), vec![2, 8, 9]);
}

#[test]
fn port_membership_follows_bits() {
    let list = [0b1010_0000u8, 0b0000_0001];
    assert!(port_in_list(1, &list));
    assert!(!port_in_list(2, &list));
    assert!(port_in_list(3, &list));
    assert!(port_in_list(16, &list));
    assert!(!port_in_list(17, &list));
    assert!(!port_in_list(0, &list));
}
