use vlan_overview::trunks::{parse_lacp_override, trunk_display_name};

#[test]
fn override_with_several_targets() {
    let o = parse_lacp_override("26:21,22").unwrap();
    assert_eq!(o.source_interface, 26);
    assert_eq!(o.target_ports, vec![21, 22]);
}

#[test]
fn override_with_plus_signs() {
    let o = parse_lacp_override("+26:+21").unwrap();
    assert_eq!(o.source_interface, 26);
    assert_eq!(o.target_ports, vec![21]);
}

#[test]
fn override_without_colon_is_rejected() {
    assert_eq!(
        parse_lacp_override("26").err().unwrap(),
        "Invalid format. Expected: source_interface:target_ports"
    );
    assert_eq!(
        parse_lacp_override("1:2:3").err().unwrap(),
        "Invalid format. Expected: source_interface:target_ports"
    );
}

#[test]
fn override_with_bad_source_is_rejected() {
    assert_eq!(
        parse_lacp_override("x:21").err().unwrap(),
        "Invalid source interface number: invalid digit found in string"
    );
    assert_eq!(
        parse_lacp_override(":21").err().unwrap(),
        "Invalid source interface number: cannot parse integer from empty string"
    );
    assert_eq!(
        parse_lacp_override("4294967296:21").err().unwrap(),
        "Invalid source interface number: number too large to fit in target type"
    );
    assert_eq!(
        parse_lacp_override("-1:21").err().unwrap(),
        "Invalid source interface number: invalid digit found in string"
    );
}

#[test]
fn override_with_bad_target_is_rejected() {
    assert_eq!(
        parse_lacp_override("26:21,x").err().unwrap(),
        "Invalid target port number: invalid digit found in string"
    );
    assert_eq!(
        parse_lacp_override("26:").err().unwrap(),
        "Invalid target port number: cannot parse integer from empty string"
    );
    assert_eq!(
        parse_lacp_override("26:21,,22").err().unwrap(),
        "Invalid target port number: cannot parse integer from empty string"
    );
    assert_eq!(
        parse_lacp_override("26:99999999999,x").err().unwrap(),
        "Invalid target port number: number too large to fit in target type"
    );
}

#[test]
fn override_matches_std_number_parsing() {
    for text in ["0", "4294967295", "4294967296", "+", "-", "+7", "007", "1a", " 1", ""] {
        let declared = format!("{}:1", text);
        match (parse_lacp_override(&declared), text.parse::<u32>()) {
            (Ok(o), Ok(v)) => assert_eq!(o.source_interface, v),
            (Err(m), Err(e)) => assert_eq!(m, format!("Invalid source interface number: {}", e)),
            _ => panic!("parsing of {:?} differs", text),
        }
    }
}

#[test]
fn trunk_name_has_prefix_and_number() {
    assert_eq!(trunk_display_name(26), "Trk26");
    assert_eq!(trunk_display_name(0), "Trk0");
    assert_eq!(trunk_display_name(4294967295), "Trk4294967295");
}
