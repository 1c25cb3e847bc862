use vlan_overview::builder::{alias_table, build_port_configs, is_physical_port, resolve_aggregate_vlans, DeviceTables};
use vlan_overview::config::{configs_match, LacpOverride, PortConfig};
use vlan_overview::ranges::{compress_ranges, port_ranges, PortRange};
use vlan_overview::render::render_markdown;
use vlan_overview::table::IndexTable;

fn numbers(entries: &[(u32, u32)]) -> IndexTable<u32> {
    let mut t = IndexTable::new();
    for &(k, v) in entries {
        t.insert(k, v);
    }
    t
}

fn texts(entries: &[(u32, &str)]) -> IndexTable<String> {
    let mut t = IndexTable::new();
    for &(k, v) in entries {
        t.insert(k, v.to_string());
    }
    t
}

fn lists(entries: &[(u32, Vec<u8>)]) -> IndexTable<Vec<u8>> {
    let mut t = IndexTable::new();
    for (k, v) in entries {
        t.insert(*k, v.clone());
    }
    t
}

/// A port list holding exactly `ports`.
fn bits(ports: &[usize]) -> Vec<u8> {
    let len = ports.iter().map(|p| (p - 1) / 8 + 1).max().unwrap_or(0);
    let mut b = vec![0u8; len];
    for p in ports {
        b[(p - 1) / 8] |= 0x80 >> ((p - 1) % 8);
    }
    b
}

fn ethernet(ports: &[u32]) -> (IndexTable<u32>, IndexTable<u32>) {
    let idx: Vec<(u32, u32)> = ports.iter().map(|&p| (p, p)).collect();
    let types: Vec<(u32, u32)> = ports.iter().map(|&p| (p, 6)).collect();
    (numbers(&idx), numbers(&types))
}

fn scenario_tables() -> DeviceTables {
    let (port_indices, port_types) = ethernet(&[1, 2, 3, 4]);
    DeviceTables {
        port_indices,
        port_types,
        port_aliases: texts(&[(1, "1"), (4, "uplink")]),
        port_vlans: numbers(&[(1, 10), (2, 10), (3, 10), (4, 20)]),
        vlan_egress_ports: lists(&[(30, bits(&[4]))]),
        vlan_untagged_ports: lists(&[(10, bits(&[1, 2, 3]))]),
        lag_selected_agg_ids: numbers(&[]),
        lag_agg_names: texts(&[]),
    }
}

fn expect_range(r: &PortRange, first: u32, last: u32, alias: Option<&str>, pvid: u32, tagged: &[u32], untagged: &[u32]) {
    assert_eq!((r.first_port, r.last_port), (first, last));
    assert_eq!(r.alias.as_deref(), alias);
    assert_eq!(r.pvid, pvid);
    assert_eq!(r.vlan_memberships, tagged.to_vec());
    assert_eq!(r.untagged_vlans, untagged.to_vec());
}

#[test]
fn end_to_end_two_ranges() {
    let tables = scenario_tables();
    let ranges = port_ranges(&tables, &vec![], "10.1.0.23");
    assert_eq!(ranges.len(), 2);
    expect_range(&ranges[0], 1, 3, None, 10, &[], &[10]);
    assert!(ranges[0].lacp_info.is_none());
    expect_range(&ranges[1], 4, 4, Some("uplink"), 20, &[30], &[]);
    assert!(ranges[1].lacp_info.is_none());
    let text = render_markdown(&ranges, &IndexTable::new(), "T");
    assert_eq!(
        text,
        "Generated on: T\n\n| Port | Alias | VLAN(s) | LACP |\n|------|-------|----------|------|\n\
         | 1-3 |  | 10 |  |\n| 4 | uplink | Tagged:[30] |  |\n"
    );
}

#[test]
fn gap_splits_identical_ports() {
    let (port_indices, port_types) = ethernet(&[1, 2, 4]);
    let tables = DeviceTables {
        port_indices,
        port_types,
        port_aliases: texts(&[]),
        port_vlans: numbers(&[(1, 5), (2, 5), (4, 5)]),
        vlan_egress_ports: lists(&[]),
        vlan_untagged_ports: lists(&[(5, bits(&[1, 2, 4]))]),
        lag_selected_agg_ids: numbers(&[]),
        lag_agg_names: texts(&[]),
    };
    let ranges = port_ranges(&tables, &vec![], "");
    assert_eq!(ranges.len(), 2);
    expect_range(&ranges[0], 1, 2, None, 5, &[], &[5]);
    expect_range(&ranges[1], 4, 4, None, 5, &[], &[5]);
}

#[test]
fn trunk_vlans_replace_port_vlans() {
    let (port_indices, port_types) = ethernet(&[5, 6]);
    let tables = DeviceTables {
        port_indices,
        port_types,
        port_aliases: texts(&[]),
        port_vlans: numbers(&[]),
        vlan_egress_ports: lists(&[(5, bits(&[5, 6])), (10, bits(&[49])), (20, bits(&[49]))]),
        vlan_untagged_ports: lists(&[]),
        lag_selected_agg_ids: numbers(&[(5, 49), (6, 0)]),
        lag_agg_names: texts(&[(49, "Trk1")]),
    };
    let configs = build_port_configs(&tables, "");
    assert_eq!(configs[0].vlan_memberships, vec![5]);
    let lacp = configs[0].lacp_info.as_ref().unwrap();
    assert_eq!(lacp.selected_agg_id, 49);
    assert_eq!(lacp.agg_name.as_deref(), Some("Trk1"));
    assert_eq!(lacp.agg_vlans, Some((vec![10, 20], vec![])));
    assert!(configs[1].lacp_info.is_none());
    let ranges = port_ranges(&tables, &vec![], "");
    assert_eq!(ranges.len(), 2);
    expect_range(&ranges[0], 5, 5, None, 0, &[10, 20], &[]);
    expect_range(&ranges[1], 6, 6, None, 0, &[5], &[]);
}

#[test]
fn aggregate_without_vlans_keeps_port_vlans() {
    let (port_indices, port_types) = ethernet(&[5]);
    let tables = DeviceTables {
        port_indices,
        port_types,
        port_aliases: texts(&[]),
        port_vlans: numbers(&[]),
        vlan_egress_ports: lists(&[(5, bits(&[5]))]),
        vlan_untagged_ports: lists(&[]),
        lag_selected_agg_ids: numbers(&[(5, 49)]),
        lag_agg_names: texts(&[]),
    };
    let resolved = resolve_aggregate_vlans(&tables);
    assert_eq!(resolved.len(), 0);
    let ranges = port_ranges(&tables, &vec![], "");
    assert_eq!(ranges[0].vlan_memberships, vec![5]);
    let lacp = ranges[0].lacp_info.as_ref().unwrap();
    assert_eq!(lacp.selected_agg_id, 49);
    assert!(lacp.agg_name.is_none());
    assert!(lacp.agg_vlans.is_none());
}

#[test]
fn later_override_wins_over_resolved_trunk() {
    let (port_indices, port_types) = ethernet(&[21, 22, 23]);
    let tables = DeviceTables {
        port_indices,
        port_types,
        port_aliases: texts(&[(21, "server"), (26, "core link")]),
        port_vlans: numbers(&[]),
        vlan_egress_ports: lists(&[(30, bits(&[26])), (50, bits(&[49]))]),
        vlan_untagged_ports: lists(&[(40, bits(&[26]))]),
        lag_selected_agg_ids: numbers(&[(21, 49)]),
        lag_agg_names: texts(&[(49, "Trk1")]),
    };
    let before = build_port_configs(&tables, "");
    assert_eq!(before[0].lacp_info.as_ref().unwrap().selected_agg_id, 49);
    let overrides = vec![LacpOverride { source_interface: 26, target_ports: vec![21, 99] }];
    let ranges = port_ranges(&tables, &overrides, "");
    assert_eq!(ranges.len(), 2);
    expect_range(&ranges[0], 21, 21, Some("core link"), 0, &[30], &[40]);
    let lacp = ranges[0].lacp_info.as_ref().unwrap();
    assert_eq!(lacp.selected_agg_id, 26);
    assert_eq!(lacp.agg_name.as_deref(), Some("Trk26"));
    assert_eq!(lacp.agg_vlans, Some((vec![30], vec![40])));
    expect_range(&ranges[1], 22, 23, None, 0, &[], &[]);
}

#[test]
fn last_of_two_overrides_wins() {
    let (port_indices, port_types) = ethernet(&[1]);
    let tables = DeviceTables {
        port_indices,
        port_types,
        port_aliases: texts(&[(7, "seven")]),
        port_vlans: numbers(&[]),
        vlan_egress_ports: lists(&[]),
        vlan_untagged_ports: lists(&[]),
        lag_selected_agg_ids: numbers(&[]),
        lag_agg_names: texts(&[]),
    };
    let overrides = vec![
        LacpOverride { source_interface: 7, target_ports: vec![1] },
        LacpOverride { source_interface: 8, target_ports: vec![1] },
    ];
    let ranges = port_ranges(&tables, &overrides, "");
    assert_eq!(ranges[0].alias, None);
    let lacp = ranges[0].lacp_info.as_ref().unwrap();
    assert_eq!(lacp.selected_agg_id, 8);
    assert_eq!(lacp.agg_name.as_deref(), Some("Trk8"));
    assert_eq!(lacp.agg_vlans, Some((vec![], vec![])));
}

#[test]
fn building_twice_gives_equal_configs() {
    let tables = scenario_tables();
    let a = build_port_configs(&tables, "");
    let b = build_port_configs(&tables, "");
    assert_eq!(a.len(), b.len());
    for (x, y) in a.iter().zip(b.iter()) {
        assert_eq!(x.port_num, y.port_num);
        assert!(configs_match(x, y));
    }
}

#[test]
fn builder_filters_and_defaults() {
    let tables = DeviceTables {
        port_indices: numbers(&[(1, 1), (2, 2), (3, 3), (4, 4), (5, 5)]),
        port_types: numbers(&[(1, 6), (2, 117), (3, 24), (5, 6)]),
        port_aliases: texts(&[(1, ""), (2, "2"), (5, "printer")]),
        port_vlans: numbers(&[(1, 3)]),
        vlan_egress_ports: lists(&[]),
        vlan_untagged_ports: lists(&[]),
        lag_selected_agg_ids: numbers(&[]),
        lag_agg_names: texts(&[]),
    };
    let configs = build_port_configs(&tables, "");
    let ports: Vec<u32> = configs.iter().map(|c| c.port_num).collect();
    assert_eq!(ports, vec![1, 2, 5]);
    assert_eq!(configs[0].alias, None);
    assert_eq!(configs[0].pvid, 3);
    assert_eq!(configs[1].alias, None);
    assert_eq!(configs[1].pvid, 0);
    assert_eq!(configs[2].alias.as_deref(), Some("printer"));
}

#[test]
fn physical_port_types() {
    assert!(is_physical_port(6, "10.0.0.1"));
    assert!(is_physical_port(117, ""));
    assert!(!is_physical_port(24, ""));
    assert!(!is_physical_port(0, ""));
}

#[test]
fn alias_table_falls_back_to_names() {
    let names = texts(&[(1, "ge-0/0/1")]);
    assert_eq!(alias_table(texts(&[]), texts(&[(1, "ge-0/0/1")])).get(1), names.get(1));
    assert_eq!(alias_table(texts(&[(1, "desk")]), names).get(1).map(|s| s.as_str()), Some("desk"));
}

fn config(port: u32, pvid: u32) -> PortConfig {
    PortConfig {
        port_num: port,
        alias: None,
        pvid,
        vlan_memberships: vec![],
        untagged_vlans: vec![pvid],
        lacp_info: None,
    }
}

#[test]
fn neighbouring_ranges_differ_over_contiguous_ports() {
    let configs = vec![config(1, 10), config(2, 10), config(3, 20), config(4, 10), config(5, 10)];
    let ranges = compress_ranges(&configs);
    let bounds: Vec<(u32, u32, u32)> = ranges.iter().map(|r| (r.first_port, r.last_port, r.pvid)).collect();
    assert_eq!(bounds, vec![(1, 2, 10), (3, 3, 20), (4, 5, 10)]);
}

#[test]
fn compressing_nothing_gives_nothing() {
    assert!(compress_ranges(&vec![]).is_empty());
}

#[test]
fn largest_port_number_closes_its_range() {
    let configs = vec![config(u32::MAX - 1, 1), config(u32::MAX, 1)];
    let ranges = compress_ranges(&configs);
    assert_eq!(ranges.len(), 1);
    assert_eq!((ranges[0].first_port, ranges[0].last_port), (u32::MAX - 1, u32::MAX));
}
