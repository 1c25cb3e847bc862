use vlan_overview::config::LacpInfo;
use vlan_overview::ranges::PortRange;
use vlan_overview::render::{generate_port_table, render_html, render_markdown, render_port_table, OutputFormat, HTML_END, HTML_HEAD};
use vlan_overview::table::IndexTable;

fn range(first: u32, last: u32, pvid: u32, tagged: Vec<u32>, untagged: Vec<u32>) -> PortRange {
    PortRange {
        first_port: first,
        last_port: last,
        alias: None,
        pvid,
        vlan_memberships: tagged,
        untagged_vlans: untagged,
        lacp_info: None,
    }
}

fn names() -> IndexTable<String> {
    let mut t = IndexTable::new();
    t.insert(1, "default".to_string());
    t.insert(10, "users".to_string());
    t.insert(20, "voice".to_string());
    t
}

const HEAD: &str = "Generated on: T\n\n| Port | Alias | VLAN(s) | LACP |\n|------|-------|----------|------|\n";

#[test]
fn default_vlan_is_never_named() {
    let text = render_markdown(&vec![range(1, 1, 1, vec![], vec![1])], &names(), "T");
    assert_eq!(text, format!("{}| 1 |  | 1 |  |\n", HEAD));
}

#[test]
fn named_vlan_shows_name_and_id() {
    let text = render_markdown(&vec![range(2, 3, 10, vec![], vec![10])], &names(), "T");
    assert_eq!(text, format!("{}| 2-3 |  | users (10) |  |\n", HEAD));
}

#[test]
fn tagged_and_untagged_lists_are_sorted() {
    let mut r = range(7, 7, 30, vec![20, 10, 1], vec![30]);
    r.alias = Some("desk".to_string());
    let text = render_markdown(&vec![r], &names(), "T");
    assert_eq!(text, format!("{}| 7 | desk | Tagged:[1, users (10), voice (20)] Untagged:[30] |  |\n", HEAD));
}

#[test]
fn untagged_vlan_other_than_pvid_is_listed() {
    let text = render_markdown(&vec![range(8, 8, 5, vec![], vec![30])], &names(), "T");
    assert_eq!(text, format!("{}| 8 |  | Untagged:[30] |  |\n", HEAD));
}

#[test]
fn trunk_column_shows_name_or_unknown() {
    let mut a = range(1, 2, 0, vec![], vec![]);
    a.lacp_info = Some(LacpInfo { selected_agg_id: 49, agg_name: Some("Trk1".to_string()), agg_vlans: None });
    let mut b = range(4, 4, 0, vec![], vec![]);
    b.lacp_info = Some(LacpInfo { selected_agg_id: 50, agg_name: None, agg_vlans: None });
    let text = render_markdown(&vec![a, b], &names(), "T");
    assert_eq!(text, format!("{}| 1-2 |  |  | Trk1 |\n| 4 |  |  | Unknown |\n", HEAD));
}

#[test]
fn ranges_above_the_listed_ports_are_left_out() {
    let text = render_markdown(&vec![range(52, 52, 0, vec![], vec![]), range(53, 60, 0, vec![], vec![])], &names(), "T");
    assert_eq!(text, format!("{}| 52 |  |  |  |\n", HEAD));
}

#[test]
fn markup_rows_carry_classes() {
    let mut trunk = range(5, 5, 0, vec![1, 2], vec![]);
    trunk.lacp_info = Some(LacpInfo { selected_agg_id: 49, agg_name: None, agg_vlans: None });
    let ranges = vec![range(60, 61, 0, vec![], vec![]), range(1, 3, 10, vec![], vec![10]), range(4, 4, 531, vec![], vec![531]), trunk];
    let page = render_html(&ranges, &IndexTable::new(), "10.1.0.23", "T");
    assert!(page.starts_with(HTML_HEAD));
    assert!(page.ends_with(HTML_END));
    assert!(page.contains("<h2>Device: 10.1.0.23</h2>"));
    assert!(page.contains("Generated on: T</div></div>"));
    assert!(page.contains("        <tr class=\"multi-port vlan-10 even\">\n            <td>1-3</td>\n            <td></td>\n            <td>10</td>\n            <td></td>\n        </tr>"));
    assert!(page.contains("        <tr class=\"vlan-531\">\n            <td>4</td>"));
    assert!(page.contains("        <tr class=\"multi-tagged lacp even\">\n            <td>5</td>\n            <td></td>\n            <td>Tagged:[1, 2]</td>\n            <td>Unknown</td>\n        </tr>"));
    assert!(!page.contains("<td>60-61</td>"));
}

#[test]
fn plain_markup_row_has_no_class() {
    let page = render_html(&vec![range(9, 9, 0, vec![], vec![])], &IndexTable::new(), "", "T");
    assert!(page.contains("        <tr>\n            <td>9</td>"));
}

#[test]
fn format_selects_rendering() {
    let ranges = vec![range(1, 1, 1, vec![], vec![1])];
    assert_eq!(render_port_table(&ranges, &names(), OutputFormat::Markdown, "x", "T"), render_markdown(&ranges, &names(), "T"));
    assert_eq!(render_port_table(&ranges, &names(), OutputFormat::Html, "x", "T"), render_html(&ranges, &names(), "x", "T"));
}

#[test]
fn report_is_stamped_with_the_time() {
    let ranges = vec![range(1, 1, 1, vec![], vec![1])];
    let text = generate_port_table(&ranges, &names(), OutputFormat::Markdown, "");
    assert!(text.starts_with("Generated on: "));
    let stamp = &text["Generated on: ".len()..text.find("\n\n").unwrap()];
    assert_eq!(stamp.len(), 19);
    assert_eq!(&stamp[4..5], "-");
    assert_eq!(&stamp[10..11], " ");
    assert!(text.ends_with("| Port | Alias | VLAN(s) | LACP |\n|------|-------|----------|------|\n| 1 |  | 1 |  |\n"));
}
