//! The two renderings of a report: a text table and a styled markup page.
use vstd::prelude::*;
use crate::config::{LacpInfo, LacpView, Settings, lacp_view, text_view};
use crate::ids::{ascending, insert_id, lemma_ascending_unique};
use crate::ranges::{PortRange, RangeView, range_views};
use crate::table::IndexTable;
use crate::text::{decimal, push_decimal};

verus! {

/// The two renderings of a report.
#[derive(Debug, Clone, Copy, PartialEq, Eq, Structural)]
pub enum OutputFormat {
    Markdown,
    Html,
}

/// Ranges that start above this port are left out of the rendering.
pub const MAX_LISTED_PORT: u32 = 52;

/// The start of the markup page, up to the device name.
pub const HTML_HEAD: &'static str = r#"<style>
    body {
        max-width: 1200px;
        margin: 0 auto;
        padding: 20px;
        font-family: Arial, sans-serif;
    }
    .device-header {
        margin-bottom: 30px;
        padding-bottom: 10px;
        border-bottom: 2px solid #eee;
    }
    .device-header h1 {
        margin: 0;
        color: #333;
        font-size: 24px;
    }
    .device-header h2 {
        margin: 5px 0 0;
        color: #666;
        font-size: 18px;
    }
    .generated-time {
        color: #666;
        font-size: 14px;
        margin-bottom: 20px;
    }
    .port-table {
        border-collapse: collapse;
        width: 100%;
        margin: 20px 0;
        background-color: white;
        box-shadow: 0 1px 3px rgba(0,0,0,0.1);
    }
    .port-table th, .port-table td {
        border: 1px solid #ddd;
        padding: 12px;
        text-align: left;
    }
    .port-table th {
        background-color: #f2f2f2;
        font-weight: bold;
        color: #333;
    }
    .port-table tr:nth-child(even) {
        background-color: #f9f9f9;
    }
    .port-table tr:hover {
        background-color: #f5f5f5;
    }
    .port-table tr.multi-port td {
        padding-top: 24px;
        padding-bottom: 24px;
    }
    .port-table tr.vlan-10 {
        background-color: #e6f3ff;
    }
    .port-table tr.vlan-10:hover {
        background-color: #d9edff;
    }
    .port-table tr.vlan-531 {
        background-color: #e6ffe6;
    }
    .port-table tr.vlan-531:hover {
        background-color: #d9ffd9;
    }
    .port-table tr.vlan-10.even {
        background-color: #d9edff;
    }
    .port-table tr.vlan-10.even:hover {
        background-color: #cce7ff;
    }
    .port-table tr.vlan-531.even {
        background-color: #d9ffd9;
    }
    .port-table tr.vlan-531.even:hover {
        background-color: #ccffcc;
    }
    .port-table tr.multi-tagged {
        background-color: #fff3e6;
    }
    .port-table tr.multi-tagged:hover {
        background-color: #ffe6cc;
    }
    .port-table tr.multi-tagged.even {
        background-color: #ffe6cc;
    }
    .port-table tr.multi-tagged.even:hover {
        background-color: #ffd9b3;
    }
    .port-table tr.lacp {
        background-color: #e6e6ff;
    }
    .port-table tr.lacp:hover {
        background-color: #d9d9ff;
    }
    .port-table tr.lacp.even {
        background-color: #d9d9ff;
    }
    .port-table tr.lacp.even:hover {
        background-color: #ccccff;
    }
</style>
<div class="device-header">
    <h1>Switch Port Configuration</h1>
    <h2>Device: "#;

/// What stands between the device name and the time.
pub const HTML_TIME: &'static str = r#"</h2>
    <div class="generated-time">Generated on: "#;

/// The table head of the markup page.
pub const HTML_TABLE: &'static str = r#"</div>
<table class="port-table">
    <thead>
        <tr>
            <th>Port</th>
            <th>Alias</th>
            <th>VLAN(s)</th>
            <th>LACP</th>
        </tr>
    </thead>
    <tbody>"#;

/// The end of the markup page.
pub const HTML_END: &'static str = r#"    </tbody>
</table>"#;

/// The elements of `s`, ascending, each once.
pub open spec fn sorted_set(s: Seq<u32>) -> Seq<u32> {
    choose|t: Seq<u32>| ascending(t) && forall|x: u32| t.contains(x) <==> s.contains(x)
}

/// The parts joined, with `sep` between each two.
pub open spec fn joined(parts: Seq<Seq<char>>, sep: Seq<char>) -> Seq<char>
    decreases parts.len(),
{
    if parts.len() == 0 {
        Seq::empty()
    } else if parts.len() == 1 {
        parts[0]
    } else {
        joined(parts.drop_last(), sep) + sep + parts.last()
    }
}

/// `first` alone, or `first-last`.
pub open spec fn port_cell(first: u32, last: u32) -> Seq<char> {
    if first == last {
        decimal(first as nat)
    } else {
        decimal(first as nat) + "-"@ + decimal(last as nat)
    }
}

/// A VLAN by its name and id where it has a name, else by its id. VLAN 1
/// is always shown by its id alone.
pub open spec fn vlan_label(names: Map<u32, String>, id: u32) -> Seq<char> {
    if id != 1 && names.contains_key(id) {
        names[id]@ + " ("@ + decimal(id as nat) + ")"@
    } else {
        decimal(id as nat)
    }
}

pub open spec fn vlan_labels(names: Map<u32, String>, ids: Seq<u32>) -> Seq<Seq<char>> {
    ids.map_values(|id: u32| vlan_label(names, id))
}

/// `title`, the labels of `ids` and a closing bracket, as in `Tagged:[10, 20]`.
pub open spec fn vlan_list(names: Map<u32, String>, title: Seq<char>, ids: Seq<u32>) -> Seq<char> {
    title + joined(vlan_labels(names, ids), ", "@) + "]"@
}

/// The VLAN column: the untagged VLAN alone where it is the only one, it is
/// the PVID and at most one VLAN is tagged; else the tagged and the
/// untagged lists.
pub open spec fn vlan_cell(names: Map<u32, String>, s: Settings) -> Seq<char> {
    let t = sorted_set(s.tagged);
    let u = sorted_set(s.untagged);
    if u.len() == 1 && t.len() <= 1 && s.pvid == u[0] {
        vlan_label(names, u[0])
    } else {
        let tp: Seq<Seq<char>> = if t.len() > 0 {
            seq![vlan_list(names, "Tagged:["@, t)]
        } else {
            Seq::empty()
        };
        let up: Seq<Seq<char>> = if u.len() > 0 {
            seq![vlan_list(names, "Untagged:["@, u)]
        } else {
            Seq::empty()
        };
        joined(tp + up, " "@)
    }
}

/// The trunk column: the trunk's name, `Unknown` where it has none, and
/// nothing for a port outside any trunk.
pub open spec fn lacp_cell(l: Option<LacpView>) -> Seq<char> {
    match l {
        Some(v) => match v.name {
            Some(n) => n,
            None => "Unknown"@,
        },
        None => Seq::empty(),
    }
}

pub open spec fn alias_cell(a: Option<Seq<char>>) -> Seq<char> {
    match a {
        Some(t) => t,
        None => Seq::empty(),
    }
}

pub open spec fn markdown_row(names: Map<u32, String>, r: RangeView) -> Seq<char> {
    "| "@ + port_cell(r.first, r.last) + " | "@ + alias_cell(r.settings.alias) + " | "@
        + vlan_cell(names, r.settings) + " | "@ + lacp_cell(r.settings.lacp) + " |\n"@
}

pub open spec fn markdown_rows(names: Map<u32, String>, rs: Seq<RangeView>) -> Seq<char>
    decreases rs.len(),
{
    if rs.len() == 0 {
        Seq::empty()
    } else if rs.last().first > MAX_LISTED_PORT {
        markdown_rows(names, rs.drop_last())
    } else {
        markdown_rows(names, rs.drop_last()) + markdown_row(names, rs.last())
    }
}

/// The text table of the ranges, under the time it was made.
pub open spec fn markdown_table(names: Map<u32, String>, rs: Seq<RangeView>, time: Seq<char>) -> Seq<char> {
    "Generated on: "@ + time + "\n\n"@ + "| Port | Alias | VLAN(s) | LACP |\n"@
        + "|------|-------|----------|------|\n"@ + markdown_rows(names, rs)
}

/// The classes of the markup row of range `r`, the `index`-th range.
pub open spec fn row_classes(r: RangeView, index: int) -> Seq<Seq<char>> {
    let u = sorted_set(r.settings.untagged);
    let c1: Seq<Seq<char>> = if r.first != r.last { seq!["multi-port"@] } else { Seq::empty() };
    let c2: Seq<Seq<char>> = if u.len() == 1 && u[0] == 10 {
        seq!["vlan-10"@]
    } else if u.len() == 1 && u[0] == 531 {
        seq!["vlan-531"@]
    } else {
        Seq::empty()
    };
    let c3: Seq<Seq<char>> = if sorted_set(r.settings.tagged).len() > 1 {
        seq!["multi-tagged"@]
    } else {
        Seq::empty()
    };
    let c4: Seq<Seq<char>> = if r.settings.lacp is Some { seq!["lacp"@] } else { Seq::empty() };
    let c5: Seq<Seq<char>> = if index % 2 == 1 { seq!["even"@] } else { Seq::empty() };
    c1 + c2 + c3 + c4 + c5
}

pub open spec fn class_attr(classes: Seq<Seq<char>>) -> Seq<char> {
    if classes.len() > 0 {
        " class=\""@ + joined(classes, " "@) + "\""@
    } else {
        Seq::empty()
    }
}

/// The four cells of a markup row, without the outer cell tags.
pub open spec fn html_cells(names: Map<u32, String>, r: RangeView) -> Seq<char> {
    port_cell(r.first, r.last) + "</td>\n            <td>"@ + alias_cell(r.settings.alias)
        + "</td>\n            <td>"@ + vlan_cell(names, r.settings) + "</td>\n            <td>"@
        + lacp_cell(r.settings.lacp)
}

pub open spec fn html_row(names: Map<u32, String>, r: RangeView, index: int) -> Seq<char> {
    "        <tr"@ + class_attr(row_classes(r, index)) + ">\n            <td>"@ + html_cells(names, r)
        + "</td>\n        </tr>"@
}

pub open spec fn html_rows(names: Map<u32, String>, rs: Seq<RangeView>) -> Seq<char>
    decreases rs.len(),
{
    if rs.len() == 0 {
        Seq::empty()
    } else if rs.last().first > MAX_LISTED_PORT {
        html_rows(names, rs.drop_last())
    } else {
        html_rows(names, rs.drop_last()) + html_row(names, rs.last(), rs.len() - 1)
    }
}

/// The markup page of the ranges of device `ip`, made at `time`.
pub open spec fn html_page(names: Map<u32, String>, rs: Seq<RangeView>, ip: Seq<char>, time: Seq<char>) -> Seq<char> {
    HTML_HEAD@ + ip + HTML_TIME@ + time + "</div>"@ + HTML_TABLE@ + html_rows(names, rs) + HTML_END@
}

/// The report in the format asked for.
pub open spec fn port_table(
    names: Map<u32, String>,
    rs: Seq<RangeView>,
    format: OutputFormat,
    ip: Seq<char>,
    time: Seq<char>,
) -> Seq<char> {
    match format {
        OutputFormat::Markdown => markdown_table(names, rs, time),
        OutputFormat::Html => html_page(names, rs, ip, time),
    }
}

/// The elements of `v`, ascending, each once.
pub fn sorted_copy(v: &Vec<u32>) -> (r: Vec<u32>)
    ensures
        r@ == sorted_set(v@),
{
    let mut r: Vec<u32> = Vec::new();
    let mut i: usize = 0;
    while i < v.len()
        invariant
            i <= v@.len(),
            ascending(r@),
            forall|x: u32| r@.contains(x) <==> v@.subrange(0, i as int).contains(x),
        decreases v@.len() - i,
    {
        let ghost before = r@;
        insert_id(&mut r, v[i]);
        proof {
            let a = v@.subrange(0, i as int);
            let b = v@.subrange(0, i + 1);
            assert forall|x: u32| r@.contains(x) <==> b.contains(x) by {
                assert(before.contains(x) <==> a.contains(x));
                if b.contains(x) {
                    let j = choose|j: int| 0 <= j < b.len() && b[j] == x;
                    if j < i {
                        assert(a[j] == x);
                    }
                }
                if a.contains(x) {
                    let j = choose|j: int| 0 <= j < a.len() && a[j] == x;
                    assert(b[j] == x);
                }
                if x == v@[i as int] {
                    assert(b[i as int] == x);
                }
            }
        }
        i = i + 1;
    }
    proof {
        assert(v@.subrange(0, v@.len() as int) =~= v@);
        let t = sorted_set(v@);
        assert(ascending(t) && forall|x: u32| t.contains(x) <==> v@.contains(x));
        lemma_ascending_unique(r@, t);
    }
    r
}

/// Appends the parts to `out`, with `sep` between each two.
fn push_joined(out: &mut String, parts: &Vec<String>, sep: &str)
    ensures
        final(out)@ == old(out)@ + joined(parts@.map_values(|p: String| p@), sep@),
{
    let ghost ps = parts@.map_values(|p: String| p@);
    let ghost start = out@;
    let mut i: usize = 0;
    while i < parts.len()
        invariant
            i <= parts@.len(),
            ps == parts@.map_values(|p: String| p@),
            out@ == start + joined(ps.subrange(0, i as int), sep@),
        decreases parts@.len() - i,
    {
        assert(ps.subrange(0, i + 1).drop_last() =~= ps.subrange(0, i as int));
        assert(ps[i as int] == parts@[i as int]@);
        if i > 0 {
            out.append(sep);
        }
        out.append(parts[i].as_str());
        proof {
            if i == 0 {
                assert(joined(ps.subrange(0, 1), sep@) == ps[0]);
            }
            assert(out@ =~= start + joined(ps.subrange(0, i + 1), sep@));
        }
        i = i + 1;
    }
    assert(ps.subrange(0, ps.len() as int) =~= ps);
}

fn vlan_label_text(names: &IndexTable<String>, id: u32) -> (r: String)
    requires
        names.wf(),
    ensures
        r@ == vlan_label(names@, id),
{
    let mut out = String::new();
    if id != 1 {
        match names.get(id) {
            Some(name) => {
                out.append(name.as_str());
                out.append(" (");
                push_decimal(&mut out, id);
                out.append(")");
                assert(out@ =~= vlan_label(names@, id));
                return out;
            },
            None => {},
        }
    }
    push_decimal(&mut out, id);
    assert(out@ =~= vlan_label(names@, id));
    out
}

fn vlan_list_text(names: &IndexTable<String>, title: &str, ids: &Vec<u32>) -> (r: String)
    requires
        names.wf(),
    ensures
        r@ == vlan_list(names@, title@, ids@),
{
    let mut labels: Vec<String> = Vec::new();
    let mut i: usize = 0;
    while i < ids.len()
        invariant
            names.wf(),
            i <= ids@.len(),
            labels@.map_values(|p: String| p@) == vlan_labels(names@, ids@.subrange(0, i as int)),
        decreases ids@.len() - i,
    {
        let ghost before = labels@.map_values(|p: String| p@);
        let label = vlan_label_text(names, ids[i]);
        labels.push(label);
        assert(labels@.map_values(|p: String| p@) =~= before.push(label@));
        assert(vlan_labels(names@, ids@.subrange(0, i + 1)) =~= vlan_labels(
            names@,
            ids@.subrange(0, i as int),
        ).push(vlan_label(names@, ids@[i as int])));
        i = i + 1;
    }
    assert(ids@.subrange(0, ids@.len() as int) =~= ids@);
    let mut out = String::from_str(title);
    push_joined(&mut out, &labels, ", ");
    out.append("]");
    out
}

fn vlan_cell_text(names: &IndexTable<String>, s: &PortRange) -> (r: String)
    requires
        names.wf(),
    ensures
        r@ == vlan_cell(names@, s@.settings),
{
    let t = sorted_copy(&s.vlan_memberships);
    let u = sorted_copy(&s.untagged_vlans);
    if u.len() == 1 && t.len() <= 1 && s.pvid == u[0] {
        return vlan_label_text(names, u[0]);
    }
    let mut parts: Vec<String> = Vec::new();
    if t.len() > 0 {
        parts.push(vlan_list_text(names, "Tagged:[", &t));
    }
    if u.len() > 0 {
        parts.push(vlan_list_text(names, "Untagged:[", &u));
    }
    let mut out = String::new();
    push_joined(&mut out, &parts, " ");
    proof {
        let tp: Seq<Seq<char>> = if t@.len() > 0 {
            seq![vlan_list(names@, "Tagged:["@, t@)]
        } else {
            Seq::empty()
        };
        let up: Seq<Seq<char>> = if u@.len() > 0 {
            seq![vlan_list(names@, "Untagged:["@, u@)]
        } else {
            Seq::empty()
        };
        assert(parts@.map_values(|p: String| p@) =~= tp + up);
        assert(out@ =~= vlan_cell(names@, s@.settings));
    }
    out
}

fn lacp_cell_text(l: &Option<LacpInfo>) -> (r: String)
    ensures
        r@ == lacp_cell(lacp_view(*l)),
{
    match l {
        Some(info) => match &info.agg_name {
            Some(n) => n.clone(),
            None => String::from_str("Unknown"),
        },
        None => String::new(),
    }
}

fn push_port_cell(out: &mut String, first: u32, last: u32)
    ensures
        final(out)@ == old(out)@ + port_cell(first, last),
{
    let ghost start = out@;
    push_decimal(out, first);
    if first != last {
        out.append("-");
        push_decimal(out, last);
    }
    assert(out@ =~= start + port_cell(first, last));
}

fn push_alias_cell(out: &mut String, a: &Option<String>)
    ensures
        final(out)@ == old(out)@ + alias_cell(text_view(*a)),
{
    let ghost start = out@;
    match a {
        Some(t) => out.append(t.as_str()),
        None => {},
    }
    assert(out@ =~= start + alias_cell(text_view(*a)));
}

fn push_markdown_row(out: &mut String, names: &IndexTable<String>, r: &PortRange)
    requires
        names.wf(),
    ensures
        final(out)@ == old(out)@ + markdown_row(names@, r@),
{
    let ghost start = out@;
    out.append("| ");
    push_port_cell(out, r.first_port, r.last_port);
    out.append(" | ");
    push_alias_cell(out, &r.alias);
    out.append(" | ");
    let vlans = vlan_cell_text(names, r);
    out.append(vlans.as_str());
    out.append(" | ");
    let lacp = lacp_cell_text(&r.lacp_info);
    out.append(lacp.as_str());
    out.append(" |\n");
    assert(out@ =~= start + markdown_row(names@, r@));
}

/// The text table of the ranges, under the time `timestamp`.
pub fn render_markdown(port_ranges: &Vec<PortRange>, vlan_names: &IndexTable<String>, timestamp: &str) -> (r: String)
    requires
        vlan_names.wf(),
    ensures
        r@ == markdown_table(vlan_names@, range_views(port_ranges@), timestamp@),
{
    let ghost rs = range_views(port_ranges@);
    let mut out = String::from_str("Generated on: ");
    out.append(timestamp);
    out.append("\n\n");
    out.append("| Port | Alias | VLAN(s) | LACP |\n");
    out.append("|------|-------|----------|------|\n");
    let ghost head = out@;
    let mut i: usize = 0;
    while i < port_ranges.len()
        invariant
            vlan_names.wf(),
            i <= port_ranges@.len(),
            rs == range_views(port_ranges@),
            out@ == head + markdown_rows(vlan_names@, rs.subrange(0, i as int)),
        decreases port_ranges@.len() - i,
    {
        assert(rs.subrange(0, i + 1).drop_last() =~= rs.subrange(0, i as int));
        assert(rs[i as int] == port_ranges@[i as int]@);
        if port_ranges[i].first_port <= MAX_LISTED_PORT {
            push_markdown_row(&mut out, vlan_names, &port_ranges[i]);
        }
        assert(out@ =~= head + markdown_rows(vlan_names@, rs.subrange(0, i + 1)));
        i = i + 1;
    }
    assert(rs.subrange(0, rs.len() as int) =~= rs);
    assert(out@ =~= markdown_table(vlan_names@, rs, timestamp@));
    out
}

fn row_class_list(r: &PortRange, index: usize) -> (c: Vec<String>)
    ensures
        c@.map_values(|p: String| p@) == row_classes(r@, index as int),
{
    let u = sorted_copy(&r.untagged_vlans);
    let t = sorted_copy(&r.vlan_memberships);
    let mut c: Vec<String> = Vec::new();
    let ghost c1: Seq<Seq<char>> = if r.first_port != r.last_port {
        seq!["multi-port"@]
    } else {
        Seq::empty()
    };
    let ghost c2: Seq<Seq<char>> = if u@.len() == 1 && u@[0] == 10 {
        seq!["vlan-10"@]
    } else if u@.len() == 1 && u@[0] == 531 {
        seq!["vlan-531"@]
    } else {
        Seq::empty()
    };
    let ghost c3: Seq<Seq<char>> = if t@.len() > 1 { seq!["multi-tagged"@] } else { Seq::empty() };
    let ghost c4: Seq<Seq<char>> = if r.lacp_info is Some { seq!["lacp"@] } else { Seq::empty() };
    let ghost c5: Seq<Seq<char>> = if index % 2 == 1 { seq!["even"@] } else { Seq::empty() };
    if r.first_port != r.last_port {
        c.push(String::from_str("multi-port"));
    }
    assert(c@.map_values(|p: String| p@) =~= c1);
    if u.len() == 1 {
        if u[0] == 10 {
            c.push(String::from_str("vlan-10"));
        } else if u[0] == 531 {
            c.push(String::from_str("vlan-531"));
        }
    }
    assert(c@.map_values(|p: String| p@) =~= c1 + c2);
    if t.len() > 1 {
        c.push(String::from_str("multi-tagged"));
    }
    assert(c@.map_values(|p: String| p@) =~= c1 + c2 + c3);
    if r.lacp_info.is_some() {
        c.push(String::from_str("lacp"));
    }
    assert(c@.map_values(|p: String| p@) =~= c1 + c2 + c3 + c4);
    if index % 2 == 1 {
        c.push(String::from_str("even"));
    }
    assert(c@.map_values(|p: String| p@) =~= c1 + c2 + c3 + c4 + c5);
    c
}

fn push_class_attr(out: &mut String, r: &PortRange, index: usize)
    ensures
        final(out)@ == old(out)@ + class_attr(row_classes(r@, index as int)),
{
    let ghost start = out@;
    let classes = row_class_list(r, index);
    if classes.len() > 0 {
        out.append(" class=\"");
        push_joined(out, &classes, " ");
        out.append("\"");
    }
    assert(out@ =~= start + class_attr(row_classes(r@, index as int)));
}

fn push_html_cells(out: &mut String, names: &IndexTable<String>, r: &PortRange)
    requires
        names.wf(),
    ensures
        final(out)@ == old(out)@ + html_cells(names@, r@),
{
    let ghost start = out@;
    push_port_cell(out, r.first_port, r.last_port);
    out.append("</td>\n            <td>");
    push_alias_cell(out, &r.alias);
    out.append("</td>\n            <td>");
    let vlans = vlan_cell_text(names, r);
    out.append(vlans.as_str());
    out.append("</td>\n            <td>");
    let lacp = lacp_cell_text(&r.lacp_info);
    out.append(lacp.as_str());
    assert(out@ =~= start + html_cells(names@, r@));
}

fn push_html_row(out: &mut String, names: &IndexTable<String>, r: &PortRange, index: usize)
    requires
        names.wf(),
    ensures
        final(out)@ == old(out)@ + html_row(names@, r@, index as int),
{
    let ghost start = out@;
    out.append("        <tr");
    push_class_attr(out, r, index);
    out.append(">\n            <td>");
    push_html_cells(out, names, r);
    out.append("</td>\n        </tr>");
    assert(out@ =~= start + html_row(names@, r@, index as int));
}

/// The markup page of the ranges of device `ip_address`, made at
/// `timestamp`.
pub fn render_html(
    port_ranges: &Vec<PortRange>,
    vlan_names: &IndexTable<String>,
    ip_address: &str,
    timestamp: &str,
) -> (r: String)
    requires
        vlan_names.wf(),
    ensures
        r@ == html_page(vlan_names@, range_views(port_ranges@), ip_address@, timestamp@),
{
    let ghost rs = range_views(port_ranges@);
    let mut out = String::from_str(HTML_HEAD);
    out.append(ip_address);
    out.append(HTML_TIME);
    out.append(timestamp);
    out.append("</div>");
    out.append(HTML_TABLE);
    let ghost head = out@;
    let mut i: usize = 0;
    while i < port_ranges.len()
        invariant
            vlan_names.wf(),
            i <= port_ranges@.len(),
            rs == range_views(port_ranges@),
            out@ == head + html_rows(vlan_names@, rs.subrange(0, i as int)),
        decreases port_ranges@.len() - i,
    {
        assert(rs.subrange(0, i + 1).drop_last() =~= rs.subrange(0, i as int));
        assert(rs[i as int] == port_ranges@[i as int]@);
        if port_ranges[i].first_port <= MAX_LISTED_PORT {
            push_html_row(&mut out, vlan_names, &port_ranges[i], i);
        }
        assert(out@ =~= head + html_rows(vlan_names@, rs.subrange(0, i + 1)));
        i = i + 1;
    }
    out.append(HTML_END);
    assert(rs.subrange(0, rs.len() as int) =~= rs);
    assert(out@ =~= html_page(vlan_names@, rs, ip_address@, timestamp@));
    out
}

/// The report in `format`, made at `timestamp`.
pub fn render_port_table(
    port_ranges: &Vec<PortRange>,
    vlan_names: &IndexTable<String>,
    format: OutputFormat,
    ip_address: &str,
    timestamp: &str,
) -> (r: String)
    requires
        vlan_names.wf(),
    ensures
        r@ == port_table(vlan_names@, range_views(port_ranges@), format, ip_address@, timestamp@),
{
    match format {
        OutputFormat::Markdown => render_markdown(port_ranges, vlan_names, timestamp),
        OutputFormat::Html => render_html(port_ranges, vlan_names, ip_address, timestamp),
    }
}

/// Relies on `chrono::Local::now` and `DateTime::format`: the local time
/// now, as `YYYY-MM-DD HH:MM:SS`. Nothing is promised of its value.
#[verifier::external_body]
fn local_timestamp() -> (r: String) {
    chrono::Local::now().format("%Y-%m-%d %H:%M:%S").to_string()
}

/// The report in `format`, stamped with the local time now.
pub fn generate_port_table(
    port_ranges: &Vec<PortRange>,
    vlan_names: &IndexTable<String>,
    format: OutputFormat,
    ip_address: &str,
) -> (r: String)
    requires
        vlan_names.wf(),
    ensures
        exists|time: Seq<char>|
            r@ == port_table(vlan_names@, range_views(port_ranges@), format, ip_address@, time),
{
    let timestamp = local_timestamp();
    render_port_table(port_ranges, vlan_names, format, ip_address, timestamp.as_str())
}

} // verus!
