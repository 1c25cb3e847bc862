//! Assembling per-port configuration records from table snapshots, and
//! resolving the VLAN sets of trunks.
use vstd::prelude::*;
use crate::bitmask::{has_port, port_in_list};
use crate::config::{LacpInfo, LacpView, PortConfig, PortView, Settings, pair_view};
use crate::ids::{ascending, insert_id};
use crate::table::{IndexTable, lemma_map_of};
use crate::text::{decimal, decimal_string};

verus! {

/// One batch of table snapshots read from a device.
pub struct DeviceTables {
    /// Interface index to port number.
    pub port_indices: IndexTable<u32>,
    /// Port number to interface type code.
    pub port_types: IndexTable<u32>,
    /// Port number to display name or alias.
    pub port_aliases: IndexTable<String>,
    /// Port number to PVID.
    pub port_vlans: IndexTable<u32>,
    /// VLAN id to the port list of its tagged egress ports.
    pub vlan_egress_ports: IndexTable<Vec<u8>>,
    /// VLAN id to the port list of its untagged ports.
    pub vlan_untagged_ports: IndexTable<Vec<u8>>,
    /// Port number to the id of the aggregate it selects (0: none).
    pub lag_selected_agg_ids: IndexTable<u32>,
    /// Aggregate id to its display name.
    pub lag_agg_names: IndexTable<String>,
}

impl DeviceTables {
    pub open spec fn wf(&self) -> bool {
        &&& self.port_indices.wf()
        &&& self.port_types.wf()
        &&& self.port_aliases.wf()
        &&& self.port_vlans.wf()
        &&& self.vlan_egress_ports.wf()
        &&& self.vlan_untagged_ports.wf()
        &&& self.lag_selected_agg_ids.wf()
        &&& self.lag_agg_names.wf()
    }
}

/// The ids, in table order, of the VLANs whose port list holds `port`.
pub open spec fn vlans_of(vlans: Seq<(u32, Vec<u8>)>, port: u32) -> Seq<u32>
    decreases vlans.len(),
{
    if vlans.len() == 0 {
        Seq::empty()
    } else if has_port(vlans.last().1@, port as int) {
        vlans_of(vlans.drop_last(), port).push(vlans.last().0)
    } else {
        vlans_of(vlans.drop_last(), port)
    }
}

/// The tagged VLAN ids of `port`.
pub open spec fn tagged_of(t: DeviceTables, port: u32) -> Seq<u32> {
    vlans_of(t.vlan_egress_ports.spec_entries(), port)
}

/// The untagged VLAN ids of `port`.
pub open spec fn untagged_of(t: DeviceTables, port: u32) -> Seq<u32> {
    vlans_of(t.vlan_untagged_ports.spec_entries(), port)
}

/// An aggregate's own VLAN sets, where either is non-empty.
pub open spec fn aggregate_vlans(t: DeviceTables, agg: u32) -> Option<(Seq<u32>, Seq<u32>)> {
    if tagged_of(t, agg).len() > 0 || untagged_of(t, agg).len() > 0 {
        Some((tagged_of(t, agg), untagged_of(t, agg)))
    } else {
        None
    }
}

/// The text stored for `id`, if any.
pub open spec fn text_at(m: Map<u32, String>, id: u32) -> Option<Seq<char>> {
    if m.contains_key(id) {
        Some(m[id]@)
    } else {
        None
    }
}

/// A port's alias: absent where none is stored, where it is empty, or where
/// it only repeats the port number.
pub open spec fn alias_of(t: DeviceTables, port: u32) -> Option<Seq<char>> {
    match text_at(t.port_aliases@, port) {
        Some(a) => if a.len() == 0 || a == decimal(port as nat) {
            None
        } else {
            Some(a)
        },
        None => None,
    }
}

/// The number stored for `id`, or `dflt`.
pub open spec fn number_at(m: Map<u32, u32>, id: u32, dflt: u32) -> u32 {
    if m.contains_key(id) {
        m[id]
    } else {
        dflt
    }
}

/// The trunk data of `port`: present where it selects a non-zero aggregate.
pub open spec fn lacp_of(t: DeviceTables, port: u32) -> Option<LacpView> {
    let agg = number_at(t.lag_selected_agg_ids@, port, 0);
    if agg > 0 {
        Some(
            LacpView {
                agg_id: agg,
                name: text_at(t.lag_agg_names@, agg),
                vlans: aggregate_vlans(t, agg),
            },
        )
    } else {
        None
    }
}

/// The configuration that the tables give `port`, before trunk overlay and
/// overrides.
pub open spec fn port_settings(t: DeviceTables, port: u32) -> Settings {
    Settings {
        alias: alias_of(t, port),
        pvid: number_at(t.port_vlans@, port, 0),
        tagged: tagged_of(t, port),
        untagged: untagged_of(t, port),
        lacp: lacp_of(t, port),
    }
}

/// Whether an interface type code is that of a physical port kept in the
/// report (100 Mb or 1 Gb Ethernet).
pub open spec fn physical_type(port_type: u32) -> bool {
    port_type == 6 || port_type == 117
}

/// Whether `port` is a known interface of a kept type.
pub open spec fn known_port(t: DeviceTables, port: u32) -> bool {
    &&& exists|k: u32| #[trigger]
        t.port_indices@.contains_key(k) && t.port_indices@[k] == port
    &&& physical_type(number_at(t.port_types@, port, 0))
}

pub open spec fn views(cs: Seq<PortConfig>) -> Seq<PortView> {
    cs.map_values(|c: PortConfig| c@)
}

/// Whether `cs` are the configurations that the tables give: one for each
/// known port, in ascending port order.
pub open spec fn built_from(t: DeviceTables, cs: Seq<PortView>) -> bool {
    &&& forall|i: int, j: int| 0 <= i < j < cs.len() ==> cs[i].port < cs[j].port
    &&& forall|p: u32| known_port(t, p) <==> exists|i: int| 0 <= i < cs.len() && cs[i].port == p
    &&& forall|i: int| 0 <= i < cs.len() ==> #[trigger] cs[i].settings == port_settings(t, cs[i].port)
}

/// The table of port display names: the alias table where the device
/// reports any alias, else the table of interface names.
pub fn alias_table(aliases: IndexTable<String>, names: IndexTable<String>) -> (r: IndexTable<String>)
    ensures
        r == if aliases.spec_entries().len() > 0 {
            aliases
        } else {
            names
        },
{
    if aliases.len() > 0 {
        aliases
    } else {
        names
    }
}

/// Whether an interface of type `port_type` on the device `_ip` is a
/// physical port kept in the report.
pub fn is_physical_port(port_type: u32, _ip: &str) -> (r: bool)
    ensures
        r == physical_type(port_type),
{
    port_type == 6 || port_type == 117
}

/// The ids, ascending, of the VLANs in `vlans` whose port list holds `port`.
pub fn vlans_with_port(vlans: &IndexTable<Vec<u8>>, port: u32) -> (r: Vec<u32>)
    requires
        vlans.wf(),
    ensures
        r@ == vlans_of(vlans.spec_entries(), port),
        ascending(r@),
        forall|v: u32| #[trigger]
            r@.contains(v) <==> (vlans@.contains_key(v) && has_port(vlans@[v]@, port as int)),
{
    let ghost s = vlans.spec_entries();
    let mut r: Vec<u32> = Vec::new();
    let mut i: usize = 0;
    while i < vlans.len()
        invariant
            vlans.wf(),
            s == vlans.spec_entries(),
            i <= s.len(),
            r@ == vlans_of(s.subrange(0, i as int), port),
            ascending(r@),
            i > 0 && r@.len() > 0 ==> r@.last() <= s[i - 1].0,
        decreases s.len() - i,
    {
        assert(s.subrange(0, i + 1).drop_last() =~= s.subrange(0, i as int));
        if port_in_list(port, vlans.value_at(i).as_slice()) {
            r.push(vlans.id_at(i));
        }
        i = i + 1;
    }
    assert(s.subrange(0, s.len() as int) =~= s);
    proof {
        lemma_vlans_of_members(s, port);
    }
    r
}

/// Whether one of the first `n` entries of `s` holds the value `a`.
pub open spec fn value_among(s: Seq<(u32, u32)>, n: int, a: u32) -> bool {
    exists|j: int| 0 <= j < n && s[j].1 == a
}

/// Whether some port selects aggregate `agg`.
pub open spec fn selected(t: DeviceTables, agg: u32) -> bool {
    exists|k: u32| #[trigger]
        t.lag_selected_agg_ids@.contains_key(k) && t.lag_selected_agg_ids@[k] == agg
}

/// For every aggregate that some port selects, its own VLAN sets, computed
/// by looking the aggregate id up in the VLAN port lists as if it were a
/// port. Aggregates with no VLAN at all are left out.
pub fn resolve_aggregate_vlans(tables: &DeviceTables) -> (r: IndexTable<(Vec<u32>, Vec<u32>)>)
    requires
        tables.wf(),
    ensures
        r.wf(),
        forall|agg: u32| #[trigger]
            r@.contains_key(agg) <==> (agg > 0 && selected(*tables, agg) && aggregate_vlans(
                *tables,
                agg,
            ) is Some),
        forall|agg: u32| #[trigger]
            r@.contains_key(agg) ==> pair_view(Some(r@[agg])) == aggregate_vlans(*tables, agg),
{
    let ghost s = tables.lag_selected_agg_ids.spec_entries();
    let mut r: IndexTable<(Vec<u32>, Vec<u32>)> = IndexTable::new();
    let mut i: usize = 0;
    while i < tables.lag_selected_agg_ids.len()
        invariant
            tables.wf(),
            r.wf(),
            s == tables.lag_selected_agg_ids.spec_entries(),
            i <= s.len(),
            forall|agg: u32| #[trigger]
                r@.contains_key(agg) <==> (agg > 0 && value_among(s, i as int, agg)
                    && aggregate_vlans(*tables, agg) is Some),
            forall|agg: u32| #[trigger]
                r@.contains_key(agg) ==> pair_view(Some(r@[agg])) == aggregate_vlans(
                    *tables,
                    agg,
                ),
        decreases s.len() - i,
    {
        let agg = *tables.lag_selected_agg_ids.value_at(i);
        if agg > 0 {
            let tagged = vlans_with_port(&tables.vlan_egress_ports, agg);
            let untagged = vlans_with_port(&tables.vlan_untagged_ports, agg);
            if tagged.len() > 0 || untagged.len() > 0 {
                r.insert(agg, (tagged, untagged));
            }
        }
        proof {
            assert forall|a: u32|
                #[trigger] value_among(s, i + 1, a) <==> (value_among(s, i as int, a) || a
                    == agg) by {
                if a == agg {
                    assert(s[i as int].1 == a);
                }
            }
        }
        i = i + 1;
    }
    proof {
        lemma_map_of(s);
        assert forall|a: u32| #[trigger]
            selected(*tables, a) <==> value_among(s, s.len() as int, a) by {
            if selected(*tables, a) {
                let k = choose|k: u32| #[trigger]
                    tables.lag_selected_agg_ids@.contains_key(k) && tables.lag_selected_agg_ids@[k]
                        == a;
                let j = choose|j: int| 0 <= j < s.len() && s[j].0 == k;
            }
            if value_among(s, s.len() as int, a) {
                let j = choose|j: int| 0 <= j < s.len() && s[j].1 == a;
                assert(tables.lag_selected_agg_ids@.contains_key(s[j].0));
            }
        }
    }
    r
}

/// The VLAN ids that `vlans_of` gives are ascending, and none exceeds the
/// last VLAN id of the table.
pub proof fn lemma_vlans_of_ascending(s: Seq<(u32, Vec<u8>)>, port: u32)
    requires
        crate::table::ids_ascending(s),
    ensures
        ascending(vlans_of(s, port)),
        s.len() > 0 ==> forall|k: int|
            0 <= k < vlans_of(s, port).len() ==> #[trigger] vlans_of(s, port)[k] <= s.last().0,
    decreases s.len(),
{
    if s.len() > 0 {
        let t = s.drop_last();
        lemma_vlans_of_ascending(t, port);
        if t.len() > 0 {
            assert(t.last().0 < s.last().0);
        }
    }
}

/// A VLAN is listed for `port` exactly when the table holds it and its port
/// list holds `port`.
pub proof fn lemma_vlans_of_members(s: Seq<(u32, Vec<u8>)>, port: u32)
    requires
        crate::table::ids_ascending(s),
    ensures
        forall|v: u32| #[trigger]
            vlans_of(s, port).contains(v) <==> (crate::table::map_of(s).contains_key(v) && has_port(
                crate::table::map_of(s)[v]@,
                port as int,
            )),
    decreases s.len(),
{
    if s.len() > 0 {
        let t = s.drop_last();
        let last = s.last();
        lemma_vlans_of_members(t, port);
        lemma_vlans_of_ascending(t, port);
        lemma_map_of(t);
        let prev = vlans_of(t, port);
        let cur = vlans_of(s, port);
        assert forall|v: u32| #[trigger]
            cur.contains(v) <==> (crate::table::map_of(s).contains_key(v) && has_port(
                crate::table::map_of(s)[v]@,
                port as int,
            )) by {
            if v == last.0 {
                if prev.contains(v) {
                    let k = choose|k: int| 0 <= k < prev.len() && prev[k] == v;
                    assert(prev[k] <= t.last().0);
                    assert(t.last().0 < last.0);
                }
                if has_port(last.1@, port as int) {
                    assert(cur[cur.len() - 1] == v);
                }
            } else {
                if has_port(last.1@, port as int) {
                    if cur.contains(v) {
                        let k = choose|k: int| 0 <= k < cur.len() && cur[k] == v;
                        assert(prev[k] == v);
                    }
                    if prev.contains(v) {
                        let k = choose|k: int| 0 <= k < prev.len() && prev[k] == v;
                        assert(cur[k] == v);
                    }
                }
            }
        }
    }
}

/// Whether one of the first `n` interfaces of `s` is a port of a kept type.
pub open spec fn kept_among(t: DeviceTables, s: Seq<(u32, u32)>, n: int, p: u32) -> bool {
    value_among(s, n, p) && physical_type(number_at(t.port_types@, p, 0))
}

fn lookup_number(m: &IndexTable<u32>, id: u32, dflt: u32) -> (r: u32)
    requires
        m.wf(),
    ensures
        r == number_at(m@, id, dflt),
{
    match m.get(id) {
        Some(v) => *v,
        None => dflt,
    }
}

pub(crate) fn lookup_text(m: &IndexTable<String>, id: u32) -> (r: Option<String>)
    requires
        m.wf(),
    ensures
        crate::config::text_view(r) == text_at(m@, id),
{
    match m.get(id) {
        Some(v) => Some(v.clone()),
        None => None,
    }
}

/// The known ports of a kept type, ascending.
fn kept_ports(tables: &DeviceTables, ip: &str) -> (r: Vec<u32>)
    requires
        tables.wf(),
    ensures
        ascending(r@),
        forall|p: u32| r@.contains(p) <==> known_port(*tables, p),
{
    let ghost s = tables.port_indices.spec_entries();
    let mut r: Vec<u32> = Vec::new();
    let mut i: usize = 0;
    while i < tables.port_indices.len()
        invariant
            tables.wf(),
            s == tables.port_indices.spec_entries(),
            i <= s.len(),
            ascending(r@),
            forall|p: u32| r@.contains(p) <==> #[trigger] kept_among(*tables, s, i as int, p),
        decreases s.len() - i,
    {
        let port = *tables.port_indices.value_at(i);
        let port_type = lookup_number(&tables.port_types, port, 0);
        let ghost before = r@;
        if is_physical_port(port_type, ip) {
            insert_id(&mut r, port);
        }
        proof {
            assert forall|p: u32|
                #[trigger] value_among(s, i + 1, p) <==> (value_among(s, i as int, p) || p
                    == port) by {
                if p == port {
                    assert(s[i as int].1 == p);
                }
            }
            assert forall|p: u32| r@.contains(p) <==> #[trigger] kept_among(
                *tables,
                s,
                i + 1,
                p,
            ) by {
                assert(value_among(s, i + 1, p) <==> (value_among(s, i as int, p) || p == port));
                assert(before.contains(p) <==> kept_among(*tables, s, i as int, p));
            }
        }
        i = i + 1;
    }
    proof {
        lemma_map_of(s);
        assert forall|p: u32| r@.contains(p) <==> known_port(*tables, p) by {
            assert(r@.contains(p) <==> kept_among(*tables, s, s.len() as int, p));
            if known_port(*tables, p) {
                let k = choose|k: u32| #[trigger]
                    tables.port_indices@.contains_key(k) && tables.port_indices@[k] == p;
                let j = choose|j: int| 0 <= j < s.len() && s[j].0 == k;
                assert(value_among(s, s.len() as int, p));
            }
            if value_among(s, s.len() as int, p) {
                let j = choose|j: int| 0 <= j < s.len() && s[j].1 == p;
                assert(tables.port_indices@.contains_key(s[j].0));
            }
        }
    }
    r
}

/// The alias that the tables give `port`.
fn port_alias(tables: &DeviceTables, port: u32) -> (r: Option<String>)
    requires
        tables.wf(),
    ensures
        crate::config::text_view(r) == alias_of(*tables, port),
{
    match tables.port_aliases.get(port) {
        Some(a) => {
            if a.as_str().is_empty() || a.eq(&decimal_string(port)) {
                None
            } else {
                Some(a.clone())
            }
        },
        None => None,
    }
}

/// The trunk data that the tables give `port`, with the aggregates' VLAN
/// sets taken from `resolved`.
fn port_lacp(
    tables: &DeviceTables,
    resolved: &IndexTable<(Vec<u32>, Vec<u32>)>,
    port: u32,
) -> (r: Option<LacpInfo>)
    requires
        tables.wf(),
        resolved.wf(),
        forall|agg: u32| #[trigger]
            resolved@.contains_key(agg) <==> (agg > 0 && selected(*tables, agg) && aggregate_vlans(
                *tables,
                agg,
            ) is Some),
        forall|agg: u32| #[trigger]
            resolved@.contains_key(agg) ==> pair_view(Some(resolved@[agg])) == aggregate_vlans(
                *tables,
                agg,
            ),
    ensures
        crate::config::lacp_view(r) == lacp_of(*tables, port),
{
    let agg = lookup_number(&tables.lag_selected_agg_ids, port, 0);
    if agg == 0 {
        return None;
    }
    proof {
        assert(tables.lag_selected_agg_ids@.contains_key(port));
        assert(selected(*tables, agg));
    }
    let agg_vlans = match resolved.get(agg) {
        Some(pair) => Some((crate::ids::copy_ids(&pair.0), crate::ids::copy_ids(&pair.1))),
        None => None,
    };
    Some(
        LacpInfo {
            selected_agg_id: agg,
            agg_name: lookup_text(&tables.lag_agg_names, agg),
            agg_vlans,
        },
    )
}

/// Builds the configuration of every known port of a kept type, in
/// ascending port order, from one batch of table snapshots.
pub fn build_port_configs(tables: &DeviceTables, ip: &str) -> (r: Vec<PortConfig>)
    requires
        tables.wf(),
    ensures
        built_from(*tables, views(r@)),
        forall|i: int| 0 <= i < r@.len() ==> #[trigger] r@[i].wf(),
{
    let resolved = resolve_aggregate_vlans(tables);
    let ports = kept_ports(tables, ip);
    let mut r: Vec<PortConfig> = Vec::new();
    let mut i: usize = 0;
    while i < ports.len()
        invariant
            tables.wf(),
            resolved.wf(),
            forall|agg: u32| #[trigger]
                resolved@.contains_key(agg) <==> (agg > 0 && selected(*tables, agg)
                    && aggregate_vlans(*tables, agg) is Some),
            forall|agg: u32| #[trigger]
                resolved@.contains_key(agg) ==> pair_view(Some(resolved@[agg])) == aggregate_vlans(
                    *tables,
                    agg,
                ),
            i <= ports@.len(),
            r@.len() == i,
            forall|j: int| 0 <= j < i ==> #[trigger] r@[j]@.port == ports@[j],
            forall|j: int|
                0 <= j < i ==> #[trigger] r@[j]@.settings == port_settings(*tables, ports@[j]),
            forall|j: int| 0 <= j < i ==> #[trigger] r@[j].wf(),
        decreases ports@.len() - i,
    {
        let port = ports[i];
        let config = PortConfig {
            port_num: port,
            alias: port_alias(tables, port),
            pvid: lookup_number(&tables.port_vlans, port, 0),
            vlan_memberships: vlans_with_port(&tables.vlan_egress_ports, port),
            untagged_vlans: vlans_with_port(&tables.vlan_untagged_ports, port),
            lacp_info: port_lacp(tables, &resolved, port),
        };
        proof {
            let agg = number_at(tables.lag_selected_agg_ids@, port, 0);
            lemma_vlans_of_ascending(tables.vlan_egress_ports.spec_entries(), agg);
            lemma_vlans_of_ascending(tables.vlan_untagged_ports.spec_entries(), agg);
        }
        r.push(config);
        i = i + 1;
    }
    proof {
        let v = views(r@);
        assert forall|p: u32| known_port(*tables, p) <==> exists|j: int|
            0 <= j < v.len() && v[j].port == p by {
            if known_port(*tables, p) {
                assert(ports@.contains(p));
                let j = choose|j: int| 0 <= j < ports@.len() && ports@[j] == p;
                assert(v[j].port == p);
            }
            if exists|j: int| 0 <= j < v.len() && v[j].port == p {
                let j = choose|j: int| 0 <= j < v.len() && v[j].port == p;
                assert(r@[j]@.port == ports@[j]);
                assert(ports@.contains(p));
            }
        }
        assert forall|j: int| 0 <= j < v.len() implies #[trigger] v[j].settings == port_settings(
            *tables,
            v[j].port,
        ) by {
            assert(r@[j]@.port == ports@[j]);
        }
        assert forall|a: int, b: int| 0 <= a < b < v.len() implies v[a].port < v[b].port by {
            assert(r@[a]@.port == ports@[a]);
            assert(r@[b]@.port == ports@[b]);
        }
    }
    r
}

/// The configuration builder is deterministic: two runs on the same table
/// snapshots give structurally equal configurations.
pub proof fn lemma_build_idempotent(t: DeviceTables, a: Seq<PortView>, b: Seq<PortView>)
    requires
        built_from(t, a),
        built_from(t, b),
    ensures
        a == b,
{
    let pa = a.map_values(|c: PortView| c.port);
    let pb = b.map_values(|c: PortView| c.port);
    assert forall|p: u32| pa.contains(p) <==> pb.contains(p) by {
        if pa.contains(p) {
            let i = choose|i: int| 0 <= i < pa.len() && pa[i] == p;
            assert(a[i].port == p);
            assert(known_port(t, p));
            let j = choose|j: int| 0 <= j < b.len() && b[j].port == p;
            assert(pb[j] == p);
        }
        if pb.contains(p) {
            let i = choose|i: int| 0 <= i < pb.len() && pb[i] == p;
            assert(b[i].port == p);
            assert(known_port(t, p));
            let j = choose|j: int| 0 <= j < a.len() && a[j].port == p;
            assert(pa[j] == p);
        }
    }
    crate::ids::lemma_ascending_unique(pa, pb);
    assert(a.len() == pa.len() && b.len() == pb.len());
    assert forall|i: int| 0 <= i < a.len() implies a[i] == b[i] by {
        assert(pa[i] == pb[i]);
        assert(a[i].settings == port_settings(t, a[i].port));
        assert(b[i].settings == port_settings(t, b[i].port));
    }
    assert(a =~= b);
}

} // verus!
