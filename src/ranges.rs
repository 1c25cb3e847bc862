//! Compressing per-port configurations into ranges of contiguous ports
//! with identical configuration.
use vstd::prelude::*;
use crate::builder::{DeviceTables, build_port_configs, built_from, lemma_build_idempotent, views};
use crate::config::{LacpInfo, LacpOverride, PortConfig, PortView, Settings, copy_lacp, copy_text, lacp_view, text_view};
use crate::ids::copy_ids;
use crate::trunks::{apply_lacp_overrides, apply_overrides, apply_trunk_vlans, overlay, override_views};

verus! {

/// Ports `first_port..=last_port`, all with one configuration.
#[derive(Debug, PartialEq, Eq)]
pub struct PortRange {
    pub first_port: u32,
    pub last_port: u32,
    pub alias: Option<String>,
    pub pvid: u32,
    pub vlan_memberships: Vec<u32>,
    pub untagged_vlans: Vec<u32>,
    pub lacp_info: Option<LacpInfo>,
}

/// What a `PortRange` holds.
pub struct RangeView {
    pub first: u32,
    pub last: u32,
    pub settings: Settings,
}

impl View for PortRange {
    type V = RangeView;

    open spec fn view(&self) -> RangeView {
        RangeView {
            first: self.first_port,
            last: self.last_port,
            settings: Settings {
                alias: text_view(self.alias),
                pvid: self.pvid,
                tagged: self.vlan_memberships@,
                untagged: self.untagged_vlans@,
                lacp: lacp_view(self.lacp_info),
            },
        }
    }
}

impl PortRange {
    /// The range is not empty and its VLAN sets are listed ascending.
    pub open spec fn wf(&self) -> bool {
        self.first_port <= self.last_port && crate::config::settings_wf(self@.settings)
    }
}

pub open spec fn range_views(rs: Seq<PortRange>) -> Seq<RangeView> {
    rs.map_values(|r: PortRange| r@)
}

/// Whether port `c` continues range `r`: it is the next port number and has
/// the same configuration.
pub open spec fn continues(r: RangeView, c: PortView) -> bool {
    r.settings == c.settings && c.port as int == r.last as int + 1
}

/// The ranges of `cs`, in one pass from left to right: a port that
/// continues the open range extends it; any other port closes it and opens
/// a range of its own.
pub open spec fn compress(cs: Seq<PortView>) -> Seq<RangeView>
    decreases cs.len(),
{
    if cs.len() == 0 {
        Seq::empty()
    } else {
        let prev = compress(cs.drop_last());
        let c = cs.last();
        if prev.len() > 0 && continues(prev.last(), c) {
            prev.update(
                prev.len() - 1,
                RangeView { first: prev.last().first, last: c.port, settings: prev.last().settings },
            )
        } else {
            prev.push(RangeView { first: c.port, last: c.port, settings: c.settings })
        }
    }
}

/// Whether range `b` could have been merged into range `a`.
pub open spec fn joinable(a: RangeView, b: RangeView) -> bool {
    a.settings == b.settings && b.first as int == a.last as int + 1
}

fn range_of(c: &PortConfig, first: u32, last: u32) -> (r: PortRange)
    ensures
        r@ == (RangeView { first, last, settings: c@.settings }),
{
    PortRange {
        first_port: first,
        last_port: last,
        alias: copy_text(&c.alias),
        pvid: c.pvid,
        vlan_memberships: copy_ids(&c.vlan_memberships),
        untagged_vlans: copy_ids(&c.untagged_vlans),
        lacp_info: copy_lacp(&c.lacp_info),
    }
}

/// Groups contiguous ports with structurally equal configuration into
/// ranges, in a single left-to-right pass.
pub fn compress_ranges(configs: &Vec<PortConfig>) -> (r: Vec<PortRange>)
    ensures
        range_views(r@) == compress(views(configs@)),
{
    let ghost cs = views(configs@);
    let mut ranges: Vec<PortRange> = Vec::new();
    if configs.len() == 0 {
        assert(range_views(ranges@) =~= compress(cs));
        return ranges;
    }
    let mut start: usize = 0;
    let mut first: u32 = configs[0].port_num;
    let mut last: u32 = configs[0].port_num;
    let mut i: usize = 1;
    proof {
        assert(cs.subrange(0, 1).drop_last() =~= Seq::<PortView>::empty());
        assert(cs[0] == configs@[0]@);
        assert(compress(Seq::<PortView>::empty()) == Seq::<RangeView>::empty());
        assert(range_views(ranges@).push(RangeView { first, last, settings: cs[0].settings })
            =~= compress(cs.subrange(0, 1)));
    }
    while i < configs.len()
        invariant
            cs == views(configs@),
            1 <= i <= configs@.len(),
            start < i,
            range_views(ranges@).push(RangeView { first, last, settings: cs[start as int].settings })
                == compress(cs.subrange(0, i as int)),
        decreases configs@.len() - i,
    {
        let ghost prefix = cs.subrange(0, i as int);
        assert(cs.subrange(0, i + 1).drop_last() =~= prefix);
        assert(cs[i as int] == configs@[i as int]@);
        assert(cs[start as int] == configs@[start as int]@);
        let port = configs[i].port_num;
        if last < u32::MAX && port == last + 1 && crate::config::configs_match(&configs[start], &configs[i]) {
            last = port;
            proof {
                assert(range_views(ranges@).push(RangeView { first, last, settings: cs[start as int].settings })
                    =~= compress(cs.subrange(0, i + 1)));
            }
        } else {
            let ghost before = ranges@;
            let emitted = range_of(&configs[start], first, last);
            ranges.push(emitted);
            start = i;
            first = port;
            last = port;
            proof {
                assert(range_views(ranges@) =~= range_views(before).push(emitted@));
                assert(range_views(ranges@).push(RangeView { first, last, settings: cs[start as int].settings })
                    =~= compress(cs.subrange(0, i + 1)));
            }
        }
        i = i + 1;
    }
    let ghost before = ranges@;
    let emitted = range_of(&configs[start], first, last);
    ranges.push(emitted);
    proof {
        assert(cs.subrange(0, cs.len() as int) =~= cs);
        assert(cs[start as int] == configs@[start as int]@);
        assert(range_views(ranges@) =~= range_views(before).push(emitted@));
    }
    ranges
}

/// The ranges are maximal: no range could be merged into the one before it,
/// that is, two neighbouring ranges with equal configuration are never
/// contiguous.
pub proof fn lemma_compress_maximal(cs: Seq<PortView>)
    ensures
        cs.len() > 0 ==> compress(cs).len() > 0 && compress(cs).last().last == cs.last().port,
        forall|i: int|
            0 <= i < compress(cs).len() - 1 ==> !joinable(#[trigger] compress(cs)[i], compress(cs)[i + 1]),
    decreases cs.len(),
{
    if cs.len() > 0 {
        lemma_compress_maximal(cs.drop_last());
    }
}

/// Whether each port number of `cs` is one more than the one before it.
pub open spec fn contiguous(cs: Seq<PortView>) -> bool {
    forall|i: int| 0 <= i < cs.len() - 1 ==> #[trigger] cs[i + 1].port as int == cs[i].port as int + 1
}

/// Over contiguous ports, each range starts right after the one before it.
proof fn lemma_compress_adjacent(cs: Seq<PortView>)
    requires
        contiguous(cs),
    ensures
        cs.len() > 0 ==> compress(cs).len() > 0 && compress(cs).last().last == cs.last().port,
        forall|i: int|
            0 <= i < compress(cs).len() - 1 ==> #[trigger] compress(cs)[i + 1].first as int
                == compress(cs)[i].last as int + 1,
    decreases cs.len(),
{
    if cs.len() > 0 {
        let t = cs.drop_last();
        assert(contiguous(t)) by {
            assert forall|i: int| 0 <= i < t.len() - 1 implies #[trigger] t[i + 1].port as int == t[i].port as int + 1 by {
                assert(cs[i + 1].port as int == cs[i].port as int + 1);
            }
        }
        lemma_compress_adjacent(t);
        if t.len() > 0 {
            let k = t.len() - 1;
            assert(cs[k + 1].port as int == cs[k].port as int + 1);
            assert(cs.last() == cs[k + 1]);
        }
    }
}

/// Over contiguous ports, neighbouring ranges never have equal
/// configuration.
pub proof fn lemma_contiguous_ranges_differ(cs: Seq<PortView>)
    requires
        contiguous(cs),
    ensures
        forall|i: int|
            0 <= i < compress(cs).len() - 1 ==> #[trigger] compress(cs)[i].settings != compress(cs)[i + 1].settings,
{
    lemma_compress_maximal(cs);
    lemma_compress_adjacent(cs);
    assert forall|i: int| 0 <= i < compress(cs).len() - 1 implies #[trigger] compress(cs)[i].settings
        != compress(cs)[i + 1].settings by {
        assert(!joinable(compress(cs)[i], compress(cs)[i + 1]));
        assert(compress(cs)[i + 1].first as int == compress(cs)[i].last as int + 1);
    }
}

/// Whether the port numbers of `cs` are strictly ascending.
pub open spec fn ports_ascending(cs: Seq<PortView>) -> bool {
    forall|i: int, j: int| 0 <= i < j < cs.len() ==> cs[i].port < cs[j].port
}

/// Over ascending ports, every range is non-empty, and every range has the
/// configuration of one of the ports.
pub proof fn lemma_compress_ranges_valid(cs: Seq<PortView>)
    requires
        ports_ascending(cs),
    ensures
        cs.len() > 0 ==> compress(cs).len() > 0 && compress(cs).last().last == cs.last().port,
        forall|k: int| 0 <= k < compress(cs).len() ==> #[trigger] compress(cs)[k].first <= compress(cs)[k].last,
        forall|k: int|
            0 <= k < compress(cs).len() ==> exists|i: int|
                0 <= i < cs.len() && #[trigger] compress(cs)[k].settings == cs[i].settings,
    decreases cs.len(),
{
    if cs.len() > 0 {
        let t = cs.drop_last();
        lemma_compress_ranges_valid(t);
        let prev = compress(t);
        let cur = compress(cs);
        assert forall|k: int| 0 <= k < cur.len() implies exists|i: int|
            0 <= i < cs.len() && #[trigger] cur[k].settings == cs[i].settings by {
            if k < prev.len() {
                let i = choose|i: int| 0 <= i < t.len() && prev[k].settings == t[i].settings;
                assert(cur[k].settings == cs[i].settings);
            } else {
                assert(cur[k].settings == cs[cs.len() - 1].settings);
            }
        }
        if t.len() > 0 {
            assert(t.last().port < cs.last().port);
        }
    }
}

/// The configurations that the tables give, one per known port, ascending.
pub open spec fn configs_of(t: DeviceTables) -> Seq<PortView> {
    choose|cs: Seq<PortView>| built_from(t, cs)
}

/// The report's ranges: the tables' configurations with the overrides
/// applied in order, then the trunk VLAN overlay, then compressed.
pub open spec fn report(t: DeviceTables, os: Seq<(u32, Seq<u32>)>) -> Seq<RangeView> {
    compress(apply_overrides(configs_of(t), t, os).map_values(|c: PortView| overlay(c)))
}

/// Builds the port ranges of the report from one batch of table snapshots
/// and the operator's overrides.
pub fn port_ranges(tables: &DeviceTables, overrides: &Vec<LacpOverride>, ip: &str) -> (r: Vec<PortRange>)
    requires
        tables.wf(),
    ensures
        range_views(r@) == report(*tables, override_views(overrides@)),
        forall|k: int| 0 <= k < r@.len() ==> #[trigger] r@[k].wf(),
{
    let mut configs = build_port_configs(tables, ip);
    let ghost built = views(configs@);
    proof {
        assert(built_from(*tables, built));
        lemma_build_idempotent(*tables, built, configs_of(*tables));
    }
    apply_lacp_overrides(&mut configs, tables, overrides);
    let ghost overridden = views(configs@);
    apply_trunk_vlans(&mut configs);
    let r = compress_ranges(&configs);
    proof {
        let os = override_views(overrides@);
        crate::trunks::lemma_overrides_keep_ports(built, *tables, os);
        let cs = views(configs@);
        assert(cs.len() == built.len());
        assert forall|i: int| 0 <= i < cs.len() implies #[trigger] cs[i].port == built[i].port by {
            assert(cs[i] == overlay(overridden[i]));
        }
        assert(ports_ascending(cs));
        lemma_compress_ranges_valid(cs);
        assert forall|k: int| 0 <= k < r@.len() implies #[trigger] r@[k].wf() by {
            assert(range_views(r@)[k] == r@[k]@);
            assert(range_views(r@) == compress(cs));
            assert(compress(cs)[k].first <= compress(cs)[k].last);
            let i = choose|i: int| 0 <= i < cs.len() && compress(cs)[k].settings == cs[i].settings;
            assert(configs@[i].wf());
            assert(cs[i] == configs@[i]@);
        }
    }
    r
}

} // verus!
