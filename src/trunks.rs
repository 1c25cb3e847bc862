//! Operator overrides of trunk membership, and the overlay of trunk VLAN
//! sets onto member ports.
use vstd::prelude::*;
use crate::builder::{DeviceTables, tagged_of, text_at, untagged_of, views, vlans_with_port};
use crate::config::{LacpInfo, LacpOverride, LacpView, PortConfig, PortView, Settings, copy_lacp, copy_text};
use crate::ids::copy_ids;
use crate::numbers::{IntError, fields, lemma_fields_nonempty, parse_u32, parse_u32_text, split_fields};
use crate::text::{decimal, push_decimal};

verus! {

/// The display name given to an overriding trunk: `Trk` and its id.
pub open spec fn trunk_name(id: u32) -> Seq<char> {
    seq!['T', 'r', 'k'] + decimal(id as nat)
}

/// The trunk data that an override with source interface `src` gives.
pub open spec fn override_lacp(t: DeviceTables, src: u32) -> LacpView {
    LacpView {
        agg_id: src,
        name: Some(trunk_name(src)),
        vlans: Some((tagged_of(t, src), untagged_of(t, src))),
    }
}

/// A port's configuration once an override with source `src` applies.
pub open spec fn overridden(c: PortView, t: DeviceTables, src: u32) -> PortView {
    PortView {
        port: c.port,
        settings: Settings {
            alias: text_at(t.port_aliases@, src),
            pvid: c.settings.pvid,
            tagged: c.settings.tagged,
            untagged: c.settings.untagged,
            lacp: Some(override_lacp(t, src)),
        },
    }
}

/// The configurations once one override applies to every listed port.
pub open spec fn apply_override(cs: Seq<PortView>, t: DeviceTables, src: u32, targets: Seq<u32>) -> Seq<PortView> {
    Seq::new(
        cs.len(),
        |i: int|
            if targets.contains(cs[i].port) {
                overridden(cs[i], t, src)
            } else {
                cs[i]
            },
    )
}

pub open spec fn override_views(os: Seq<LacpOverride>) -> Seq<(u32, Seq<u32>)> {
    os.map_values(|o: LacpOverride| (o.source_interface, o.target_ports@))
}

/// The configurations once the overrides `os` apply, in order.
pub open spec fn apply_overrides(cs: Seq<PortView>, t: DeviceTables, os: Seq<(u32, Seq<u32>)>) -> Seq<PortView>
    decreases os.len(),
{
    if os.len() == 0 {
        cs
    } else {
        apply_override(apply_overrides(cs, t, os.drop_last()), t, os.last().0, os.last().1)
    }
}

/// A port's configuration once its trunk's VLAN sets, where it has any,
/// replace its own.
pub open spec fn overlay(c: PortView) -> PortView {
    match c.settings.lacp {
        Some(l) => match l.vlans {
            Some((tagged, untagged)) => if tagged.len() > 0 || untagged.len() > 0 {
                PortView {
                    port: c.port,
                    settings: Settings {
                        alias: c.settings.alias,
                        pvid: c.settings.pvid,
                        tagged,
                        untagged,
                        lacp: c.settings.lacp,
                    },
                }
            } else {
                c
            },
            None => c,
        },
        None => c,
    }
}

pub open spec fn all_wf(cs: Seq<PortConfig>) -> bool {
    forall|i: int| 0 <= i < cs.len() ==> #[trigger] cs[i].wf()
}

/// `Trk` followed by the decimal digits of `id`.
pub fn trunk_display_name(id: u32) -> (r: String)
    ensures
        r@ == trunk_name(id),
{
    proof {
        reveal_strlit("Trk");
    }
    let mut s = String::from_str("Trk");
    push_decimal(&mut s, id);
    proof {
        assert("Trk"@ =~= seq!['T', 'r', 'k']);
    }
    s
}

/// Applies one override: every port that it lists takes the alias of the
/// source interface and synthetic trunk data for it, whatever trunk data
/// the port had before.
pub fn apply_lacp_override(configs: &mut Vec<PortConfig>, tables: &DeviceTables, o: &LacpOverride)
    requires
        tables.wf(),
        all_wf(old(configs)@),
    ensures
        all_wf(final(configs)@),
        views(final(configs)@) == apply_override(
            views(old(configs)@),
            *tables,
            o.source_interface,
            o.target_ports@,
        ),
{
    let src = o.source_interface;
    let tagged = vlans_with_port(&tables.vlan_egress_ports, src);
    let untagged = vlans_with_port(&tables.vlan_untagged_ports, src);
    let ghost old_views = views(configs@);
    let mut i: usize = 0;
    while i < configs.len()
        invariant
            tables.wf(),
            all_wf(configs@),
            tagged@ == tagged_of(*tables, src),
            untagged@ == untagged_of(*tables, src),
            crate::ids::ascending(tagged@),
            crate::ids::ascending(untagged@),
            i <= configs@.len(),
            configs@.len() == old_views.len(),
            forall|j: int|
                0 <= j < configs@.len() ==> #[trigger] views(configs@)[j] == if j < i {
                    apply_override(old_views, *tables, src, o.target_ports@)[j]
                } else {
                    old_views[j]
                },
        decreases configs@.len() - i,
    {
        proof {
            assert(views(configs@)[i as int] == configs@[i as int]@);
            assert(configs@[i as int].wf());
        }
        let mut listed = false;
        let mut k: usize = 0;
        while k < o.target_ports.len()
            invariant
                k <= o.target_ports@.len(),
                i < configs@.len(),
                listed == o.target_ports@.subrange(0, k as int).contains(configs@[i as int].port_num),
            decreases o.target_ports@.len() - k,
        {
            let ghost before = listed;
            if o.target_ports[k] == configs[i].port_num {
                listed = true;
            }
            proof {
                let p = configs@[i as int].port_num;
                let prev = o.target_ports@.subrange(0, k as int);
                let next = o.target_ports@.subrange(0, k + 1);
                assert(next =~= prev.push(o.target_ports@[k as int]));
                if next.contains(p) {
                    let j = choose|j: int| 0 <= j < next.len() && next[j] == p;
                    if j < k {
                        assert(prev[j] == p);
                    }
                }
                if prev.contains(p) {
                    let j = choose|j: int| 0 <= j < prev.len() && prev[j] == p;
                    assert(next[j] == p);
                }
                if o.target_ports@[k as int] == p {
                    assert(next[k as int] == p);
                }
            }
            k = k + 1;
        }
        proof {
            assert(o.target_ports@.subrange(0, o.target_ports@.len() as int) =~= o.target_ports@);
        }
        if listed {
            let c = &configs[i];
            let updated = PortConfig {
                port_num: c.port_num,
                alias: crate::builder::lookup_text(&tables.port_aliases, src),
                pvid: c.pvid,
                vlan_memberships: copy_ids(&c.vlan_memberships),
                untagged_vlans: copy_ids(&c.untagged_vlans),
                lacp_info: Some(
                    LacpInfo {
                        selected_agg_id: src,
                        agg_name: Some(trunk_display_name(src)),
                        agg_vlans: Some((copy_ids(&tagged), copy_ids(&untagged))),
                    },
                ),
            };
            let ghost prev = configs@;
            assert(updated.wf());
            configs.set(i, updated);
            proof {
                assert forall|j: int| 0 <= j < configs@.len() implies #[trigger] configs@[j].wf() by {
                    if j != i {
                        assert(configs@[j] == prev[j]);
                    }
                }
                assert forall|j: int| 0 <= j < configs@.len() implies #[trigger] views(configs@)[j]
                    == views(prev)[j] || j == i by {
                    if j != i {
                        assert(configs@[j] == prev[j]);
                    }
                }
            }
        }
        proof {
            assert(views(configs@)[i as int] == configs@[i as int]@);
            assert(views(configs@)[i as int] == apply_override(old_views, *tables, src, o.target_ports@)[i as int]);
        }
        i = i + 1;
    }
    assert(views(configs@) =~= apply_override(old_views, *tables, src, o.target_ports@));
}

/// Applies the overrides in order; a later one supersedes an earlier one,
/// and both supersede the trunk data read from the device.
pub fn apply_lacp_overrides(
    configs: &mut Vec<PortConfig>,
    tables: &DeviceTables,
    overrides: &Vec<LacpOverride>,
)
    requires
        tables.wf(),
        all_wf(old(configs)@),
    ensures
        all_wf(final(configs)@),
        views(final(configs)@) == apply_overrides(
            views(old(configs)@),
            *tables,
            override_views(overrides@),
        ),
{
    let ghost start = views(configs@);
    let mut i: usize = 0;
    while i < overrides.len()
        invariant
            tables.wf(),
            all_wf(configs@),
            i <= overrides@.len(),
            views(configs@) == apply_overrides(
                start,
                *tables,
                override_views(overrides@).subrange(0, i as int),
            ),
        decreases overrides@.len() - i,
    {
        apply_lacp_override(configs, tables, &overrides[i]);
        proof {
            let os = override_views(overrides@);
            assert(os.subrange(0, i + 1).drop_last() =~= os.subrange(0, i as int));
        }
        i = i + 1;
    }
    assert(override_views(overrides@).subrange(0, overrides@.len() as int) =~= override_views(overrides@));
}

/// Replaces each port's VLAN sets by those of its trunk, where the trunk
/// has any.
pub fn apply_trunk_vlans(configs: &mut Vec<PortConfig>)
    requires
        all_wf(old(configs)@),
    ensures
        all_wf(final(configs)@),
        views(final(configs)@) == views(old(configs)@).map_values(|c: PortView| overlay(c)),
{
    let ghost old_views = views(configs@);
    let mut i: usize = 0;
    while i < configs.len()
        invariant
            all_wf(configs@),
            i <= configs@.len(),
            configs@.len() == old_views.len(),
            forall|j: int|
                0 <= j < configs@.len() ==> #[trigger] views(configs@)[j] == if j < i {
                    overlay(old_views[j])
                } else {
                    old_views[j]
                },
        decreases configs@.len() - i,
    {
        proof {
            assert(views(configs@)[i as int] == configs@[i as int]@);
            assert(configs@[i as int].wf());
        }
        let c = &configs[i];
        let mut replacement: Option<(Vec<u32>, Vec<u32>)> = None;
        match &c.lacp_info {
            Some(l) => match &l.agg_vlans {
                Some((tagged, untagged)) => {
                    if tagged.len() > 0 || untagged.len() > 0 {
                        replacement = Some((copy_ids(tagged), copy_ids(untagged)));
                    }
                },
                None => {},
            },
            None => {},
        }
        match replacement {
            Some((tagged, untagged)) => {
                let updated = PortConfig {
                    port_num: c.port_num,
                    alias: copy_text(&c.alias),
                    pvid: c.pvid,
                    vlan_memberships: tagged,
                    untagged_vlans: untagged,
                    lacp_info: copy_lacp(&c.lacp_info),
                };
                let ghost prev = configs@;
                assert(updated.wf());
                configs.set(i, updated);
                proof {
                    assert forall|j: int| 0 <= j < configs@.len() implies #[trigger] configs@[j].wf() by {
                        if j != i {
                            assert(configs@[j] == prev[j]);
                        }
                    }
                    assert forall|j: int| 0 <= j < configs@.len() implies #[trigger] views(configs@)[j]
                        == views(prev)[j] || j == i by {
                        if j != i {
                            assert(configs@[j] == prev[j]);
                        }
                    }
                }
            },
            None => {},
        }
        proof {
            assert(views(configs@)[i as int] == configs@[i as int]@);
            assert(views(configs@)[i as int] == overlay(old_views[i as int]));
        }
        i = i + 1;
    }
    assert(views(configs@) =~= old_views.map_values(|c: PortView| overlay(c)));
}

/// Where a port's trunk has VLAN sets, they replace the port's own sets
/// entirely: the result is never a union.
pub proof fn lemma_overlay_replaces(c: PortView, trunk: LacpView, tagged: Seq<u32>, untagged: Seq<u32>)
    requires
        c.settings.lacp == Some(trunk),
        trunk.vlans == Some((tagged, untagged)),
        tagged.len() > 0 || untagged.len() > 0,
    ensures
        overlay(c).settings.tagged == tagged,
        overlay(c).settings.untagged == untagged,
{
}

/// A later override of a port wins: whatever trunk data and alias the port
/// had, the last override that lists it decides both, before and after the
/// trunk VLAN overlay.
pub proof fn lemma_override_precedence(
    cs: Seq<PortView>,
    t: DeviceTables,
    os: Seq<(u32, Seq<u32>)>,
    i: int,
)
    requires
        os.len() > 0,
        0 <= i < cs.len(),
        os.last().1.contains(cs[i].port),
    ensures
        apply_overrides(cs, t, os)[i].settings.alias == text_at(t.port_aliases@, os.last().0),
        apply_overrides(cs, t, os)[i].settings.lacp == Some(override_lacp(t, os.last().0)),
        overlay(apply_overrides(cs, t, os)[i]).settings.alias == text_at(t.port_aliases@, os.last().0),
        overlay(apply_overrides(cs, t, os)[i]).settings.lacp == Some(override_lacp(t, os.last().0)),
{
    lemma_overrides_keep_ports(cs, t, os.drop_last());
}

/// Overrides keep the number and the order of the ports.
pub proof fn lemma_overrides_keep_ports(cs: Seq<PortView>, t: DeviceTables, os: Seq<(u32, Seq<u32>)>)
    ensures
        apply_overrides(cs, t, os).len() == cs.len(),
        forall|i: int| 0 <= i < cs.len() ==> #[trigger] apply_overrides(cs, t, os)[i].port == cs[i].port,
    decreases os.len(),
{
    if os.len() > 0 {
        lemma_overrides_keep_ports(cs, t, os.drop_last());
    }
}

/// How Rust describes why a text is not a number.
pub open spec fn int_error_text(e: IntError) -> Seq<char> {
    match e {
        IntError::Empty => "cannot parse integer from empty string"@,
        IntError::InvalidDigit => "invalid digit found in string"@,
        IntError::PosOverflow => "number too large to fit in target type"@,
    }
}

fn int_error_str(e: IntError) -> (r: &'static str)
    ensures
        r@ == int_error_text(e),
{
    match e {
        IntError::Empty => "cannot parse integer from empty string",
        IntError::InvalidDigit => "invalid digit found in string",
        IntError::PosOverflow => "number too large to fit in target type",
    }
}

/// Reads each text as a number, in order; the first that is none decides
/// the error.
pub open spec fn parse_all(fs: Seq<Seq<char>>) -> Result<Seq<u32>, IntError>
    decreases fs.len(),
{
    if fs.len() == 0 {
        Ok(Seq::empty())
    } else {
        match parse_all(fs.drop_last()) {
            Err(e) => Err(e),
            Ok(v) => match parse_u32(fs.last()) {
                Ok(x) => Ok(v.push(x)),
                Err(e) => Err(e),
            },
        }
    }
}

/// What an override declaration `source:target,target,...` means: the
/// source interface and the target ports, or the warning that rejects it.
pub open spec fn override_of(s: Seq<char>) -> Result<(u32, Seq<u32>), Seq<char>> {
    let parts = fields(s, ':');
    if parts.len() != 2 {
        Err("Invalid format. Expected: source_interface:target_ports"@)
    } else {
        match parse_u32(parts[0]) {
            Err(e) => Err("Invalid source interface number: "@ + int_error_text(e)),
            Ok(src) => match parse_all(fields(parts[1], ',')) {
                Err(e) => Err("Invalid target port number: "@ + int_error_text(e)),
                Ok(targets) => Ok((src, targets)),
            },
        }
    }
}

fn error_text(prefix: &str, e: IntError) -> (r: String)
    ensures
        r@ == prefix@ + int_error_text(e),
{
    let mut m = String::from_str(prefix);
    m.append(int_error_str(e));
    m
}

/// Parses an override declaration `source:target,target,...`.
pub fn parse_lacp_override(override_str: &str) -> (r: Result<LacpOverride, String>)
    ensures
        match r {
            Ok(o) => override_of(override_str@) == Ok::<(u32, Seq<u32>), Seq<char>>(
                (o.source_interface, o.target_ports@),
            ),
            Err(m) => override_of(override_str@) == Err::<(u32, Seq<u32>), Seq<char>>(m@),
        },
{
    let parts = split_fields(override_str, ':');
    proof {
        lemma_fields_nonempty(override_str@, ':');
    }
    let ghost part_views = parts@.map_values(|f: String| f@);
    if parts.len() != 2 {
        return Err(String::from_str("Invalid format. Expected: source_interface:target_ports"));
    }
    assert(part_views[0] == parts@[0]@ && part_views[1] == parts@[1]@);
    let source_interface = match parse_u32_text(parts[0].as_str()) {
        Ok(v) => v,
        Err(e) => {
            return Err(error_text("Invalid source interface number: ", e));
        },
    };
    let targets = split_fields(parts[1].as_str(), ',');
    let ghost tv = targets@.map_values(|f: String| f@);
    let mut target_ports: Vec<u32> = Vec::new();
    let mut i: usize = 0;
    while i < targets.len()
        invariant
            i <= targets@.len(),
            tv == targets@.map_values(|f: String| f@),
            part_views == fields(override_str@, ':'),
            part_views.len() == 2,
            tv == fields(part_views[1], ','),
            parse_u32(part_views[0]) == Ok::<u32, IntError>(source_interface),
            parse_all(tv.subrange(0, i as int)) == Ok::<Seq<u32>, IntError>(target_ports@),
        decreases targets@.len() - i,
    {
        assert(tv.subrange(0, i + 1).drop_last() =~= tv.subrange(0, i as int));
        assert(tv[i as int] == targets@[i as int]@);
        match parse_u32_text(targets[i].as_str()) {
            Ok(v) => {
                target_ports.push(v);
            },
            Err(e) => {
                proof {
                    lemma_parse_all_err_stays(tv, i + 1);
                }
                return Err(error_text("Invalid target port number: ", e));
            },
        }
        i = i + 1;
    }
    assert(tv.subrange(0, tv.len() as int) =~= tv);
    Ok(LacpOverride { source_interface, target_ports })
}

/// Once reading fails, every longer prefix fails with the same error.
proof fn lemma_parse_all_err_stays(fs: Seq<Seq<char>>, n: int)
    requires
        0 <= n <= fs.len(),
        parse_all(fs.subrange(0, n)) is Err,
    ensures
        parse_all(fs) == parse_all(fs.subrange(0, n)),
    decreases fs.len() - n,
{
    if n < fs.len() {
        assert(fs.subrange(0, n + 1).drop_last() =~= fs.subrange(0, n));
        lemma_parse_all_err_stays(fs, n + 1);
    } else {
        assert(fs.subrange(0, n) =~= fs);
    }
}

} // verus!
