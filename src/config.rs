//! Per-port configuration records and their trunk (link aggregation) data.
use vstd::prelude::*;
use crate::ids::{ascending, copy_ids, ids_equal};

verus! {

/// A port's membership in a trunk (link aggregate).
#[derive(Debug, PartialEq, Eq)]
pub struct LacpInfo {
    /// The id of the aggregate that the port selects.
    pub selected_agg_id: u32,
    /// The aggregate's display name, where known.
    pub agg_name: Option<String>,
    /// The aggregate's own (tagged, untagged) VLAN sets, where it has any.
    pub agg_vlans: Option<(Vec<u32>, Vec<u32>)>,
}

/// The configuration of one port.
#[derive(Debug, PartialEq, Eq)]
pub struct PortConfig {
    pub port_num: u32,
    pub alias: Option<String>,
    /// The VLAN id for untagged ingress traffic; 0 when unset.
    pub pvid: u32,
    /// Tagged VLAN ids, ascending.
    pub vlan_memberships: Vec<u32>,
    /// Untagged VLAN ids, ascending.
    pub untagged_vlans: Vec<u32>,
    pub lacp_info: Option<LacpInfo>,
}

/// An operator's declaration that `target_ports` belong to the trunk
/// interface `source_interface`.
#[derive(Debug, PartialEq, Eq)]
pub struct LacpOverride {
    pub source_interface: u32,
    pub target_ports: Vec<u32>,
}

/// What a `LacpInfo` holds.
pub struct LacpView {
    pub agg_id: u32,
    pub name: Option<Seq<char>>,
    pub vlans: Option<(Seq<u32>, Seq<u32>)>,
}

/// Everything of a port's configuration but its number.
pub struct Settings {
    pub alias: Option<Seq<char>>,
    pub pvid: u32,
    pub tagged: Seq<u32>,
    pub untagged: Seq<u32>,
    pub lacp: Option<LacpView>,
}

/// What a `PortConfig` holds.
pub struct PortView {
    pub port: u32,
    pub settings: Settings,
}

pub open spec fn text_view(t: Option<String>) -> Option<Seq<char>> {
    match t {
        Some(s) => Some(s@),
        None => None,
    }
}

pub open spec fn pair_view(p: Option<(Vec<u32>, Vec<u32>)>) -> Option<(Seq<u32>, Seq<u32>)> {
    match p {
        Some((t, u)) => Some((t@, u@)),
        None => None,
    }
}

impl View for LacpInfo {
    type V = LacpView;

    open spec fn view(&self) -> LacpView {
        LacpView {
            agg_id: self.selected_agg_id,
            name: text_view(self.agg_name),
            vlans: pair_view(self.agg_vlans),
        }
    }
}

pub open spec fn lacp_view(l: Option<LacpInfo>) -> Option<LacpView> {
    match l {
        Some(i) => Some(i@),
        None => None,
    }
}

impl View for PortConfig {
    type V = PortView;

    open spec fn view(&self) -> PortView {
        PortView {
            port: self.port_num,
            settings: Settings {
                alias: text_view(self.alias),
                pvid: self.pvid,
                tagged: self.vlan_memberships@,
                untagged: self.untagged_vlans@,
                lacp: lacp_view(self.lacp_info),
            },
        }
    }
}

/// VLAN sets are listed in ascending order, so that equal sets are equal
/// sequences.
pub open spec fn settings_wf(s: Settings) -> bool {
    &&& ascending(s.tagged)
    &&& ascending(s.untagged)
    &&& match s.lacp {
        Some(l) => match l.vlans {
            Some((t, u)) => ascending(t) && ascending(u),
            None => true,
        },
        None => true,
    }
}

impl PortConfig {
    pub open spec fn wf(&self) -> bool {
        settings_wf(self@.settings)
    }
}

/// A copy of an optional text.
pub fn copy_text(t: &Option<String>) -> (r: Option<String>)
    ensures
        text_view(r) == text_view(*t),
{
    match t {
        Some(s) => Some(s.clone()),
        None => None,
    }
}

/// A copy of an optional pair of VLAN sets.
pub fn copy_pair(p: &Option<(Vec<u32>, Vec<u32>)>) -> (r: Option<(Vec<u32>, Vec<u32>)>)
    ensures
        pair_view(r) == pair_view(*p),
{
    match p {
        Some((t, u)) => Some((copy_ids(t), copy_ids(u))),
        None => None,
    }
}

/// A copy of optional trunk data.
pub fn copy_lacp(l: &Option<LacpInfo>) -> (r: Option<LacpInfo>)
    ensures
        lacp_view(r) == lacp_view(*l),
{
    match l {
        Some(i) => Some(
            LacpInfo {
                selected_agg_id: i.selected_agg_id,
                agg_name: copy_text(&i.agg_name),
                agg_vlans: copy_pair(&i.agg_vlans),
            },
        ),
        None => None,
    }
}

fn texts_equal(a: &Option<String>, b: &Option<String>) -> (r: bool)
    ensures
        r == (text_view(*a) == text_view(*b)),
{
    match (a, b) {
        (Some(x), Some(y)) => x.eq(y),
        (None, None) => true,
        _ => false,
    }
}

fn pairs_equal(a: &Option<(Vec<u32>, Vec<u32>)>, b: &Option<(Vec<u32>, Vec<u32>)>) -> (r: bool)
    ensures
        r == (pair_view(*a) == pair_view(*b)),
{
    match (a, b) {
        (Some((t1, u1)), Some((t2, u2))) => ids_equal(t1, t2) && ids_equal(u1, u2),
        (None, None) => true,
        _ => false,
    }
}

fn lacp_equal(a: &Option<LacpInfo>, b: &Option<LacpInfo>) -> (r: bool)
    ensures
        r == (lacp_view(*a) == lacp_view(*b)),
{
    match (a, b) {
        (Some(x), Some(y)) => x.selected_agg_id == y.selected_agg_id && texts_equal(
            &x.agg_name,
            &y.agg_name,
        ) && pairs_equal(&x.agg_vlans, &y.agg_vlans),
        (None, None) => true,
        _ => false,
    }
}

/// Whether two ports have structurally equal configuration: PVID, both
/// VLAN sets, alias and trunk data.
pub fn configs_match(a: &PortConfig, b: &PortConfig) -> (r: bool)
    ensures
        r == (a@.settings == b@.settings),
{
    a.pvid == b.pvid && ids_equal(&a.vlan_memberships, &b.vlan_memberships) && ids_equal(
        &a.untagged_vlans,
        &b.untagged_vlans,
    ) && texts_equal(&a.alias, &b.alias) && lacp_equal(&a.lacp_info, &b.lacp_info)
}

} // verus!
