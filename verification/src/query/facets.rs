//! Facet groups: for each field a format offers, the most frequent values
//! among the visible events, with their counts.
use vstd::prelude::*;
use crate::log::event::LogEvent;
use crate::log::format::LogFormat;
use crate::query::tally::{
    distinct_of, group_values, lemma_ranked, rows_view, sort_rows, tally_rows, top_rows,
};
use crate::text::str_to_string;

verus! {

/// How many values a low-cardinality group shows.
pub const TOP_LO: usize = 50;

/// How many values a high-cardinality group shows.
pub const TOP_HI: usize = 15;

/// One facet group: its field, its title, the values shown with their
/// counts, and how many distinct values there were before the cut.
#[derive(Debug, Clone)]
pub struct FacetGroup {
    pub key: String,
    pub label: String,
    pub values: Vec<(String, usize)>,
    pub distinct: usize,
}

/// The facet groups of the visible events, in the format's order.
#[derive(Debug, Clone)]
pub struct FacetIndex {
    pub groups: Vec<FacetGroup>,
}

impl Default for FacetIndex {
    fn default() -> (r: FacetIndex)
        ensures
            r.groups@.len() == 0,
    {
        FacetIndex { groups: Vec::new() }
    }
}

/// Which field a group counts, its title, and how many values it shows.
#[derive(Debug, Clone, Copy)]
pub struct GroupSpec {
    pub key: &'static str,
    pub label: &'static str,
    pub top: usize,
}

pub open spec fn spec_view(g: GroupSpec) -> (Seq<char>, Seq<char>, nat) {
    (g.key@, g.label@, g.top as nat)
}

pub open spec fn specs_view(gs: Seq<GroupSpec>) -> Seq<(Seq<char>, Seq<char>, nat)> {
    gs.map_values(|g: GroupSpec| spec_view(g))
}

/// The groups each format offers.
pub open spec fn group_specs(f: LogFormat) -> Seq<(Seq<char>, Seq<char>, nat)> {
    let lo = TOP_LO as nat;
    let hi = TOP_HI as nat;
    match f {
        LogFormat::SymfonyMonolog => seq![
            ("level"@, "Level"@, lo),
            ("channel"@, "Channel"@, lo),
            ("exception"@, "Exception"@, hi),
        ],
        LogFormat::PhpError => seq![("type"@, "Type"@, lo), ("file"@, "File"@, hi)],
        LogFormat::NginxAccess | LogFormat::ApacheAccess => seq![
            ("status_class"@, "Status class"@, lo),
            ("status"@, "Status"@, lo),
            ("method"@, "Method"@, lo),
            ("vhost"@, "Vhost"@, hi),
            ("country"@, "Country"@, hi),
            ("subnet"@, "Subnet /24"@, hi),
            ("ip"@, "Client IP"@, hi),
        ],
        LogFormat::NginxError => seq![
            ("level"@, "Level"@, lo),
            ("process"@, "Process"@, lo),
            ("country"@, "Country"@, hi),
            ("subnet"@, "Subnet /24"@, hi),
            ("ip"@, "Client IP"@, hi),
        ],
        LogFormat::ApacheError => seq![
            ("level"@, "Level"@, lo),
            ("module"@, "Module"@, lo),
            ("country"@, "Country"@, hi),
            ("subnet"@, "Subnet /24"@, hi),
            ("ip"@, "Client IP"@, hi),
        ],
        LogFormat::Generic => seq![("level"@, "Level"@, lo)],
    }
}

/// A group that shows up to `TOP_LO` values.
pub fn lo(key: &'static str, label: &'static str) -> (g: GroupSpec)
    ensures
        g.key@ == key@,
        g.label@ == label@,
        g.top == TOP_LO,
{
    GroupSpec { key, label, top: TOP_LO }
}

/// A group that shows up to `TOP_HI` values.
pub fn hi(key: &'static str, label: &'static str) -> (g: GroupSpec)
    ensures
        g.key@ == key@,
        g.label@ == label@,
        g.top == TOP_HI,
{
    GroupSpec { key, label, top: TOP_HI }
}

pub fn groups_for(format: LogFormat) -> (r: Vec<GroupSpec>)
    ensures
        specs_view(r@) == group_specs(format),
{
    let mut v: Vec<GroupSpec> = Vec::new();
    match format {
        LogFormat::SymfonyMonolog => {
            v.push(lo("level", "Level"));
            v.push(lo("channel", "Channel"));
            v.push(hi("exception", "Exception"));
        },
        LogFormat::PhpError => {
            v.push(lo("type", "Type"));
            v.push(hi("file", "File"));
        },
        LogFormat::NginxAccess | LogFormat::ApacheAccess => {
            v.push(lo("status_class", "Status class"));
            v.push(lo("status", "Status"));
            v.push(lo("method", "Method"));
            v.push(hi("vhost", "Vhost"));
            v.push(hi("country", "Country"));
            v.push(hi("subnet", "Subnet /24"));
            v.push(hi("ip", "Client IP"));
        },
        LogFormat::NginxError => {
            v.push(lo("level", "Level"));
            v.push(lo("process", "Process"));
            v.push(hi("country", "Country"));
            v.push(hi("subnet", "Subnet /24"));
            v.push(hi("ip", "Client IP"));
        },
        LogFormat::ApacheError => {
            v.push(lo("level", "Level"));
            v.push(lo("module", "Module"));
            v.push(hi("country", "Country"));
            v.push(hi("subnet", "Subnet /24"));
            v.push(hi("ip", "Client IP"));
        },
        LogFormat::Generic => {
            v.push(lo("level", "Level"));
        },
    }
    assert(specs_view(v@) =~= group_specs(format));
    v
}

/// `g` is the facet group of spec `sp` over the visible events.
pub open spec fn group_ok(
    sp: (Seq<char>, Seq<char>, nat),
    evs: Seq<LogEvent>,
    vis: Seq<u32>,
    g: FacetGroup,
) -> bool {
    let vals = group_values(evs, vis, sp.0);
    &&& g.key@ == sp.0
    &&& g.label@ == sp.1
    &&& g.distinct == distinct_of(vals)
    &&& top_rows(rows_view(g.values@), vals, sp.2)
}

/// The specs, in order, whose field some visible event has (non-empty).
pub open spec fn shown(
    sps: Seq<(Seq<char>, Seq<char>, nat)>,
    evs: Seq<LogEvent>,
    vis: Seq<u32>,
) -> Seq<(Seq<char>, Seq<char>, nat)>
    decreases sps.len(),
{
    if sps.len() == 0 {
        Seq::empty()
    } else {
        let p = shown(sps.drop_last(), evs, vis);
        if group_values(evs, vis, sps.last().0).len() > 0 {
            p.push(sps.last())
        } else {
            p
        }
    }
}

pub open spec fn visible_ok(evs: Seq<LogEvent>, vis: Seq<u32>) -> bool {
    forall|i: int| 0 <= i < vis.len() ==> (#[trigger] vis[i]) < evs.len()
}

/// The group of `spec` over the visible events; `None` when no visible
/// event has a non-empty value for it.
pub fn compute_one(spec: GroupSpec, events: &Vec<LogEvent>, visible: &Vec<u32>) -> (r: Option<
    FacetGroup,
>)
    requires
        visible_ok(events@, visible@),
    ensures
        r is None <==> group_values(events@, visible@, spec.key@).len() == 0,
        r matches Some(g) ==> group_ok(spec_view(spec), events@, visible@, g),
{
    let rows = tally_rows(events, visible, spec.key);
    let ghost vals = group_values(events@, visible@, spec.key@);
    let ghost t = rows_view(rows@);
    proof {
        crate::query::tally::lemma_tally_len(t, vals);
    }
    let distinct = rows.len();
    if distinct == 0 {
        return None;
    }
    let mut values = sort_rows(rows);
    proof {
        lemma_ranked(t, rows_view(values@), vals, spec.top as nat);
    }
    let ghost s = rows_view(values@);
    values.truncate(spec.top);
    assert(rows_view(values@) =~= s.take(
        if (spec.top as nat) < s.len() {
            spec.top as int
        } else {
            s.len() as int
        },
    ));
    Some(
        FacetGroup {
            key: str_to_string(spec.key),
            label: str_to_string(spec.label),
            values,
            distinct,
        },
    )
}

/// The facet groups of `format` over the visible events, leaving out the
/// groups no visible event has a value for.
pub fn compute(format: LogFormat, events: &Vec<LogEvent>, visible: &Vec<u32>) -> (r: FacetIndex)
    requires
        visible_ok(events@, visible@),
    ensures
        r.groups@.len() == shown(group_specs(format), events@, visible@).len(),
        forall|i: int|
            0 <= i < r.groups@.len() ==> group_ok(
                shown(group_specs(format), events@, visible@)[i],
                events@,
                visible@,
                #[trigger] r.groups@[i],
            ),
{
    let specs = groups_for(format);
    let ghost sv = specs_view(specs@);
    let mut groups: Vec<FacetGroup> = Vec::new();
    let mut k: usize = 0;
    assert(sv.take(0) =~= Seq::<(Seq<char>, Seq<char>, nat)>::empty());
    while k < specs.len()
        invariant
            k <= specs@.len(),
            sv == specs_view(specs@),
            visible_ok(events@, visible@),
            groups@.len() == shown(sv.take(k as int), events@, visible@).len(),
            forall|i: int|
                0 <= i < groups@.len() ==> group_ok(
                    shown(sv.take(k as int), events@, visible@)[i],
                    events@,
                    visible@,
                    #[trigger] groups@[i],
                ),
        decreases specs@.len() - k,
    {
        let ghost before = shown(sv.take(k as int), events@, visible@);
        assert(sv.take(k + 1).drop_last() =~= sv.take(k as int));
        assert(sv.take(k + 1).last() == spec_view(specs@[k as int]));
        let sp = specs[k];
        match compute_one(sp, events, visible) {
            Some(g) => {
                groups.push(g);
                assert(shown(sv.take(k + 1), events@, visible@) == before.push(spec_view(sp)));
            },
            None => {
                assert(shown(sv.take(k + 1), events@, visible@) == before);
            },
        }
        k = k + 1;
    }
    assert(sv.take(specs@.len() as int) =~= sv);
    FacetIndex { groups }
}

} // verus!
