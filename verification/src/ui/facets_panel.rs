//! The facets panel: its lines, the cursor that walks the values, and the
//! slice of lines that fits on screen.
use vstd::prelude::*;
use crate::query::facets::{FacetGroup, FacetIndex};
use crate::query::filter::{selected, Filter};
use crate::text::{truncate, truncated};

verus! {

pub struct FacetsPanel;

/// A position among all the values of all groups, counted across groups.
#[derive(Debug, Clone, Copy)]
pub struct FacetCursor {
    pub flat: usize,
}

impl Default for FacetCursor {
    fn default() -> (r: FacetCursor)
        ensures
            r.flat == 0,
    {
        FacetCursor { flat: 0 }
    }
}

/// How many values the groups show in all.
pub open spec fn values_total(gs: Seq<FacetGroup>) -> nat
    decreases gs.len(),
{
    if gs.len() == 0 {
        0
    } else {
        values_total(gs.drop_last()) + gs.last().values@.len()
    }
}

pub proof fn lemma_values_total_prefix(gs: Seq<FacetGroup>, g: int)
    requires
        0 <= g <= gs.len(),
    ensures
        values_total(gs.take(g)) <= values_total(gs),
        g < gs.len() ==> values_total(gs.take(g + 1)) == values_total(gs.take(g))
            + gs[g].values@.len(),
    decreases gs.len() - g,
{
    if g < gs.len() {
        assert(gs.take(g + 1).drop_last() =~= gs.take(g));
        lemma_values_total_prefix(gs, g + 1);
    } else {
        assert(gs.take(g) =~= gs);
    }
}

impl FacetCursor {
    /// The group and value the cursor is on, if it is on one.
    pub fn locate(&self, index: &FacetIndex) -> (r: Option<(usize, usize)>)
        requires
            values_total(index.groups@) <= usize::MAX,
        ensures
            match r {
                Some((g, v)) => g < index.groups@.len() && v < index.groups@[g as int].values@.len()
                    && self.flat == values_total(index.groups@.take(g as int)) + v,
                None => self.flat >= values_total(index.groups@),
            },
            r is Some <==> self.flat < values_total(index.groups@),
    {
        let ghost gs = index.groups@;
        let mut offset: usize = 0;
        let mut g: usize = 0;
        assert(gs.take(0) =~= Seq::<FacetGroup>::empty());
        while g < index.groups.len()
            invariant
                gs == index.groups@,
                values_total(gs) <= usize::MAX,
                g <= gs.len(),
                offset == values_total(gs.take(g as int)),
                self.flat >= offset,
            decreases gs.len() - g,
        {
            proof {
                lemma_values_total_prefix(gs, g as int);
                lemma_values_total_prefix(gs, (g + 1) as int);
            }
            let n = index.groups[g].values.len();
            if self.flat - offset < n {
                proof {
                    lemma_prefix_mono(gs, (g + 1) as int, gs.len() as int);
                    assert(gs.take(gs.len() as int) =~= gs);
                }
                return Some((g, self.flat - offset));
            }
            offset = offset + n;
            g = g + 1;
        }
        assert(gs.take(gs.len() as int) =~= gs);
        None
    }

    /// How many values the groups show in all.
    pub fn total(index: &FacetIndex) -> (n: usize)
        requires
            values_total(index.groups@) <= usize::MAX,
        ensures
            n == values_total(index.groups@),
    {
        let ghost gs = index.groups@;
        let mut n: usize = 0;
        let mut g: usize = 0;
        assert(gs.take(0) =~= Seq::<FacetGroup>::empty());
        while g < index.groups.len()
            invariant
                gs == index.groups@,
                values_total(gs) <= usize::MAX,
                g <= gs.len(),
                n == values_total(gs.take(g as int)),
            decreases gs.len() - g,
        {
            proof {
                lemma_values_total_prefix(gs, g as int);
                lemma_values_total_prefix(gs, (g + 1) as int);
            }
            n = n + index.groups[g].values.len();
            g = g + 1;
        }
        assert(gs.take(gs.len() as int) =~= gs);
        n
    }
}

/// A line of the facets panel.
#[derive(Debug, Clone)]
pub enum FacetLine {
    /// A group's title.
    Header(String),
    /// A value (cut to 16 characters), its count, and whether the filter
    /// selects it.
    Value(String, usize, bool),
    /// How many more distinct values the group has than it shows.
    More(usize),
}

/// A line of the panel as text and numbers.
pub enum LineView {
    Header(Seq<char>),
    Value(Seq<char>, usize, bool),
    More(usize),
}

pub open spec fn line_view(l: FacetLine) -> LineView {
    match l {
        FacetLine::Header(s) => LineView::Header(s@),
        FacetLine::Value(s, n, b) => LineView::Value(s@, n, b),
        FacetLine::More(n) => LineView::More(n),
    }
}

pub open spec fn lines_view(ls: Seq<FacetLine>) -> Seq<LineView> {
    ls.map_values(|l: FacetLine| line_view(l))
}

/// The value lines of a group, for the values `vs`.
pub open spec fn value_lines(
    key: Seq<char>,
    vs: Seq<(String, usize)>,
    sel: crate::query::filter::SelView,
) -> Seq<LineView>
    decreases vs.len(),
{
    if vs.len() == 0 {
        Seq::empty()
    } else {
        let v = vs.last();
        value_lines(key, vs.drop_last(), sel).push(
            LineView::Value(truncated(v.0@, 16), v.1, selected(sel, key, v.0@)),
        )
    }
}

/// The lines of one group: title, values, and the "more" line when the
/// group has more distinct values than it shows.
pub open spec fn group_lines(g: FacetGroup, sel: crate::query::filter::SelView) -> Seq<LineView> {
    let head = seq![LineView::Header(g.label@)] + value_lines(g.key@, g.values@, sel);
    if g.distinct > g.values@.len() {
        head.push(LineView::More((g.distinct - g.values@.len()) as usize))
    } else {
        head
    }
}

pub open spec fn panel_lines(gs: Seq<FacetGroup>, sel: crate::query::filter::SelView) -> Seq<LineView>
    decreases gs.len(),
{
    if gs.len() == 0 {
        Seq::empty()
    } else {
        panel_lines(gs.drop_last(), sel) + group_lines(gs.last(), sel)
    }
}

/// The line a value sits on: the lines of the groups before it, its
/// group's title, then the values before it.
pub open spec fn value_row(gs: Seq<FacetGroup>, sel: crate::query::filter::SelView, g: int, v: int) -> int {
    panel_lines(gs.take(g), sel).len() + 1 + v
}

fn group_lines_of(g: &FacetGroup, filter: &Filter) -> (r: Vec<FacetLine>)
    ensures
        lines_view(r@) == group_lines(*g, filter.selections.view_sel()),
{
    let mut out: Vec<FacetLine> = Vec::new();
    out.push(FacetLine::Header(g.label.clone()));
    let ghost sel = filter.selections.view_sel();
    let mut i: usize = 0;
    assert(g.values@.take(0) =~= Seq::<(String, usize)>::empty());
    while i < g.values.len()
        invariant
            i <= g.values@.len(),
            sel == filter.selections.view_sel(),
            lines_view(out@) == seq![LineView::Header(g.label@)] + value_lines(
                g.key@,
                g.values@.take(i as int),
                sel,
            ),
        decreases g.values@.len() - i,
    {
        let ghost before = out@;
        let value = &g.values[i].0;
        let count = g.values[i].1;
        let on = filter.selections.contains(g.key.as_str(), value.as_str());
        out.push(FacetLine::Value(truncate(value.as_str(), 16), count, on));
        assert(g.values@.take(i + 1).drop_last() =~= g.values@.take(i as int));
        assert(lines_view(out@) =~= lines_view(before).push(
            LineView::Value(truncated(value@, 16), count, on),
        ));
        i = i + 1;
    }
    assert(g.values@.take(g.values@.len() as int) =~= g.values@);
    if g.distinct > g.values.len() {
        let ghost before = out@;
        out.push(FacetLine::More(g.distinct - g.values.len()));
        assert(lines_view(out@) =~= lines_view(before).push(
            LineView::More((g.distinct - g.values@.len()) as usize),
        ));
    }
    out
}

impl FacetsPanel {
    /// The panel's lines, top to bottom.
    pub fn lines(facets: &FacetIndex, filter: &Filter) -> (r: Vec<FacetLine>)
        ensures
            lines_view(r@) == panel_lines(facets.groups@, filter.selections.view_sel()),
    {
        let ghost gs = facets.groups@;
        let ghost sel = filter.selections.view_sel();
        let mut out: Vec<FacetLine> = Vec::new();
        let mut k: usize = 0;
        assert(gs.take(0) =~= Seq::<FacetGroup>::empty());
        while k < facets.groups.len()
            invariant
                gs == facets.groups@,
                sel == filter.selections.view_sel(),
                k <= gs.len(),
                lines_view(out@) == panel_lines(gs.take(k as int), sel),
            decreases gs.len() - k,
        {
            let ghost before = out@;
            let mut more = group_lines_of(&facets.groups[k], filter);
            out.append(&mut more);
            assert(gs.take(k + 1).drop_last() =~= gs.take(k as int));
            assert(lines_view(out@) =~= lines_view(before) + group_lines(gs[k as int], sel));
            k = k + 1;
        }
        assert(gs.take(gs.len() as int) =~= gs);
        out
    }

    /// The value shown on line `row` of the panel, as a cursor position;
    /// `None` for a title, a "more" line or a row past the end.
    pub fn value_at_row(facets: &FacetIndex, filter: &Filter, row: usize) -> (r: Option<usize>)
        requires
            values_total(facets.groups@) <= usize::MAX,
            panel_lines(facets.groups@, filter.selections.view_sel()).len() <= usize::MAX,
        ensures
            r matches Some(f) ==> shows_value(
                facets.groups@,
                filter.selections.view_sel(),
                row as int,
                f as int,
            ),
            r is None ==> forall|g: int, v: int|
                0 <= g < facets.groups@.len() && 0 <= v < facets.groups@[g].values@.len()
                    ==> #[trigger] value_row(facets.groups@, filter.selections.view_sel(), g, v)
                    != row,
    {
        let ghost gs = facets.groups@;
        let ghost sel = filter.selections.view_sel();
        let mut row0: usize = 0;
        let mut offset: usize = 0;
        let mut k: usize = 0;
        assert(gs.take(0) =~= Seq::<FacetGroup>::empty());
        while k < facets.groups.len()
            invariant
                gs == facets.groups@,
                sel == filter.selections.view_sel(),
                k <= gs.len(),
                values_total(gs) <= usize::MAX,
                panel_lines(gs, sel).len() <= usize::MAX,
                row0 == panel_lines(gs.take(k as int), sel).len(),
                offset == values_total(gs.take(k as int)),
                forall|g: int, v: int|
                    0 <= g < k && 0 <= v < gs[g].values@.len() ==> #[trigger] value_row(gs, sel, g, v)
                        != row,
            decreases gs.len() - k,
        {
            proof {
                lemma_panel_lines_prefix(gs, sel, (k + 1) as int);
                assert(gs.take(k + 1).drop_last() =~= gs.take(k as int));
                lemma_value_lines_len(gs[k as int].key@, gs[k as int].values@, sel);
                lemma_values_total_prefix(gs, k as int);
                lemma_values_total_prefix(gs, (k + 1) as int);
            }
            let grp = &facets.groups[k];
            let n = grp.values.len();
            if row > row0 && row - row0 - 1 < n {
                let v = row - row0 - 1;
                assert(at_value(gs, (offset + v) as int, k as int, v as int));
                assert(value_row(gs, sel, k as int, v as int) == row);
                let f = offset + v;
                assert(shows_value(gs, sel, row as int, f as int));
                return Some(f);
            }
            let extra: usize = if grp.distinct > n {
                1
            } else {
                0
            };
            row0 = row0 + 1 + n + extra;
            offset = offset + n;
            k = k + 1;
        }
        None
    }

    /// The line the cursor's value sits on, if the cursor is on a value.
    pub fn selected_row(facets: &FacetIndex, filter: &Filter, cursor: FacetCursor) -> (r: Option<usize>)
        requires
            values_total(facets.groups@) <= usize::MAX,
            panel_lines(facets.groups@, filter.selections.view_sel()).len() <= usize::MAX,
        ensures
            forall|g: int, v: int|
                #![trigger value_row(facets.groups@, filter.selections.view_sel(), g, v)]
                at_value(facets.groups@, cursor.flat as int, g, v) ==> r == Some(
                    value_row(facets.groups@, filter.selections.view_sel(), g, v) as usize,
                ),
            cursor.flat >= values_total(facets.groups@) ==> r is None,
    {
        let ghost gs = facets.groups@;
        let ghost sel = filter.selections.view_sel();
        match cursor.locate(facets) {
            None => {
                proof {
                    assert forall|g2: int, v2: int| !at_value(gs, cursor.flat as int, g2, v2) by {
                        if at_value(gs, cursor.flat as int, g2, v2) {
                            lemma_prefix_mono(gs, g2 + 1, gs.len() as int);
                            lemma_values_total_prefix(gs, g2);
                            assert(gs.take(gs.len() as int) =~= gs);
                        }
                    }
                }
                None
            },
            Some((g, v)) => {
                let mut row: usize = 0;
                let mut k: usize = 0;
                assert(gs.take(0) =~= Seq::<FacetGroup>::empty());
                while k < g
                    invariant
                        gs == facets.groups@,
                        sel == filter.selections.view_sel(),
                        g < gs.len(),
                        k <= g,
                        panel_lines(gs, sel).len() <= usize::MAX,
                        row == panel_lines(gs.take(k as int), sel).len(),
                    decreases g - k,
                {
                    proof {
                        lemma_panel_lines_prefix(gs, sel, (k + 1) as int);
                        assert(gs.take(k + 1).drop_last() =~= gs.take(k as int));
                    }
                    let grp = &facets.groups[k];
                    let extra: usize = if grp.distinct > grp.values.len() {
                        1
                    } else {
                        0
                    };
                    proof {
                        lemma_value_lines_len(grp.key@, grp.values@, sel);
                    }
                    row = row + 1 + grp.values.len() + extra;
                    k = k + 1;
                }
                proof {
                    lemma_panel_lines_prefix(gs, sel, g as int + 1);
                    assert(gs.take(g + 1).drop_last() =~= gs.take(g as int));
                    lemma_value_lines_len(gs[g as int].key@, gs[g as int].values@, sel);
                    lemma_values_total_prefix(gs, g as int);
                    lemma_prefix_mono(gs, g as int + 1, gs.len() as int);
                    assert(gs.take(gs.len() as int) =~= gs);
                    assert forall|g2: int, v2: int| at_value(gs, cursor.flat as int, g2, v2) implies g2 == g && v2 == v by {
                        lemma_at_value_unique(gs, cursor.flat as int, g as int, v as int, g2, v2);
                    }
                }
                Some(row + 1 + v)
            },
        }
    }
}

/// Prefix totals grow with the prefix.
pub proof fn lemma_prefix_mono(gs: Seq<FacetGroup>, a: int, b: int)
    requires
        0 <= a <= b <= gs.len(),
    ensures
        values_total(gs.take(a)) <= values_total(gs.take(b)),
    decreases b - a,
{
    if a < b {
        lemma_prefix_mono(gs, a, b - 1);
        lemma_values_total_prefix(gs, b - 1);
    }
}

/// The cursor is on value `v` of group `g`.
pub open spec fn at_value(gs: Seq<FacetGroup>, flat: int, g: int, v: int) -> bool {
    0 <= g < gs.len() && 0 <= v < gs[g].values@.len() && flat == values_total(gs.take(g)) + v
}

/// Line `row` of the panel shows the value at cursor position `f`.
pub open spec fn shows_value(gs: Seq<FacetGroup>, sel: crate::query::filter::SelView, row: int, f: int) -> bool {
    exists|g: int, v: int| at_value(gs, f, g, v) && value_row(gs, sel, g, v) == row
}

/// One position is on at most one value.
pub proof fn lemma_at_value_unique(gs: Seq<FacetGroup>, flat: int, g1: int, v1: int, g2: int, v2: int)
    requires
        at_value(gs, flat, g1, v1),
        at_value(gs, flat, g2, v2),
    ensures
        g1 == g2 && v1 == v2,
{
    if g1 < g2 {
        lemma_values_total_prefix(gs, g1);
        lemma_prefix_mono(gs, g1 + 1, g2);
    } else if g2 < g1 {
        lemma_values_total_prefix(gs, g2);
        lemma_prefix_mono(gs, g2 + 1, g1);
    }
}

pub proof fn lemma_value_lines_len(key: Seq<char>, vs: Seq<(String, usize)>, sel: crate::query::filter::SelView)
    ensures
        value_lines(key, vs, sel).len() == vs.len(),
    decreases vs.len(),
{
    if vs.len() > 0 {
        lemma_value_lines_len(key, vs.drop_last(), sel);
    }
}

pub proof fn lemma_panel_lines_prefix(gs: Seq<FacetGroup>, sel: crate::query::filter::SelView, g: int)
    requires
        0 <= g <= gs.len(),
    ensures
        panel_lines(gs.take(g), sel).len() <= panel_lines(gs, sel).len(),
    decreases gs.len() - g,
{
    if g < gs.len() {
        assert(gs.take(g + 1).drop_last() =~= gs.take(g));
        lemma_panel_lines_prefix(gs, sel, g + 1);
    } else {
        assert(gs.take(g) =~= gs);
    }
}

/// The slice `start..end` of `total` lines that a view `capacity` lines
/// high shows: centred on the selected line where there is one, never past
/// the end, from the top otherwise.
pub open spec fn window_spec(total: nat, capacity: nat, sel: Option<nat>) -> (nat, nat) {
    let max_start: nat = if total > capacity {
        (total - capacity) as nat
    } else {
        0
    };
    let start: nat = match sel {
        Some(r) => {
            let s: nat = if r > capacity / 2 {
                (r - capacity / 2) as nat
            } else {
                0
            };
            if s < max_start {
                s
            } else {
                max_start
            }
        },
        None => 0,
    };
    let end: nat = if start + capacity < total {
        start + capacity
    } else {
        total
    };
    (start, end)
}

pub fn window(total: usize, capacity: usize, sel: Option<usize>) -> (r: (usize, usize))
    ensures
        r.0 as nat == window_spec(total as nat, capacity as nat, match sel {
            Some(x) => Some(x as nat),
            None => None,
        }).0,
        r.1 as nat == window_spec(total as nat, capacity as nat, match sel {
            Some(x) => Some(x as nat),
            None => None,
        }).1,
        r.0 <= r.1 <= total,
{
    let max_start = if total > capacity {
        total - capacity
    } else {
        0
    };
    let start = match sel {
        Some(r) => {
            let s = if r > capacity / 2 {
                r - capacity / 2
            } else {
                0
            };
            if s < max_start {
                s
            } else {
                max_start
            }
        },
        None => 0,
    };
    let end = if capacity < total - start {
        start + capacity
    } else {
        total
    };
    (start, end)
}

/// The selected line is always on screen: for a selected line that
/// exists and a view at least one line high, the window shows it, and it
/// shows as many lines as fit.
pub proof fn law_window_shows_selection(total: nat, capacity: nat, r: nat)
    requires
        r < total,
        capacity >= 1,
    ensures
        window_spec(total, capacity, Some(r)).0 <= r < window_spec(total, capacity, Some(r)).1,
        window_spec(total, capacity, Some(r)).1 - window_spec(total, capacity, Some(r)).0 == if capacity < total {
            capacity
        } else {
            total
        },
{
}

proof fn lemma_find_value(gs: Seq<FacetGroup>, flat: int, g: int)
    requires
        0 <= g <= gs.len(),
        values_total(gs.take(g)) <= flat < values_total(gs),
    ensures
        exists|g2: int, v: int| at_value(gs, flat, g2, v),
    decreases gs.len() - g,
{
    assert(gs.take(gs.len() as int) =~= gs);
    if g == gs.len() {
        assert(false);
    } else {
        lemma_values_total_prefix(gs, g);
        if flat < values_total(gs.take(g + 1)) {
            assert(at_value(gs, flat, g, flat - values_total(gs.take(g))));
        } else {
            lemma_find_value(gs, flat, g + 1);
        }
    }
}

/// The facet cursor is on a value exactly when it is below the number of
/// values the groups show: every position before that total names a
/// value, and none from it on does.
pub proof fn law_cursor_on_value_iff_below_total(gs: Seq<FacetGroup>, flat: int)
    requires
        0 <= flat,
    ensures
        (exists|g: int, v: int| at_value(gs, flat, g, v)) <==> flat < values_total(gs),
{
    if exists|g: int, v: int| at_value(gs, flat, g, v) {
        let (g, v) = choose|g: int, v: int| at_value(gs, flat, g, v);
        lemma_values_total_prefix(gs, g);
        lemma_prefix_mono(gs, g + 1, gs.len() as int);
        assert(gs.take(gs.len() as int) =~= gs);
    }
    if flat < values_total(gs) {
        assert(gs.take(0) =~= Seq::<FacetGroup>::empty());
        lemma_find_value(gs, flat, 0);
    }
}

} // verus!
