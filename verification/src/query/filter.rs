//! The event filter: full-text search, date bounds and facet selections.
use vstd::prelude::*;
use vstd::utf8::{encode_utf8, is_ascii_chars};
use crate::log::event::{level_name, EventView, LogEvent};
use crate::log::fields::lookup;
use crate::log::loader::{admits_spec, line_text, text_of};
use crate::text::{chars_of, lower, lower_char, str_eq, str_to_string};
use crate::time::{is_before, Timestamp};

verus! {

/// Facet selections as text: each group with the values chosen in it.
pub type SelView = Seq<(Seq<char>, Seq<Seq<char>>)>;

pub open spec fn group_index(p: SelView, g: Seq<char>, i: int) -> Option<int>
    decreases p.len() - i,
{
    if i < 0 || i >= p.len() {
        None
    } else if p[i].0 == g {
        Some(i)
    } else {
        group_index(p, g, i + 1)
    }
}

pub proof fn lemma_group_index(p: SelView, g: Seq<char>, i: int)
    requires
        0 <= i,
    ensures
        group_index(p, g, i) matches Some(j) ==> i <= j < p.len() && p[j].0 == g && forall|m: int|
            i <= m < j ==> p[m].0 != g,
        group_index(p, g, i) is None ==> forall|m: int| i <= m < p.len() ==> p[m].0 != g,
    decreases p.len() - i,
{
    if i < p.len() && p[i].0 != g {
        lemma_group_index(p, g, i + 1);
    }
}

/// `v` is selected in group `g`.
pub open spec fn selected(p: SelView, g: Seq<char>, v: Seq<char>) -> bool {
    match group_index(p, g, 0) {
        Some(i) => p[i].1.contains(v),
        None => false,
    }
}

/// Group names unique; values unique within each group.
pub open spec fn sel_wf(p: SelView) -> bool {
    &&& forall|i: int, j: int| 0 <= i < j < p.len() ==> p[i].0 != p[j].0
    &&& forall|i: int| 0 <= i < p.len() ==> (#[trigger] p[i]).1.no_duplicates()
}

/// The values chosen per facet group (a `BTreeMap<String, BTreeSet<String>>`
/// in spirit: each group once, each value once per group).
#[derive(Clone, Debug)]
pub struct Selections {
    groups: Vec<(String, Vec<String>)>,
}

pub open spec fn strings_view(v: Seq<String>) -> Seq<Seq<char>> {
    v.map_values(|s: String| s@)
}

/// Index of the first string in `vals` equal to `v`.
fn find_string(vals: &Vec<String>, v: &str) -> (r: Option<usize>)
    ensures
        match r {
            Some(j) => j < vals@.len() && strings_view(vals@)[j as int] == v@ && forall|k: int|
                0 <= k < j ==> strings_view(vals@)[k] != v@,
            None => forall|k: int| 0 <= k < vals@.len() ==> strings_view(vals@)[k] != v@,
        },
{
    let mut j: usize = 0;
    while j < vals.len()
        invariant
            j <= vals@.len(),
            forall|k: int| 0 <= k < j ==> strings_view(vals@)[k] != v@,
        decreases vals@.len() - j,
    {
        if str_eq(vals[j].as_str(), v) {
            return Some(j);
        }
        j = j + 1;
    }
    None
}

impl Selections {
    pub closed spec fn view_sel(&self) -> SelView {
        self.groups@.map_values(|g: (String, Vec<String>)| (g.0@, strings_view(g.1@)))
    }

    pub open spec fn wf(&self) -> bool {
        sel_wf(self.view_sel())
    }

    pub fn new() -> (s: Selections)
        ensures
            s.view_sel() == Seq::<(Seq<char>, Seq<Seq<char>>)>::empty(),
            s.wf(),
    {
        let s = Selections { groups: Vec::new() };
        assert(s.view_sel() =~= Seq::<(Seq<char>, Seq<Seq<char>>)>::empty());
        s
    }

    fn find_group(&self, group: &str) -> (r: Option<usize>)
        ensures
            match r {
                Some(i) => group_index(self.view_sel(), group@, 0) == Some(i as int),
                None => group_index(self.view_sel(), group@, 0) is None,
            },
    {
        let mut i: usize = 0;
        while i < self.groups.len()
            invariant
                i <= self.groups@.len(),
                group_index(self.view_sel(), group@, 0) == group_index(self.view_sel(), group@, i as int),
            decreases self.groups@.len() - i,
        {
            if str_eq(self.groups[i].0.as_str(), group) {
                return Some(i);
            }
            i = i + 1;
        }
        None
    }

    /// Number of groups.
    pub fn len(&self) -> (n: usize)
        ensures
            n == self.view_sel().len(),
    {
        self.groups.len()
    }

    /// The `i`-th group and its values.
    pub fn group(&self, i: usize) -> (r: (&String, &Vec<String>))
        requires
            i < self.view_sel().len(),
        ensures
            r.0@ == self.view_sel()[i as int].0,
            strings_view(r.1@) == self.view_sel()[i as int].1,
    {
        (&self.groups[i].0, &self.groups[i].1)
    }

    /// `value` is selected in `group`.
    pub fn contains(&self, group: &str, value: &str) -> (b: bool)
        ensures
            b == selected(self.view_sel(), group@, value@),
    {
        proof {
            lemma_group_index(self.view_sel(), group@, 0);
        }
        match self.find_group(group) {
            Some(i) => {
                let vals = &self.groups[i].1;
                assert(strings_view(vals@) == self.view_sel()[i as int].1);
                match find_string(vals, value) {
                    Some(j) => {
                        assert(strings_view(vals@)[j as int] == value@);
                        true
                    },
                    None => false,
                }
            },
            None => false,
        }
    }

    /// Every group's set of values is empty.
    pub fn all_empty(&self) -> (b: bool)
        ensures
            b == forall|i: int| 0 <= i < self.view_sel().len() ==> (#[trigger] self.view_sel()[i]).1.len() == 0,
    {
        let mut i: usize = 0;
        while i < self.groups.len()
            invariant
                i <= self.groups@.len(),
                forall|k: int| 0 <= k < i ==> (#[trigger] self.view_sel()[k]).1.len() == 0,
            decreases self.groups@.len() - i,
        {
            if self.groups[i].1.len() != 0 {
                assert(self.view_sel()[i as int].1.len() != 0);
                return false;
            }
            i = i + 1;
        }
        true
    }

    /// Selects `value` in `group` when it is not selected, unselects it when
    /// it is; a group not yet present is added (first with `value` alone).
    pub fn toggle(&mut self, group: &str, value: &str)
        requires
            old(self).wf(),
        ensures
            final(self).wf(),
            forall|g: Seq<char>, v: Seq<char>|
                #[trigger] selected(final(self).view_sel(), g, v) == if g == group@ && v == value@ {
                    !selected(old(self).view_sel(), g, v)
                } else {
                    selected(old(self).view_sel(), g, v)
                },
    {
        let ghost old_p = self.view_sel();
        proof {
            lemma_group_index(old_p, group@, 0);
        }
        match self.find_group(group) {
            None => {
                let mut vals: Vec<String> = Vec::new();
                vals.push(str_to_string(value));
                assert(strings_view(vals@) =~= seq![value@]);
                self.groups.push((str_to_string(group), vals));
                let ghost p = self.view_sel();
                assert(p =~= old_p.push((group@, seq![value@])));
                assert forall|g: Seq<char>, v: Seq<char>|
                    #[trigger] selected(p, g, v) == if g == group@ && v == value@ {
                        !selected(old_p, g, v)
                    } else {
                        selected(old_p, g, v)
                    } by {
                    lemma_group_index(p, g, 0);
                    lemma_group_index(old_p, g, 0);
                    if g == group@ {
                        assert(p[old_p.len() as int].0 == g);
                        assert(seq![value@].contains(v) == (v == value@)) by {
                            if v == value@ {
                                assert(seq![value@][0] == v);
                            }
                        }
                    } else {
                        if let Some(j) = group_index(old_p, g, 0) {
                            assert(p[j].0 == g);
                        }
                        if let Some(j) = group_index(p, g, 0) {
                            if j < old_p.len() {
                                assert(old_p[j].0 == g);
                            }
                        }
                    }
                }
                assert(seq![value@].no_duplicates());
            },
            Some(i) => {
                let ghost old_groups = self.groups@;
                let (name, mut vals) = self.groups.remove(i);
                let ghost before = strings_view(vals@);
                assert(before == old_p[i as int].1);
                let found = find_string(&vals, value);
                let ghost after: Seq<Seq<char>>;
                match found {
                    Some(k) => {
                        vals.remove(k);
                        proof {
                            after = before.remove(k as int);
                            assert(strings_view(vals@) =~= after);
                        }
                    },
                    None => {
                        vals.push(str_to_string(value));
                        proof {
                            after = before.push(value@);
                            assert(strings_view(vals@) =~= after);
                        }
                    },
                }
                assert(name@ == group@);
                self.groups.insert(i, (name, vals));
                assert(self.groups@ =~= old_groups.update(i as int, self.groups@[i as int]));
                let ghost p = self.view_sel();
                assert(p =~= old_p.update(i as int, (group@, after)));
                assert forall|g: Seq<char>, v: Seq<char>|
                    #[trigger] selected(p, g, v) == if g == group@ && v == value@ {
                        !selected(old_p, g, v)
                    } else {
                        selected(old_p, g, v)
                    } by {
                    lemma_group_index(p, g, 0);
                    lemma_group_index(old_p, g, 0);
                    if g == group@ {
                        assert(p[i as int].0 == g);
                        if let Some(j2) = group_index(p, g, 0) {
                            if j2 != i {
                                assert(p[j2] == old_p[j2]);
                            }
                        }
                        assert(group_index(p, g, 0) == Some(i as int));
                        if found is Some {
                            let k = found->0 as int;
                            assert(before[k] == value@);
                            assert(before.no_duplicates());
                            if v == value@ {
                                assert forall|m: int| 0 <= m < after.len() implies after[m] != v by {
                                    if m < k {
                                        assert(after[m] == before[m]);
                                    } else {
                                        assert(after[m] == before[m + 1]);
                                    }
                                }
                                assert(before.contains(v));
                            } else {
                                if before.contains(v) {
                                    let m = choose|m: int| 0 <= m < before.len() && before[m] == v;
                                    if m < k {
                                        assert(after[m] == v);
                                    } else {
                                        assert(m != k);
                                        assert(after[m - 1] == v);
                                    }
                                }
                                if after.contains(v) {
                                    let m = choose|m: int| 0 <= m < after.len() && after[m] == v;
                                    if m < k {
                                        assert(before[m] == v);
                                    } else {
                                        assert(before[m + 1] == v);
                                    }
                                }
                            }
                        } else {
                            if v == value@ {
                                assert(after[before.len() as int] == v);
                                assert(!before.contains(v));
                            } else {
                                if before.contains(v) {
                                    let m = choose|m: int| 0 <= m < before.len() && before[m] == v;
                                    assert(after[m] == v);
                                }
                                if after.contains(v) {
                                    let m = choose|m: int| 0 <= m < after.len() && after[m] == v;
                                    assert(m < before.len());
                                    assert(before[m] == v);
                                }
                            }
                        }
                    } else {
                        if let Some(j2) = group_index(old_p, g, 0) {
                            assert(p[j2].0 == g);
                            assert(j2 != i);
                        }
                        if let Some(j2) = group_index(p, g, 0) {
                            assert(old_p[j2].0 == g || j2 == i);
                        }
                    }
                }
                assert(after.no_duplicates()) by {
                    if found is Some {
                        let k = found->0 as int;
                        assert forall|a: int, b: int| 0 <= a < b < after.len() implies after[a] != after[b] by {
                            let a2 = if a < k { a } else { a + 1 };
                            let b2 = if b < k { b } else { b + 1 };
                            assert(after[a] == before[a2]);
                            assert(after[b] == before[b2]);
                        }
                    } else {
                        assert forall|a: int, b: int| 0 <= a < b < after.len() implies after[a] != after[b] by {
                            if b == before.len() {
                                assert(after[a] == before[a]);
                            } else {
                                assert(after[a] == before[a]);
                                assert(after[b] == before[b]);
                            }
                        }
                    }
                }
                assert(sel_wf(p)) by {
                    assert forall|a: int| 0 <= a < p.len() implies (#[trigger] p[a]).1.no_duplicates() by {
                        if a != i {
                            assert(p[a] == old_p[a]);
                        }
                    }
                }
            },
        }
    }

    /// Unselects every value of `group`.
    pub fn clear_group(&mut self, group: &str)
        requires
            old(self).wf(),
        ensures
            final(self).wf(),
            forall|g: Seq<char>, v: Seq<char>|
                #[trigger] selected(final(self).view_sel(), g, v) == (g != group@ && selected(
                    old(self).view_sel(),
                    g,
                    v,
                )),
    {
        let ghost old_p = self.view_sel();
        proof {
            lemma_group_index(old_p, group@, 0);
        }
        if let Some(i) = self.find_group(group) {
            let ghost old_groups = self.groups@;
            let (name, _vals) = self.groups.remove(i);
            let empty: Vec<String> = Vec::new();
            assert(strings_view(empty@) =~= Seq::<Seq<char>>::empty());
            assert(name@ == group@);
            self.groups.insert(i, (name, empty));
            assert(self.groups@ =~= old_groups.update(i as int, self.groups@[i as int]));
            let ghost p = self.view_sel();
            assert(p =~= old_p.update(i as int, (group@, Seq::<Seq<char>>::empty())));
            assert forall|g: Seq<char>, v: Seq<char>|
                #[trigger] selected(p, g, v) == (g != group@ && selected(old_p, g, v)) by {
                lemma_group_index(p, g, 0);
                lemma_group_index(old_p, g, 0);
                if g == group@ {
                    assert(p[i as int].0 == g);
                    if let Some(j2) = group_index(p, g, 0) {
                        if j2 != i {
                            assert(p[j2] == old_p[j2]);
                        }
                    }
                    assert(group_index(p, g, 0) == Some(i as int));
                } else {
                    if let Some(j2) = group_index(old_p, g, 0) {
                        assert(p[j2].0 == g);
                    }
                    if let Some(j2) = group_index(p, g, 0) {
                        assert(old_p[j2].0 == g || j2 == i);
                    }
                }
            }
            assert(sel_wf(p)) by {
                assert forall|a: int| 0 <= a < p.len() implies (#[trigger] p[a]).1.no_duplicates() by {
                    if a != i {
                        assert(p[a] == old_p[a]);
                    }
                }
            }
        } else {
            assert forall|g: Seq<char>, v: Seq<char>|
                #[trigger] selected(old_p, g, v) == (g != group@ && selected(old_p, g, v)) by {
                if g == group@ {
                    lemma_group_index(old_p, g, 0);
                }
            }
        }
    }
}

/// The value of facet group `g` for an event: the level name for `level`,
/// else the field of that name.
pub open spec fn event_field_spec(ev: EventView, g: Seq<char>) -> Option<Seq<char>> {
    if g == "level"@ {
        Some(level_name(ev.level))
    } else {
        lookup(ev.fields, g)
    }
}

pub fn event_field<'a>(ev: &'a LogEvent, group: &str) -> (r: Option<&'a str>)
    ensures
        match r {
            Some(v) => event_field_spec(ev@, group@) == Some(v@),
            None => event_field_spec(ev@, group@) is None,
        },
{
    if str_eq(group, "level") {
        Some(ev.level.as_str())
    } else {
        match ev.fields.get(group) {
            Some(s) => Some(s.as_str()),
            None => None,
        }
    }
}

/// What `str::to_lowercase` returns (Unicode lower-case mapping).
pub uninterp spec fn unicode_lower(s: Seq<char>) -> Seq<char>;

/// std's `str::to_lowercase`: the Unicode lower-case mapping of every
/// character. The contract names the result only.
#[verifier::external_body]
fn to_lowercase(s: &str) -> (r: String)
    ensures
        r@ == unicode_lower(s@),
{
    s.to_lowercase()
}

/// `n` occurs in `h` at `i`.
pub open spec fn occurs_at(h: Seq<char>, n: Seq<char>, i: int) -> bool {
    0 <= i && i + n.len() <= h.len() && h.subrange(i, i + n.len()) == n
}

/// `n` occurs in `h` at `i`, ASCII case ignored.
pub open spec fn occurs_ci_at(h: Seq<char>, n: Seq<char>, i: int) -> bool {
    0 <= i && i + n.len() <= h.len() && forall|j: int| 0 <= j < n.len() ==> lower(#[trigger] h[i + j]) == lower(n[j])
}

/// Case-insensitive substring test: ASCII case for ASCII texts; otherwise
/// both texts are lower-cased the Unicode way. A needle longer in bytes than
/// the text never matches; an empty needle always does.
pub open spec fn contains_ci_spec(h: Seq<char>, n: Seq<char>) -> bool {
    if n.len() == 0 {
        true
    } else if (encode_utf8(n).len() as usize) > (encode_utf8(h).len() as usize) {
        false
    } else if is_ascii_chars(h) && is_ascii_chars(n) {
        exists|i: int| occurs_ci_at(h, n, i)
    } else {
        exists|i: int| occurs_at(unicode_lower(h), unicode_lower(n), i)
    }
}

fn occurs_ci_here(h: &Vec<char>, n: &Vec<char>, i: usize) -> (b: bool)
    requires
        i + n@.len() <= h@.len(),
    ensures
        b == occurs_ci_at(h@, n@, i as int),
{
    let nl = n.len();
    let hl = h.len();
    let mut j: usize = 0;
    while j < nl
        invariant
            nl == n@.len(),
            hl == h@.len(),
            i + nl <= h@.len(),
            j <= nl,
            forall|m: int| 0 <= m < j ==> lower(#[trigger] h@[i + m]) == lower(n@[m]),
        decreases nl - j,
    {
        if lower_char(h[i + j]) != lower_char(n[j]) {
            return false;
        }
        j = j + 1;
    }
    true
}

pub fn occurs_here(h: &Vec<char>, n: &Vec<char>, i: usize) -> (b: bool)
    requires
        i + n@.len() <= h@.len(),
    ensures
        b == occurs_at(h@, n@, i as int),
{
    let nl = n.len();
    let hl = h.len();
    let mut j: usize = 0;
    while j < nl
        invariant
            nl == n@.len(),
            hl == h@.len(),
            i + nl <= h@.len(),
            j <= nl,
            forall|m: int| 0 <= m < j ==> #[trigger] h@[i + m] == n@[m],
        decreases nl - j,
    {
        if h[i + j] != n[j] {
            assert(h@.subrange(i as int, i + nl)[j as int] == h@[i + j]);
            return false;
        }
        j = j + 1;
    }
    assert forall|m: int| 0 <= m < nl implies h@.subrange(i as int, i + nl)[m] == n@[m] by {
        assert(h@.subrange(i as int, i + nl)[m] == h@[i + m]);
    }
    assert(h@.subrange(i as int, i + nl) =~= n@);
    true
}

fn occurs_ci(h: &Vec<char>, n: &Vec<char>) -> (b: bool)
    ensures
        b == exists|i: int| occurs_ci_at(h@, n@, i),
{
    let hl = h.len();
    let nl = n.len();
    if nl > hl {
        return false;
    }
    let mut i: usize = 0;
    loop
        invariant
            hl == h@.len(),
            nl == n@.len(),
            nl <= hl,
            i <= hl - nl,
            forall|k: int| 0 <= k < i ==> !occurs_ci_at(h@, n@, k),
        decreases hl - nl - i,
    {
        if occurs_ci_here(h, n, i) {
            return true;
        }
        if i == hl - nl {
            assert forall|k: int| !occurs_ci_at(h@, n@, k) by {
                if k > hl - nl {
                    assert(k + nl > hl);
                }
            }
            return false;
        }
        i = i + 1;
    }
}

pub fn occurs(h: &Vec<char>, n: &Vec<char>) -> (b: bool)
    ensures
        b == exists|i: int| occurs_at(h@, n@, i),
{
    let hl = h.len();
    let nl = n.len();
    if nl > hl {
        return false;
    }
    let mut i: usize = 0;
    loop
        invariant
            hl == h@.len(),
            nl == n@.len(),
            nl <= hl,
            i <= hl - nl,
            forall|k: int| 0 <= k < i ==> !occurs_at(h@, n@, k),
        decreases hl - nl - i,
    {
        if occurs_here(h, n, i) {
            return true;
        }
        if i == hl - nl {
            assert forall|k: int| !occurs_at(h@, n@, k) by {
                if k > hl - nl {
                    assert(k + nl > hl);
                }
            }
            return false;
        }
        i = i + 1;
    }
}

/// Case-insensitive substring search without per-line allocation for ASCII.
pub fn contains_ci(haystack: &str, needle: &str) -> (b: bool)
    ensures
        b == contains_ci_spec(haystack@, needle@),
{
    if needle.is_empty() {
        return true;
    }
    if needle.len() > haystack.len() {
        return false;
    }
    if haystack.is_ascii() && needle.is_ascii() {
        let h = chars_of(haystack);
        let n = chars_of(needle);
        occurs_ci(&h, &n)
    } else {
        let hl = to_lowercase(haystack);
        let nl = to_lowercase(needle);
        let h = chars_of(hl.as_str());
        let n = chars_of(nl.as_str());
        occurs(&h, &n)
    }
}

#[derive(Clone, Debug)]
pub struct Filter {
    pub text: String,
    pub from: Option<Timestamp>,
    pub to: Option<Timestamp>,
    pub selections: Selections,
}

/// Every selected group holds the event's value for it.
pub open spec fn selections_match(p: SelView, ev: EventView) -> bool {
    forall|i: int|
        0 <= i < p.len() && (#[trigger] p[i]).1.len() > 0 ==> (event_field_spec(ev, p[i].0) matches Some(
            v,
        ) && p[i].1.contains(v))
}

/// The event passes the filter; `raw` is its line text.
pub open spec fn matches_spec(
    text: Seq<char>,
    from: Option<Timestamp>,
    to: Option<Timestamp>,
    sel: SelView,
    ev: EventView,
    raw: Seq<char>,
) -> bool {
    &&& (text.len() == 0 || contains_ci_spec(raw, text))
    &&& admits_spec(from, to, ev.timestamp)
    &&& selections_match(sel, ev)
}

/// The filter lets everything through.
pub open spec fn filter_empty_spec(text: Seq<char>, from: Option<Timestamp>, to: Option<Timestamp>, sel: SelView) -> bool {
    &&& text.len() == 0
    &&& from is None
    &&& to is None
    &&& forall|i: int| 0 <= i < sel.len() ==> (#[trigger] sel[i]).1.len() == 0
}

impl Filter {
    pub open spec fn wf(&self) -> bool {
        self.selections.wf()
    }

    pub open spec fn spec_matches(&self, ev: EventView, raw: Seq<char>) -> bool {
        matches_spec(self.text@, self.from, self.to, self.selections.view_sel(), ev, raw)
    }

    pub open spec fn spec_is_empty(&self) -> bool {
        filter_empty_spec(self.text@, self.from, self.to, self.selections.view_sel())
    }

    /// The filter that lets everything through.
    pub fn new() -> (f: Filter)
        ensures
            f.spec_is_empty(),
            f.wf(),
            f.text@ == Seq::<char>::empty(),
            f.from is None && f.to is None,
            f.selections.view_sel() == Seq::<(Seq<char>, Seq<Seq<char>>)>::empty(),
    {
        Filter { text: String::new(), from: None, to: None, selections: Selections::new() }
    }

    pub fn is_empty(&self) -> (b: bool)
        ensures
            b == self.spec_is_empty(),
    {
        self.text.as_str().is_empty() && self.from.is_none() && self.to.is_none()
            && self.selections.all_empty()
    }

    /// Whether the event passes; `raw` is the event's line text.
    pub fn matches(&self, ev: &LogEvent, raw: &str) -> (b: bool)
        ensures
            b == self.spec_matches(ev@, raw@),
    {
        if !self.text.as_str().is_empty() {
            if !contains_ci(raw, self.text.as_str()) {
                return false;
            }
        }
        match ev.timestamp {
            Some(ts) => {
                if let Some(from) = self.from {
                    if is_before(&ts, &from) {
                        return false;
                    }
                }
                if let Some(to) = self.to {
                    if is_before(&to, &ts) {
                        return false;
                    }
                }
            },
            None => {
                if self.from.is_some() || self.to.is_some() {
                    return false;
                }
            },
        }
        let ghost sel = self.selections.view_sel();
        let mut i: usize = 0;
        while i < self.selections.len()
            invariant
                sel == self.selections.view_sel(),
                i <= sel.len(),
                forall|k: int|
                    0 <= k < i && (#[trigger] sel[k]).1.len() > 0 ==> (event_field_spec(ev@, sel[k].0) matches Some(
                        v,
                    ) && sel[k].1.contains(v)),
            decreases sel.len() - i,
        {
            let (group, allowed) = self.selections.group(i);
            if allowed.len() != 0 {
                let actual = event_field(ev, group.as_str());
                match actual {
                    Some(v) => {
                        if find_string(allowed, v).is_none() {
                            assert(!sel[i as int].1.contains(v@));
                            return false;
                        }
                    },
                    None => {
                        return false;
                    },
                }
            }
            i = i + 1;
        }
        true
    }

    /// Selects / unselects a facet value.
    pub fn toggle(&mut self, group: &str, value: &str)
        requires
            old(self).wf(),
        ensures
            final(self).wf(),
            final(self).text == old(self).text,
            final(self).from == old(self).from,
            final(self).to == old(self).to,
            forall|g: Seq<char>, v: Seq<char>|
                #[trigger] selected(final(self).selections.view_sel(), g, v) == if g == group@ && v
                    == value@ {
                    !selected(old(self).selections.view_sel(), g, v)
                } else {
                    selected(old(self).selections.view_sel(), g, v)
                },
    {
        self.selections.toggle(group, value);
    }

    /// Unselects every value of a group.
    pub fn clear_group(&mut self, group: &str)
        requires
            old(self).wf(),
        ensures
            final(self).wf(),
            final(self).text == old(self).text,
            final(self).from == old(self).from,
            final(self).to == old(self).to,
            forall|g: Seq<char>, v: Seq<char>|
                #[trigger] selected(final(self).selections.view_sel(), g, v) == (g != group@
                    && selected(old(self).selections.view_sel(), g, v)),
    {
        self.selections.clear_group(group);
    }

    /// Back to the filter that lets everything through.
    pub fn reset(&mut self)
        ensures
            final(self).spec_is_empty(),
            final(self).wf(),
            final(self).text@ == Seq::<char>::empty(),
            final(self).from is None && final(self).to is None,
            final(self).selections.view_sel() == Seq::<(Seq<char>, Seq<Seq<char>>)>::empty(),
    {
        *self = Filter::new();
    }
}

/// The indices `k - 1` down to `0` of the events that pass, newest event
/// (index 0) last.
pub open spec fn apply_upto(f: Filter, evs: Seq<LogEvent>, b: Seq<u8>, k: int) -> Seq<u32>
    decreases k,
{
    if k <= 0 {
        Seq::empty()
    } else {
        let ev = evs[k - 1];
        let raw = raw_text(b, ev@);
        let rest = apply_upto(f, evs, b, k - 1);
        if f.spec_is_empty() || f.spec_matches(ev@, raw) {
            seq![(k - 1) as u32] + rest
        } else {
            rest
        }
    }
}

/// The line text of an event, as the source gives it.
pub open spec fn raw_text(b: Seq<u8>, ev: EventView) -> Seq<char> {
    text_of(
        b,
        ev.offset as int,
        if ev.offset + ev.len <= b.len() {
            ev.offset + ev.len
        } else {
            b.len() as int
        },
    )
}

/// The visible events: their indices, oldest first (`events` is newest
/// first, so this walks it backwards).
pub fn apply(filter: &Filter, events: &Vec<LogEvent>, bytes: &[u8]) -> (r: Vec<u32>)
    requires
        events@.len() <= u32::MAX,
        forall|i: int| 0 <= i < events@.len() ==> (#[trigger] events@[i]).offset <= bytes@.len(),
    ensures
        r@ == apply_upto(*filter, events@, bytes@, events@.len() as int),
{
    let empty = filter.is_empty();
    let mut out: Vec<u32> = Vec::new();
    let mut k = events.len();
    let ghost total = events@.len() as int;
    while k > 0
        invariant
            k <= events@.len() <= u32::MAX,
            total == events@.len(),
            empty == filter.spec_is_empty(),
            forall|i: int| 0 <= i < events@.len() ==> (#[trigger] events@[i]).offset <= bytes@.len(),
            apply_upto(*filter, events@, bytes@, total) == out@ + apply_upto(*filter, events@, bytes@, k as int),
        decreases k,
    {
        let ev = &events[k - 1];
        let keep = if empty {
            true
        } else {
            let raw = line_text(bytes, ev.offset, ev.len);
            filter.matches(ev, raw)
        };
        if keep {
            out.push((k - 1) as u32);
            assert(out@ + apply_upto(*filter, events@, bytes@, k - 1) =~= (out@.drop_last()) + (seq![(k - 1) as u32] + apply_upto(*filter, events@, bytes@, k - 1)));
        }
        k = k - 1;
    }
    assert(out@ + apply_upto(*filter, events@, bytes@, 0) =~= out@);
    out
}

/// In a well-formed selection, position `i` holds the group named `p[i].0`.
proof fn lemma_group_at(p: SelView, i: int)
    requires
        sel_wf(p),
        0 <= i < p.len(),
    ensures
        group_index(p, p[i].0, 0) == Some(i),
{
    lemma_group_index(p, p[i].0, 0);
    if let Some(j) = group_index(p, p[i].0, 0) {
        if j != i {
            assert(p[j].0 == p[i].0);
        }
    }
}

proof fn lemma_match_one_way(p: SelView, q: SelView, ev: EventView)
    requires
        sel_wf(p),
        sel_wf(q),
        forall|g: Seq<char>, v: Seq<char>| #[trigger] selected(p, g, v) == selected(q, g, v),
        selections_match(p, ev),
    ensures
        selections_match(q, ev),
{
    assert forall|i: int| 0 <= i < q.len() && (#[trigger] q[i]).1.len() > 0 implies (event_field_spec(
        ev,
        q[i].0,
    ) matches Some(v) && q[i].1.contains(v)) by {
        let g = q[i].0;
        let v0 = q[i].1[0];
        lemma_group_at(q, i);
        assert(q[i].1.contains(v0));
        assert(selected(q, g, v0));
        assert(selected(p, g, v0));
        lemma_group_index(p, g, 0);
        let j = group_index(p, g, 0)->0;
        assert(p[j].1.contains(v0));
        assert(p[j].1.len() > 0);
        let x = event_field_spec(ev, p[j].0)->0;
        assert(p[j].1.contains(x));
        assert(selected(p, g, x));
        assert(selected(q, g, x));
    }
}

/// Whether an event passes the selections depends only on which values
/// are selected.
pub proof fn lemma_selections_match_by_selected(p: SelView, q: SelView, ev: EventView)
    requires
        sel_wf(p),
        sel_wf(q),
        forall|g: Seq<char>, v: Seq<char>| #[trigger] selected(p, g, v) == selected(q, g, v),
    ensures
        selections_match(p, ev) == selections_match(q, ev),
{
    if selections_match(p, ev) {
        lemma_match_one_way(p, q, ev);
    }
    if selections_match(q, ev) {
        lemma_match_one_way(q, p, ev);
    }
}

/// A filter with no text, no bounds and nothing selected lets every event
/// through: the visible list is every event, oldest (last index) first.
pub proof fn law_empty_filter_shows_all(f: Filter, evs: Seq<LogEvent>, b: Seq<u8>, k: int)
    requires
        f.spec_is_empty(),
        0 <= k <= u32::MAX + 1,
    ensures
        apply_upto(f, evs, b, k) == Seq::new(k as nat, |i: int| (k - 1 - i) as u32),
    decreases k,
{
    if k > 0 {
        law_empty_filter_shows_all(f, evs, b, k - 1);
        assert(apply_upto(f, evs, b, k) =~= Seq::new(k as nat, |i: int| (k - 1 - i) as u32));
    } else {
        assert(apply_upto(f, evs, b, k) =~= Seq::new(k as nat, |i: int| (k - 1 - i) as u32));
    }
}

/// A filter's date bounds admit exactly what the loader's date bounds
/// admit: with no text and nothing selected, an event passes the filter
/// if and only if its timestamp passes `DateFilter { from, to }`.
pub proof fn law_date_bounds_agree(
    from: Option<Timestamp>,
    to: Option<Timestamp>,
    sel: SelView,
    ev: EventView,
    raw: Seq<char>,
)
    requires
        forall|i: int| 0 <= i < sel.len() ==> (#[trigger] sel[i]).1.len() == 0,
    ensures
        matches_spec(Seq::empty(), from, to, sel, ev, raw) == admits_spec(from, to, ev.timestamp),
{
}

/// The date bounds are inclusive and keep out every instant outside them:
/// an event passes a filter (and the loader's date window) only when, for
/// each bound that is set, it has a timestamp that is not earlier than
/// `from` and not later than `to`; and a timestamp within both bounds
/// passes the date window.
pub proof fn law_date_bounds_keep_out(
    text: Seq<char>,
    from: Option<Timestamp>,
    to: Option<Timestamp>,
    sel: SelView,
    ev: EventView,
    raw: Seq<char>,
    t: Timestamp,
)
    ensures
        matches_spec(text, from, to, sel, ev, raw) ==> admits_spec(from, to, ev.timestamp),
        admits_spec(from, to, ev.timestamp) ==> match ev.timestamp {
            Some(u) => (from matches Some(f) ==> (f.secs < u.secs || (f.secs == u.secs && f.nanos
                <= u.nanos))) && (to matches Some(b) ==> (u.secs < b.secs || (u.secs == b.secs
                && u.nanos <= b.nanos))),
            None => from is None && to is None,
        },
        (from matches Some(f) ==> (f.secs < t.secs || (f.secs == t.secs && f.nanos <= t.nanos)))
            && (to matches Some(b) ==> (t.secs < b.secs || (t.secs == b.secs && t.nanos
            <= b.nanos))) ==> admits_spec(from, to, Some(t)),
{
}

} // verus!
