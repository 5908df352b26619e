//! Counting the values of one facet group over the visible events, and
//! ranking the resulting rows: most frequent first, ties by value.
use vstd::prelude::*;
use crate::log::event::{EventView, LogEvent};
use crate::query::filter::{event_field, event_field_spec};
use vstd::seq_lib::lemma_multiset_commutative;
use crate::text::{
    chars_eq, chars_less, chars_lt, chars_of, lemma_chars_lt_irreflexive, lemma_chars_lt_total,
    lemma_chars_lt_transitive, string_of_all,
};

verus! {

broadcast use vstd::seq_lib::group_to_multiset_ensures, vstd::multiset::group_multiset_axioms;

/// The value an event gives group `g`, when it has a non-empty one.
pub open spec fn field_value(ev: EventView, g: Seq<char>) -> Option<Seq<char>> {
    match event_field_spec(ev, g) {
        Some(v) => if v.len() > 0 {
            Some(v)
        } else {
            None
        },
        None => None,
    }
}

/// The non-empty values of group `g` over the events listed in `vis`, in
/// that order.
pub open spec fn group_values(evs: Seq<LogEvent>, vis: Seq<u32>, g: Seq<char>) -> Seq<Seq<char>>
    decreases vis.len(),
{
    if vis.len() == 0 {
        Seq::empty()
    } else {
        let prev = group_values(evs, vis.drop_last(), g);
        match field_value(evs[vis.last() as int]@, g) {
            Some(v) => prev.push(v),
            None => prev,
        }
    }
}

/// How often `x` occurs in `vals`.
pub open spec fn count_of(vals: Seq<Seq<char>>, x: Seq<char>) -> nat {
    vals.to_multiset().count(x)
}

/// The number of distinct values in `vals`.
pub open spec fn distinct_of(vals: Seq<Seq<char>>) -> nat {
    vals.to_set().len()
}

/// A row as text and count.
pub open spec fn row_view(r: (String, usize)) -> (Seq<char>, usize) {
    (r.0@, r.1)
}

pub open spec fn rows_view(rs: Seq<(String, usize)>) -> Seq<(Seq<char>, usize)> {
    rs.map_values(|r: (String, usize)| row_view(r))
}

pub open spec fn keys_of(rs: Seq<(Seq<char>, usize)>) -> Seq<Seq<char>> {
    rs.map_values(|r: (Seq<char>, usize)| r.0)
}

/// Each row holds a value of `vals` and its exact count, each value once,
/// and every value of `vals` has its row.
pub open spec fn tally(rs: Seq<(Seq<char>, usize)>, vals: Seq<Seq<char>>) -> bool {
    &&& keys_of(rs).no_duplicates()
    &&& forall|i: int|
        0 <= i < rs.len() ==> rs[i].1 == count_of(vals, rs[i].0) && #[trigger] rs[i].1 > 0
    &&& forall|x: Seq<char>| vals.contains(x) ==> #[trigger] keys_of(rs).contains(x)
}

/// Row order: higher count first, equal counts by value (`chars_lt`).
pub open spec fn row_before(a: (Seq<char>, usize), b: (Seq<char>, usize)) -> bool {
    a.1 > b.1 || (a.1 == b.1 && chars_lt(a.0, b.0))
}

pub open spec fn strictly_sorted(rs: Seq<(Seq<char>, usize)>) -> bool {
    forall|i: int, j: int| 0 <= i < j < rs.len() ==> row_before(#[trigger] rs[i], #[trigger] rs[j])
}

/// `rs` is the head of the ranking of `vals`: the `top` (or all, if fewer)
/// most frequent values with their counts, in row order, every value left
/// out ranking after every row kept.
pub open spec fn top_rows(rs: Seq<(Seq<char>, usize)>, vals: Seq<Seq<char>>, top: nat) -> bool {
    &&& rs.len() == if top < distinct_of(vals) {
        top
    } else {
        distinct_of(vals)
    }
    &&& forall|i: int|
        0 <= i < rs.len() ==> rs[i].1 == count_of(vals, rs[i].0) && #[trigger] rs[i].1 > 0
    &&& strictly_sorted(rs)
    &&& forall|x: Seq<char>, i: int|
        #![trigger vals.contains(x), rs[i]]
        vals.contains(x) && !keys_of(rs).contains(x) && 0 <= i < rs.len() ==> row_before(
            rs[i],
            (x, count_of(vals, x) as usize),
        )
}

pub proof fn lemma_count_le_len(s: Seq<Seq<char>>, x: Seq<char>)
    ensures
        count_of(s, x) <= s.len(),
    decreases s.len(),
{
    if s.len() > 0 {
        lemma_count_le_len(s.drop_last(), x);
        assert(s =~= s.drop_last().push(s.last()));
    }
}

pub proof fn lemma_row_before_irreflexive(a: (Seq<char>, usize))
    ensures
        !row_before(a, a),
{
    lemma_chars_lt_irreflexive(a.0);
}

pub proof fn lemma_row_before_transitive(
    a: (Seq<char>, usize),
    b: (Seq<char>, usize),
    c: (Seq<char>, usize),
)
    requires
        row_before(a, b),
        row_before(b, c),
    ensures
        row_before(a, c),
{
    if a.1 == b.1 && b.1 == c.1 {
        lemma_chars_lt_transitive(a.0, b.0, c.0);
    }
}

pub proof fn lemma_row_before_total(a: (Seq<char>, usize), b: (Seq<char>, usize))
    requires
        a != b,
    ensures
        row_before(a, b) || row_before(b, a),
{
    if a.1 == b.1 {
        lemma_chars_lt_total(a.0, b.0);
    }
}

pub open spec fn chars_view(ks: Seq<Vec<char>>) -> Seq<Seq<char>> {
    ks.map_values(|k: Vec<char>| k@)
}

/// `ks` (in `chars_lt` order) and `cs` count the values of `vals`.
pub open spec fn tallied(ks: Seq<Seq<char>>, cs: Seq<usize>, vals: Seq<Seq<char>>) -> bool {
    &&& ks.len() == cs.len()
    &&& forall|a: int, b: int| 0 <= a < b < ks.len() ==> chars_lt(#[trigger] ks[a], #[trigger] ks[b])
    &&& forall|i: int| 0 <= i < cs.len() ==> cs[i] == count_of(vals, #[trigger] ks[i]) && cs[i] > 0
    &&& forall|x: Seq<char>| vals.contains(x) ==> #[trigger] ks.contains(x)
}

/// Counting one more occurrence of a value already present.
proof fn lemma_tallied_found(ks: Seq<Seq<char>>, cs: Seq<usize>, vals: Seq<Seq<char>>, pos: int)
    requires
        tallied(ks, cs, vals),
        0 <= pos < ks.len(),
        cs[pos] < usize::MAX,
    ensures
        tallied(ks, cs.update(pos, (cs[pos] + 1) as usize), vals.push(ks[pos])),
{
    let v = ks[pos];
    let after = vals.push(v);
    let cs2 = cs.update(pos, (cs[pos] + 1) as usize);
    assert(after.to_multiset() =~= vals.to_multiset().insert(v));
    assert forall|i: int| 0 <= i < cs2.len() implies cs2[i] == count_of(after, #[trigger] ks[i]) && cs2[i] > 0 by {
        if i != pos {
            if i < pos {
                assert(chars_lt(ks[i], ks[pos]));
            } else {
                assert(chars_lt(ks[pos], ks[i]));
            }
            lemma_chars_lt_irreflexive(ks[pos]);
        }
    }
    assert forall|x: Seq<char>| after.contains(x) implies #[trigger] ks.contains(x) by {
        if x == v {
            assert(ks[pos] == x);
        } else {
            let j = choose|j: int| 0 <= j < after.len() && after[j] == x;
            assert(j < vals.len());
            assert(vals[j] == x);
        }
    }
}

/// Counting a value seen for the first time, kept in order at `pos`.
proof fn lemma_tallied_insert(
    ks: Seq<Seq<char>>,
    cs: Seq<usize>,
    vals: Seq<Seq<char>>,
    v: Seq<char>,
    pos: int,
)
    requires
        tallied(ks, cs, vals),
        0 <= pos <= ks.len(),
        forall|q: int| 0 <= q < pos ==> chars_lt(#[trigger] ks[q], v),
        forall|q: int| pos <= q < ks.len() ==> chars_lt(v, #[trigger] ks[q]),
    ensures
        tallied(ks.insert(pos, v), cs.insert(pos, 1), vals.push(v)),
{
    let after = vals.push(v);
    let ks2 = ks.insert(pos, v);
    let cs2 = cs.insert(pos, 1);
    assert(after.to_multiset() =~= vals.to_multiset().insert(v));
    assert(!ks.contains(v)) by {
        if ks.contains(v) {
            let j = choose|j: int| 0 <= j < ks.len() && ks[j] == v;
            lemma_chars_lt_irreflexive(v);
        }
    }
    assert(!vals.contains(v));
    assert(count_of(vals, v) == 0);
    assert forall|a: int, b: int| 0 <= a < b < ks2.len() implies chars_lt(#[trigger] ks2[a], #[trigger] ks2[b]) by {
        if b < pos {
            assert(ks2[a] == ks[a] && ks2[b] == ks[b]);
        } else if b == pos {
            assert(ks2[a] == ks[a]);
        } else if a < pos {
            assert(ks2[a] == ks[a] && ks2[b] == ks[b - 1]);
            lemma_chars_lt_transitive(ks[a], v, ks[b - 1]);
        } else if a == pos {
            assert(ks2[b] == ks[b - 1]);
        } else {
            assert(ks2[a] == ks[a - 1] && ks2[b] == ks[b - 1]);
        }
    }
    assert forall|i: int| 0 <= i < cs2.len() implies cs2[i] == count_of(after, #[trigger] ks2[i]) && cs2[i] > 0 by {
        if i < pos {
            assert(ks2[i] == ks[i] && cs2[i] == cs[i]);
            assert(ks[i] != v);
        } else if i > pos {
            assert(ks2[i] == ks[i - 1] && cs2[i] == cs[i - 1]);
            assert(ks[i - 1] != v);
        }
    }
    assert forall|x: Seq<char>| after.contains(x) implies #[trigger] ks2.contains(x) by {
        if x == v {
            assert(ks2[pos] == x);
        } else {
            let j = choose|j: int| 0 <= j < after.len() && after[j] == x;
            assert(j < vals.len());
            assert(vals[j] == x);
            assert(ks.contains(x));
            let q = choose|q: int| 0 <= q < ks.len() && ks[q] == x;
            if q < pos {
                assert(ks2[q] == x);
            } else {
                assert(ks2[q + 1] == x);
            }
        }
    }
}

/// The first position among the ordered `keys` whose key is not before `v`.
fn lower_bound(keys: &Vec<Vec<char>>, v: &Vec<char>) -> (r: usize)
    requires
        forall|a: int, b: int|
            0 <= a < b < keys@.len() ==> chars_lt(#[trigger] keys@[a]@, #[trigger] keys@[b]@),
    ensures
        r <= keys@.len(),
        forall|q: int| 0 <= q < r ==> chars_lt(#[trigger] keys@[q]@, v@),
        forall|q: int| r <= q < keys@.len() ==> !chars_lt(#[trigger] keys@[q]@, v@),
{
    let mut lo: usize = 0;
    let mut hi: usize = keys.len();
    while lo < hi
        invariant
            lo <= hi <= keys@.len(),
            forall|a: int, b: int|
                0 <= a < b < keys@.len() ==> chars_lt(#[trigger] keys@[a]@, #[trigger] keys@[b]@),
            forall|q: int| 0 <= q < lo ==> chars_lt(#[trigger] keys@[q]@, v@),
            forall|q: int| hi <= q < keys@.len() ==> !chars_lt(#[trigger] keys@[q]@, v@),
        decreases hi - lo,
    {
        let mid = lo + (hi - lo) / 2;
        if chars_less(&keys[mid], v) {
            assert forall|q: int| 0 <= q <= mid implies chars_lt(#[trigger] keys@[q]@, v@) by {
                if q < mid {
                    lemma_chars_lt_transitive(keys@[q]@, keys@[mid as int]@, v@);
                }
            }
            lo = mid + 1;
        } else {
            assert forall|q: int| mid <= q < keys@.len() implies !chars_lt(#[trigger] keys@[q]@, v@) by {
                if q > mid && chars_lt(keys@[q]@, v@) {
                    lemma_chars_lt_transitive(keys@[mid as int]@, keys@[q]@, v@);
                }
            }
            hi = mid;
        }
    }
    lo
}

/// The values of group `group` over the visible events, each with its
/// count, in value order.
#[verifier::spinoff_prover]
pub fn tally_rows(events: &Vec<LogEvent>, visible: &Vec<u32>, group: &str) -> (rows: Vec<
    (String, usize),
>)
    requires
        forall|i: int| 0 <= i < visible@.len() ==> (#[trigger] visible@[i]) < events@.len(),
    ensures
        tally(rows_view(rows@), group_values(events@, visible@, group@)),
        forall|a: int, b: int|
            0 <= a < b < rows@.len() ==> chars_lt(#[trigger] rows@[a].0@, #[trigger] rows@[b].0@),
{
    let mut keys: Vec<Vec<char>> = Vec::new();
    let mut counts: Vec<usize> = Vec::new();
    let mut k: usize = 0;
    assert(visible@.take(0).len() == 0);
    assert(chars_view(keys@) =~= Seq::<Seq<char>>::empty());
    while k < visible.len()
        invariant
            k <= visible@.len(),
            forall|i: int| 0 <= i < visible@.len() ==> (#[trigger] visible@[i]) < events@.len(),
            group_values(events@, visible@.take(k as int), group@).len() <= k,
            tallied(chars_view(keys@), counts@, group_values(events@, visible@.take(k as int), group@)),
        decreases visible@.len() - k,
    {
        let ghost before = group_values(events@, visible@.take(k as int), group@);
        let ghost kv = chars_view(keys@);
        let ghost cv0 = counts@;
        assert(visible@.take(k + 1).drop_last() =~= visible@.take(k as int));
        assert(visible@.take(k + 1).last() == visible@[k as int]);
        let ghost nxt = group_values(events@, visible@.take(k + 1), group@);
        let ev = &events[visible[k] as usize];
        match event_field(ev, group) {
            Some(v) => {
                let cv = chars_of(v);
                if cv.len() > 0 {
                    assert(nxt == before.push(cv@));
                    assert forall|a: int, b: int| 0 <= a < b < keys@.len() implies chars_lt(#[trigger] keys@[a]@, #[trigger] keys@[b]@) by {
                        assert(kv[a] == keys@[a]@ && kv[b] == keys@[b]@);
                    }
                    let pos = lower_bound(&keys, &cv);
                    if pos < keys.len() && chars_eq(&keys[pos], &cv) {
                        proof {
                            assert(kv[pos as int] == cv@);
                            lemma_count_le_len(before, cv@);
                            lemma_tallied_found(kv, cv0, before, pos as int);
                        }
                        let c = counts[pos] + 1;
                        counts.set(pos, c);
                        assert(chars_view(keys@) == kv);
                    } else {
                        proof {
                            assert forall|q: int| 0 <= q < pos implies chars_lt(#[trigger] kv[q], cv@) by {
                                assert(kv[q] == keys@[q]@);
                            }
                            assert forall|q: int| pos <= q < kv.len() implies chars_lt(cv@, #[trigger] kv[q]) by {
                                assert(kv[q] == keys@[q]@);
                                assert(kv[pos as int] == keys@[pos as int]@);
                                assert(!chars_lt(kv[pos as int], cv@));
                                assert(kv[pos as int] != cv@);
                                lemma_chars_lt_total(kv[pos as int], cv@);
                                if q > pos {
                                    lemma_chars_lt_transitive(cv@, kv[pos as int], kv[q]);
                                }
                            }
                            lemma_tallied_insert(kv, cv0, before, cv@, pos as int);
                        }
                        keys.insert(pos, cv);
                        counts.insert(pos, 1);
                        assert(chars_view(keys@) =~= kv.insert(pos as int, cv@));
                    }
                } else {
                    assert(nxt == before);
                }
            },
            None => {
                assert(nxt == before);
            },
        }
        k = k + 1;
    }
    assert(visible@.take(visible@.len() as int) =~= visible@);
    let ghost vals = group_values(events@, visible@, group@);
    let ghost kv = chars_view(keys@);
    let mut rows: Vec<(String, usize)> = Vec::new();
    let mut j: usize = 0;
    while j < keys.len()
        invariant
            j <= keys@.len() == counts@.len(),
            rows@.len() == j,
            forall|i: int|
                0 <= i < j ==> (#[trigger] rows@[i]).0@ == keys@[i]@ && rows@[i].1 == counts@[i],
        decreases keys@.len() - j,
    {
        let s = string_of_all(&keys[j]);
        rows.push((s, counts[j]));
        j = j + 1;
    }
    assert(keys_of(rows_view(rows@)) =~= kv);
    assert forall|a: int, b: int| 0 <= a < b < rows@.len() implies chars_lt(#[trigger] rows@[a].0@, #[trigger] rows@[b].0@) by {
        assert(kv[a] == rows@[a].0@ && kv[b] == rows@[b].0@);
    }
    assert forall|i: int| 0 <= i < rows_view(rows@).len() implies rows_view(rows@)[i].1 == count_of(vals, rows_view(rows@)[i].0) && #[trigger] rows_view(rows@)[i].1 > 0 by {
        assert(rows_view(rows@)[i].0 == kv[i]);
    }
    assert(kv.no_duplicates()) by {
        assert forall|a: int, b: int| 0 <= a < kv.len() && 0 <= b < kv.len() && a != b implies kv[a] != kv[b] by {
            if a < b {
                assert(chars_lt(kv[a], kv[b]));
            } else {
                assert(chars_lt(kv[b], kv[a]));
            }
            lemma_chars_lt_irreflexive(kv[a]);
        }
    }
    rows
}

/// `x` comes before `y` in row order.
pub fn row_less(x: &(String, usize), y: &(String, usize)) -> (r: bool)
    ensures
        r == row_before(row_view(*x), row_view(*y)),
{
    if x.1 != y.1 {
        x.1 > y.1
    } else {
        let a = chars_of(x.0.as_str());
        let b = chars_of(y.0.as_str());
        chars_less(&a, &b)
    }
}

fn copy_row(x: &(String, usize)) -> (r: (String, usize))
    ensures
        row_view(r) == row_view(*x),
{
    (x.0.clone(), x.1)
}

/// Merges two row-ordered lists that share no row.
fn merge_rows(a: &Vec<(String, usize)>, b: &Vec<(String, usize)>) -> (out: Vec<(String, usize)>)
    requires
        strictly_sorted(rows_view(a@)),
        strictly_sorted(rows_view(b@)),
        forall|i: int, j: int|
            0 <= i < a@.len() && 0 <= j < b@.len() ==> #[trigger] rows_view(a@)[i]
                != #[trigger] rows_view(b@)[j],
    ensures
        rows_view(out@).to_multiset() == rows_view(a@).to_multiset().add(
            rows_view(b@).to_multiset(),
        ),
        strictly_sorted(rows_view(out@)),
{
    let ghost va = rows_view(a@);
    let ghost vb = rows_view(b@);
    let mut out: Vec<(String, usize)> = Vec::new();
    let mut i: usize = 0;
    let mut j: usize = 0;
    assert(va.take(0) =~= Seq::<(Seq<char>, usize)>::empty());
    assert(vb.take(0) =~= Seq::<(Seq<char>, usize)>::empty());
    assert(rows_view(out@) =~= Seq::<(Seq<char>, usize)>::empty());
    while i < a.len() || j < b.len()
        invariant
            va == rows_view(a@),
            vb == rows_view(b@),
            strictly_sorted(va),
            strictly_sorted(vb),
            forall|p: int, q: int|
                0 <= p < a@.len() && 0 <= q < b@.len() ==> #[trigger] va[p] != #[trigger] vb[q],
            i <= a@.len(),
            j <= b@.len(),
            out@.len() == i + j,
            rows_view(out@).to_multiset() == va.take(i as int).to_multiset().add(
                vb.take(j as int).to_multiset(),
            ),
            strictly_sorted(rows_view(out@)),
            forall|k: int|
                0 <= k < out@.len() && i < a@.len() ==> row_before(
                    #[trigger] rows_view(out@)[k],
                    va[i as int],
                ),
            forall|k: int|
                0 <= k < out@.len() && j < b@.len() ==> row_before(
                    #[trigger] rows_view(out@)[k],
                    vb[j as int],
                ),
        decreases a@.len() + b@.len() - i - j,
    {
        let ghost vo = rows_view(out@);
        let take_a = if i == a.len() {
            false
        } else if j == b.len() {
            true
        } else {
            row_less(&a[i], &b[j])
        };
        if take_a {
            let e = copy_row(&a[i]);
            proof {
                if j < b@.len() {
                    assert(row_before(va[i as int], vb[j as int]));
                }
            }
            out.push(e);
            assert(rows_view(out@) =~= vo.push(va[i as int]));
            assert(va.take(i + 1) =~= va.take(i as int).push(va[i as int]));
            i = i + 1;
            assert forall|k: int| 0 <= k < out@.len() && i < a@.len() implies row_before(
                #[trigger] rows_view(out@)[k],
                va[i as int],
            ) by {
                if k < vo.len() {
                    lemma_row_before_transitive(vo[k], va[i - 1], va[i as int]);
                }
            }
        } else {
            let e = copy_row(&b[j]);
            proof {
                if i < a@.len() {
                    lemma_row_before_total(va[i as int], vb[j as int]);
                }
            }
            out.push(e);
            assert(rows_view(out@) =~= vo.push(vb[j as int]));
            assert(vb.take(j + 1) =~= vb.take(j as int).push(vb[j as int]));
            j = j + 1;
            assert forall|k: int| 0 <= k < out@.len() && j < b@.len() implies row_before(
                #[trigger] rows_view(out@)[k],
                vb[j as int],
            ) by {
                if k < vo.len() {
                    lemma_row_before_transitive(vo[k], vb[j - 1], vb[j as int]);
                }
            }
        }
    }
    assert(va.take(a@.len() as int) =~= va);
    assert(vb.take(b@.len() as int) =~= vb);
    out
}

/// Sorts rows that hold each value once into row order.
pub fn sort_rows(rows: Vec<(String, usize)>) -> (r: Vec<(String, usize)>)
    requires
        keys_of(rows_view(rows@)).no_duplicates(),
    ensures
        rows_view(r@).to_multiset() == rows_view(rows@).to_multiset(),
        strictly_sorted(rows_view(r@)),
    decreases rows@.len(),
{
    let n = rows.len();
    if n <= 1 {
        return rows;
    }
    let ghost v = rows_view(rows@);
    let mut left = rows;
    let right = left.split_off(n / 2);
    let ghost vl = rows_view(left@);
    let ghost vr = rows_view(right@);
    assert(v =~= vl + vr);
    assert(keys_of(vl).no_duplicates()) by {
        assert forall|p: int, q: int| 0 <= p < keys_of(vl).len() && 0 <= q < keys_of(vl).len() && p != q implies keys_of(vl)[p] != keys_of(vl)[q] by {
            assert(keys_of(vl)[p] == keys_of(v)[p]);
            assert(keys_of(vl)[q] == keys_of(v)[q]);
        }
    }
    assert(keys_of(vr).no_duplicates()) by {
        assert forall|p: int, q: int| 0 <= p < keys_of(vr).len() && 0 <= q < keys_of(vr).len() && p != q implies keys_of(vr)[p] != keys_of(vr)[q] by {
            assert(keys_of(vr)[p] == keys_of(v)[p + vl.len()]);
            assert(keys_of(vr)[q] == keys_of(v)[q + vl.len()]);
        }
    }
    let sl = sort_rows(left);
    let sr = sort_rows(right);
    proof {
        let vsl = rows_view(sl@);
        let vsr = rows_view(sr@);
        assert forall|p: int, q: int| 0 <= p < sl@.len() && 0 <= q < sr@.len() implies #[trigger] vsl[p] != #[trigger] vsr[q] by {
            assert(vsl.to_multiset().count(vsl[p]) > 0);
            assert(vsr.to_multiset().count(vsr[q]) > 0);
            assert(vl.contains(vsl[p]));
            assert(vr.contains(vsr[q]));
            let x = choose|x: int| 0 <= x < vl.len() && vl[x] == vsl[p];
            let y = choose|y: int| 0 <= y < vr.len() && vr[y] == vsr[q];
            assert(keys_of(v)[x] == vl[x].0);
            assert(keys_of(v)[y + vl.len()] == vr[y].0);
        }
        lemma_multiset_commutative(vl, vr);
    }
    merge_rows(&sl, &sr)
}

/// A tally has as many rows as there are distinct values.
pub proof fn lemma_tally_len(t: Seq<(Seq<char>, usize)>, vals: Seq<Seq<char>>)
    requires
        tally(t, vals),
    ensures
        t.len() == distinct_of(vals),
        t.len() == 0 <==> vals.len() == 0,
{
    let ks = keys_of(t);
    ks.unique_seq_to_set();
    assert forall|x: Seq<char>| ks.to_set().contains(x) <==> vals.to_set().contains(x) by {
        if ks.contains(x) {
            let p = choose|p: int| 0 <= p < ks.len() && ks[p] == x;
            assert(t[p].1 > 0);
            assert(vals.to_multiset().count(x) > 0);
        }
        if vals.contains(x) {
            assert(ks.contains(x));
        }
    }
    assert(ks.to_set() =~= vals.to_set());
    if vals.len() > 0 {
        assert(vals.contains(vals[0]));
        assert(ks.contains(vals[0]));
    }
    if t.len() > 0 {
        assert(t[0].1 > 0);
        assert(vals.to_multiset().count(t[0].0) > 0);
    }
}

/// Sorting a tally and keeping its head ranks the values.
pub proof fn lemma_ranked(
    t: Seq<(Seq<char>, usize)>,
    s: Seq<(Seq<char>, usize)>,
    vals: Seq<Seq<char>>,
    top: nat,
)
    requires
        tally(t, vals),
        s.to_multiset() == t.to_multiset(),
        strictly_sorted(s),
    ensures
        s.len() == distinct_of(vals),
        top_rows(s.take(if top < s.len() { top as int } else { s.len() as int }), vals, top),
{
    lemma_tally_len(t, vals);
    let n: int = if top < s.len() {
        top as int
    } else {
        s.len() as int
    };
    let h = s.take(n);
    assert(s.to_multiset().len() == s.len());
    assert(t.to_multiset().len() == t.len());
    assert forall|i: int, j: int| 0 <= i < j < h.len() implies row_before(#[trigger] h[i], #[trigger] h[j]) by {
        assert(h[i] == s[i]);
        assert(h[j] == s[j]);
    }
    assert forall|i: int| 0 <= i < s.len() implies (#[trigger] s[i]).1 == count_of(vals, s[i].0)
        && s[i].1 > 0 && t.contains(s[i]) by {
        assert(s.to_multiset().count(s[i]) > 0);
        assert(t.contains(s[i]));
        let p = choose|p: int| 0 <= p < t.len() && t[p] == s[i];
        assert(t[p].1 > 0);
    }
    assert forall|i: int| 0 <= i < h.len() implies h[i].1 == count_of(vals, h[i].0) && #[trigger] h[i].1 > 0 by {
        assert(h[i] == s[i]);
    }
    assert forall|x: Seq<char>, i: int|
        #![trigger vals.contains(x), h[i]]
        vals.contains(x) && !keys_of(h).contains(x) && 0 <= i < h.len() implies row_before(
            h[i],
            (x, count_of(vals, x) as usize),
        ) by {
        assert(keys_of(t).contains(x));
        let p = choose|p: int| 0 <= p < keys_of(t).len() && keys_of(t)[p] == x;
        assert(t[p].1 == count_of(vals, x));
        assert(t.to_multiset().count(t[p]) > 0);
        assert(s.contains(t[p]));
        let q = choose|q: int| 0 <= q < s.len() && s[q] == t[p];
        if q < n {
            assert(keys_of(h)[q] == x);
        }
        assert(h[i] == s[i]);
        assert(s[q] == (x, count_of(vals, x) as usize));
    }
}

/// Row `r` names value `x` with its exact count.
proof fn lemma_row_of(rs: Seq<(Seq<char>, usize)>, vals: Seq<Seq<char>>, top: nat, k: int)
    requires
        top_rows(rs, vals, top),
        0 <= k < rs.len(),
    ensures
        rs[k] == (rs[k].0, count_of(vals, rs[k].0) as usize),
        vals.contains(rs[k].0),
{
    assert(rs[k].1 > 0);
    assert(vals.to_multiset().count(rs[k].0) > 0);
}

proof fn lemma_head_step(
    a: Seq<(Seq<char>, usize)>,
    b: Seq<(Seq<char>, usize)>,
    vals: Seq<Seq<char>>,
    n: nat,
    m: nat,
    i: int,
)
    requires
        top_rows(a, vals, n),
        top_rows(b, vals, m),
        n <= m,
        0 <= i < a.len(),
        forall|k: int| 0 <= k < i ==> a[k] == b[k],
    ensures
        i < b.len(),
        a[i] == b[i],
{
    assert(a.len() <= b.len());
    let x = a[i];
    let y = b[i];
    lemma_row_of(a, vals, n, i);
    lemma_row_of(b, vals, m, i);
    if x != y {
        lemma_row_before_total(x, y);
        if row_before(x, y) {
            // x's value must sit in b somewhere; wherever it sits, the order breaks
            if keys_of(b).contains(x.0) {
                let j = choose|j: int| 0 <= j < keys_of(b).len() && keys_of(b)[j] == x.0;
                lemma_row_of(b, vals, m, j);
                assert(b[j] == x);
                if j < i {
                    assert(a[j] == x);
                    assert(row_before(a[j], a[i]));
                    lemma_row_before_irreflexive(x);
                } else {
                    assert(j != i);
                    assert(row_before(b[i], b[j]));
                    lemma_row_before_transitive(x, y, x);
                    lemma_row_before_irreflexive(x);
                }
            } else {
                assert(vals.contains(x.0));
                assert(row_before(b[i], (x.0, count_of(vals, x.0) as usize)));
                lemma_row_before_transitive(x, y, x);
                lemma_row_before_irreflexive(x);
            }
        } else {
            assert(row_before(y, x));
            if keys_of(a).contains(y.0) {
                let k = choose|k: int| 0 <= k < keys_of(a).len() && keys_of(a)[k] == y.0;
                lemma_row_of(a, vals, n, k);
                assert(a[k] == y);
                if k < i {
                    assert(b[k] == y);
                    assert(row_before(b[k], b[i]));
                    lemma_row_before_irreflexive(y);
                } else {
                    assert(k != i);
                    assert(row_before(a[i], a[k]));
                    lemma_row_before_transitive(y, x, y);
                    lemma_row_before_irreflexive(y);
                }
            } else {
                assert(vals.contains(y.0));
                assert(row_before(a[i], (y.0, count_of(vals, y.0) as usize)));
                lemma_row_before_transitive(y, x, y);
                lemma_row_before_irreflexive(y);
            }
        }
    }
}

/// A shorter ranking of the same values is the head of a longer one: the
/// values a facet group shows are the first rows of the group's full
/// export table, and two rankings of the same length are equal.
pub proof fn law_ranking_head(
    a: Seq<(Seq<char>, usize)>,
    b: Seq<(Seq<char>, usize)>,
    vals: Seq<Seq<char>>,
    n: nat,
    m: nat,
)
    requires
        top_rows(a, vals, n),
        top_rows(b, vals, m),
        n <= m,
    ensures
        a.len() <= b.len(),
        a == b.take(a.len() as int),
{
    lemma_head_upto(a, b, vals, n, m, a.len() as int);
    assert(a =~= b.take(a.len() as int));
}

proof fn lemma_head_upto(
    a: Seq<(Seq<char>, usize)>,
    b: Seq<(Seq<char>, usize)>,
    vals: Seq<Seq<char>>,
    n: nat,
    m: nat,
    i: int,
)
    requires
        top_rows(a, vals, n),
        top_rows(b, vals, m),
        n <= m,
        0 <= i <= a.len(),
    ensures
        a.len() <= b.len(),
        forall|k: int| 0 <= k < i ==> a[k] == b[k],
    decreases i,
{
    if i > 0 {
        lemma_head_upto(a, b, vals, n, m, i - 1);
        lemma_head_step(a, b, vals, n, m, i - 1);
    }
}

/// The counts of `vals` at the keys `ks`, added up.
pub open spec fn count_sum(ks: Seq<Seq<char>>, vals: Seq<Seq<char>>) -> nat
    decreases ks.len(),
{
    if ks.len() == 0 {
        0
    } else {
        count_sum(ks.drop_last(), vals) + count_of(vals, ks.last())
    }
}

/// How many of the keys `ks` are `x`.
pub open spec fn occurrences(ks: Seq<Seq<char>>, x: Seq<char>) -> nat
    decreases ks.len(),
{
    if ks.len() == 0 {
        0
    } else {
        occurrences(ks.drop_last(), x) + if ks.last() == x {
            1nat
        } else {
            0nat
        }
    }
}

/// The counts of the rows, added up.
pub open spec fn rows_sum(rs: Seq<(Seq<char>, usize)>) -> nat
    decreases rs.len(),
{
    if rs.len() == 0 {
        0
    } else {
        rows_sum(rs.drop_last()) + rs.last().1 as nat
    }
}

proof fn lemma_count_sum_empty(ks: Seq<Seq<char>>, vals: Seq<Seq<char>>)
    requires
        vals.len() == 0,
    ensures
        count_sum(ks, vals) == 0,
    decreases ks.len(),
{
    if ks.len() > 0 {
        lemma_count_sum_empty(ks.drop_last(), vals);
        assert(vals.to_multiset().len() == 0);
        assert(vals.to_multiset() =~= vstd::multiset::Multiset::empty());
    }
}

proof fn lemma_count_sum_push(ks: Seq<Seq<char>>, vals: Seq<Seq<char>>, x: Seq<char>)
    ensures
        count_sum(ks, vals.push(x)) == count_sum(ks, vals) + occurrences(ks, x),
    decreases ks.len(),
{
    assert(vals.push(x).to_multiset() =~= vals.to_multiset().insert(x));
    if ks.len() > 0 {
        lemma_count_sum_push(ks.drop_last(), vals, x);
    }
}

proof fn lemma_occurrences_once(ks: Seq<Seq<char>>, x: Seq<char>)
    requires
        ks.no_duplicates(),
    ensures
        ks.contains(x) ==> occurrences(ks, x) == 1,
        !ks.contains(x) ==> occurrences(ks, x) == 0,
    decreases ks.len(),
{
    if ks.len() > 0 {
        let p = ks.drop_last();
        assert(p.no_duplicates());
        lemma_occurrences_once(p, x);
        if ks.last() == x {
            assert(!p.contains(x)) by {
                if p.contains(x) {
                    let j = choose|j: int| 0 <= j < p.len() && p[j] == x;
                    assert(ks[j] == ks[ks.len() - 1]);
                }
            }
        } else {
            if ks.contains(x) {
                let j = choose|j: int| 0 <= j < ks.len() && ks[j] == x;
                assert(p[j] == x);
            }
            if p.contains(x) {
                let j = choose|j: int| 0 <= j < p.len() && p[j] == x;
                assert(ks[j] == x);
            }
        }
    }
}

proof fn lemma_count_sum_total(ks: Seq<Seq<char>>, vals: Seq<Seq<char>>)
    requires
        ks.no_duplicates(),
        forall|y: Seq<char>| vals.contains(y) ==> #[trigger] ks.contains(y),
    ensures
        count_sum(ks, vals) == vals.len(),
    decreases vals.len(),
{
    if vals.len() == 0 {
        lemma_count_sum_empty(ks, vals);
    } else {
        let p = vals.drop_last();
        let x = vals.last();
        assert forall|y: Seq<char>| p.contains(y) implies #[trigger] ks.contains(y) by {
            let j = choose|j: int| 0 <= j < p.len() && p[j] == y;
            assert(vals[j] == y);
            assert(vals.contains(y));
        }
        lemma_count_sum_total(ks, p);
        assert(vals =~= p.push(x));
        lemma_count_sum_push(ks, p, x);
        assert(vals.contains(x)) by {
            assert(vals[vals.len() - 1] == x);
        }
        lemma_occurrences_once(ks, x);
    }
}

proof fn lemma_rows_sum_counts(rs: Seq<(Seq<char>, usize)>, vals: Seq<Seq<char>>)
    requires
        forall|i: int| 0 <= i < rs.len() ==> #[trigger] rs[i].1 == count_of(vals, rs[i].0),
    ensures
        rows_sum(rs) == count_sum(keys_of(rs), vals),
    decreases rs.len(),
{
    if rs.len() > 0 {
        let p = rs.drop_last();
        assert forall|i: int| 0 <= i < p.len() implies #[trigger] p[i].1 == count_of(vals, p[i].0) by {
            assert(p[i] == rs[i]);
        }
        lemma_rows_sum_counts(p, vals);
        assert(keys_of(rs).drop_last() =~= keys_of(p));
        assert(rs.last() == rs[rs.len() - 1]);
    }
}

/// The counts of a tally add up to the number of values counted: every
/// visible event with a value for the group is counted exactly once.
pub proof fn law_counts_add_up(rs: Seq<(Seq<char>, usize)>, vals: Seq<Seq<char>>)
    requires
        tally(rs, vals),
    ensures
        rows_sum(rs) == vals.len(),
{
    lemma_rows_sum_counts(rs, vals);
    lemma_count_sum_total(keys_of(rs), vals);
}

} // verus!
