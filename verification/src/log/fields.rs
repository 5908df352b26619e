//! The named fields of an event: a small map from field name to value.
use vstd::prelude::*;
use crate::text::{chars_less, chars_lt, chars_of, lemma_chars_lt_total, lemma_chars_lt_transitive, str_eq};

verus! {

/// Field name / value pairs, viewed as text.
pub type Pairs = Seq<(Seq<char>, Seq<char>)>;

/// Index of the first pair from `i` on whose name is `k`.
pub open spec fn index_of_key(p: Pairs, k: Seq<char>, i: int) -> Option<int>
    decreases p.len() - i,
{
    if i < 0 || i >= p.len() {
        None
    } else if p[i].0 == k {
        Some(i)
    } else {
        index_of_key(p, k, i + 1)
    }
}

/// The value stored under `k`, if any.
pub open spec fn lookup(p: Pairs, k: Seq<char>) -> Option<Seq<char>> {
    match index_of_key(p, k, 0) {
        Some(i) => Some(p[i].1),
        None => None,
    }
}

/// `p` after storing `v` under `k`: an existing value is replaced in place,
/// a new name goes last.
pub open spec fn put(p: Pairs, k: Seq<char>, v: Seq<char>) -> Pairs {
    match index_of_key(p, k, 0) {
        Some(i) => p.update(i, (k, v)),
        None => p.push((k, v)),
    }
}

/// No name occurs twice.
pub open spec fn keys_unique(p: Pairs) -> bool {
    forall|i: int, j: int| 0 <= i < j < p.len() ==> p[i].0 != p[j].0
}

pub proof fn lemma_index_of_key(p: Pairs, k: Seq<char>, i: int)
    requires
        0 <= i,
    ensures
        index_of_key(p, k, i) matches Some(j) ==> i <= j < p.len() && p[j].0 == k && forall|m: int|
            i <= m < j ==> p[m].0 != k,
        index_of_key(p, k, i) is None ==> forall|m: int| i <= m < p.len() ==> p[m].0 != k,
    decreases p.len() - i,
{
    if i < p.len() && p[i].0 != k {
        lemma_index_of_key(p, k, i + 1);
    }
}

/// A lookup after a `put` sees the value just stored, and every other name
/// keeps its value.
pub proof fn law_lookup_after_put(p: Pairs, k: Seq<char>, v: Seq<char>, q: Seq<char>)
    ensures
        lookup(put(p, k, v), q) == if q == k {
            Some(v)
        } else {
            lookup(p, q)
        },
{
    lemma_index_of_key(p, k, 0);
    lemma_index_of_key(p, q, 0);
    let p2 = put(p, k, v);
    lemma_index_of_key(p2, q, 0);
    match index_of_key(p, k, 0) {
        Some(i) => {
            if q == k {
                assert(p2[i].0 == k);
                if index_of_key(p2, q, 0) is None {
                    assert(false);
                }
            } else {
                match index_of_key(p, q, 0) {
                    Some(j) => {
                        assert(p2[j].0 == q);
                    },
                    None => {
                        if let Some(j) = index_of_key(p2, q, 0) {
                            assert(p2[j].0 == p[j].0 || j == i);
                        }
                    },
                }
                if let Some(j) = index_of_key(p2, q, 0) {
                    if let Some(j2) = index_of_key(p, q, 0) {
                        assert(p2[j2].0 == q);
                        assert(p[j].0 == q || j == i);
                    }
                }
            }
        },
        None => {
            if q == k {
                assert(p2[p.len() as int].0 == k);
                if let Some(j) = index_of_key(p2, q, 0) {
                    assert(j == p.len());
                }
            } else {
                match index_of_key(p, q, 0) {
                    Some(j) => {
                        assert(p2[j].0 == q);
                    },
                    None => {},
                }
                if let Some(j) = index_of_key(p2, q, 0) {
                    if let Some(j2) = index_of_key(p, q, 0) {
                        assert(p2[j2].0 == q);
                    }
                }
            }
        },
    }
}

/// Named values, each name at most once (what a `BTreeMap<String, String>`
/// holds). Pairs are kept in the order their names were first stored.
#[derive(Clone, Debug)]
pub struct FieldMap {
    entries: Vec<(String, String)>,
}

impl FieldMap {
    /// The pairs, as text.
    pub closed spec fn pairs(&self) -> Pairs {
        self.entries@.map_values(|e: (String, String)| (e.0@, e.1@))
    }

    pub open spec fn wf(&self) -> bool {
        keys_unique(self.pairs())
    }

    pub open spec fn spec_get(&self, k: Seq<char>) -> Option<Seq<char>> {
        lookup(self.pairs(), k)
    }

    pub fn new() -> (m: FieldMap)
        ensures
            m.pairs() == Seq::<(Seq<char>, Seq<char>)>::empty(),
            m.wf(),
    {
        let m = FieldMap { entries: Vec::new() };
        assert(m.pairs() =~= Seq::<(Seq<char>, Seq<char>)>::empty());
        m
    }

    /// Index of the first entry named `key`.
    fn position(&self, key: &str) -> (r: Option<usize>)
        ensures
            r matches Some(i) ==> index_of_key(self.pairs(), key@, 0) == Some(i as int),
            r is None ==> index_of_key(self.pairs(), key@, 0) is None,
    {
        let mut i: usize = 0;
        while i < self.entries.len()
            invariant
                i <= self.entries@.len(),
                index_of_key(self.pairs(), key@, 0) == index_of_key(self.pairs(), key@, i as int),
            decreases self.entries@.len() - i,
        {
            if str_eq(self.entries[i].0.as_str(), key) {
                return Some(i);
            }
            i = i + 1;
        }
        None
    }

    /// The value stored under `key`.
    pub fn get(&self, key: &str) -> (r: Option<&String>)
        ensures
            match r {
                Some(v) => self.spec_get(key@) == Some(v@),
                None => self.spec_get(key@) is None,
            },
    {
        proof {
            lemma_index_of_key(self.pairs(), key@, 0);
        }
        match self.position(key) {
            Some(i) => Some(&self.entries[i].1),
            None => None,
        }
    }

    pub fn contains_key(&self, key: &str) -> (r: bool)
        ensures
            r == self.spec_get(key@) is Some,
    {
        self.position(key).is_some()
    }

    /// Stores `value` under `key`, replacing what was there.
    pub fn insert(&mut self, key: String, value: String)
        requires
            old(self).wf(),
        ensures
            final(self).pairs() == put(old(self).pairs(), key@, value@),
            final(self).wf(),
    {
        let ghost old_p = self.pairs();
        proof {
            lemma_index_of_key(old_p, key@, 0);
        }
        match self.position(key.as_str()) {
            Some(i) => {
                self.entries.set(i, (key, value));
                assert(self.pairs() =~= put(old_p, key@, value@));
            },
            None => {
                self.entries.push((key, value));
                assert(self.pairs() =~= put(old_p, key@, value@));
            },
        }
    }

    pub fn len(&self) -> (n: usize)
        ensures
            n == self.pairs().len(),
    {
        self.entries.len()
    }

    pub fn is_empty(&self) -> (b: bool)
        ensures
            b == (self.pairs().len() == 0),
    {
        self.entries.len() == 0
    }

    /// The `i`-th pair, in storage order.
    pub fn entry(&self, i: usize) -> (r: (&String, &String))
        requires
            i < self.pairs().len(),
        ensures
            (r.0@, r.1@) == self.pairs()[i as int],
    {
        (&self.entries[i].0, &self.entries[i].1)
    }
}

/// `r` holds the pairs of `p` (names all different), ordered by name as
/// `chars_lt` orders text.
pub open spec fn in_name_order(p: Pairs, r: Pairs) -> bool {
    &&& r.len() == p.len()
    &&& forall|i: int, j: int| 0 <= i < j < r.len() ==> chars_lt(#[trigger] r[i].0, #[trigger] r[j].0)
    &&& forall|x: (Seq<char>, Seq<char>)| r.contains(x) <==> p.contains(x)
}

pub open spec fn entries_view(es: Seq<(String, String)>) -> Pairs {
    es.map_values(|e: (String, String)| (e.0@, e.1@))
}

impl FieldMap {
    /// The pairs in name order (the order a `BTreeMap` walks them in).
    pub fn sorted_entries(&self) -> (r: Vec<(String, String)>)
        requires
            self.wf(),
        ensures
            in_name_order(self.pairs(), entries_view(r@)),
    {
        let ghost p = self.pairs();
        let mut out: Vec<(String, String)> = Vec::new();
        let mut keys: Vec<Vec<char>> = Vec::new();
        let mut i: usize = 0;
        assert(p.take(0) =~= Seq::<(Seq<char>, Seq<char>)>::empty());
        while i < self.entries.len()
            invariant
                p == self.pairs(),
                keys_unique(p),
                i <= p.len(),
                keys@.len() == out@.len(),
                forall|q: int| 0 <= q < keys@.len() ==> (#[trigger] keys@[q])@ == entries_view(out@)[q].0,
                in_name_order(p.take(i as int), entries_view(out@)),
            decreases p.len() - i,
        {
            let ghost ov = entries_view(out@);
            let ghost kv = keys@;
            let k = chars_of(self.entries[i].0.as_str());
            assert(p[i as int] == (self.entries@[i as int].0@, self.entries@[i as int].1@));
            let mut pos: usize = 0;
            while pos < keys.len() && chars_less(&keys[pos], &k)
                invariant
                    pos <= keys@.len(),
                    keys@ == kv,
                    keys@.len() == ov.len(),
                    forall|q: int| 0 <= q < keys@.len() ==> (#[trigger] keys@[q])@ == ov[q].0,
                    forall|q: int| 0 <= q < pos ==> chars_lt(#[trigger] ov[q].0, k@),
                decreases keys@.len() - pos,
            {
                pos = pos + 1;
            }
            proof {
                lemma_name_insert(p, i as int, ov, pos as int);
            }
            let e = (self.entries[i].0.clone(), self.entries[i].1.clone());
            out.insert(pos, e);
            keys.insert(pos, k);
            assert(entries_view(out@) =~= ov.insert(pos as int, p[i as int]));
            assert forall|q: int| 0 <= q < keys@.len() implies (#[trigger] keys@[q])@ == entries_view(out@)[q].0 by {
                if q < pos {
                    assert(keys@[q] == kv[q]);
                } else if q > pos {
                    assert(keys@[q] == kv[q - 1]);
                }
            }
            i = i + 1;
        }
        assert(p.take(p.len() as int) =~= p);
        out
    }
}

/// Inserting the next pair where the search stopped keeps the pairs taken
/// so far in name order.
proof fn lemma_name_insert(p: Pairs, i: int, ov: Pairs, pos: int)
    requires
        keys_unique(p),
        0 <= i < p.len(),
        in_name_order(p.take(i), ov),
        0 <= pos <= ov.len(),
        forall|q: int| 0 <= q < pos ==> chars_lt(#[trigger] ov[q].0, p[i].0),
        pos < ov.len() ==> !chars_lt(ov[pos].0, p[i].0),
    ensures
        in_name_order(p.take(i + 1), ov.insert(pos, p[i])),
{
    let e = p[i];
    let t = p.take(i);
    let t1 = p.take(i + 1);
    let nv = ov.insert(pos, e);
    assert(t1 =~= t.push(e));
    // the new name differs from every name taken so far
    assert forall|q: int| 0 <= q < ov.len() implies ov[q].0 != e.0 by {
        assert(t.contains(ov[q]));
        let m = choose|m: int| 0 <= m < t.len() && t[m] == ov[q];
        assert(p[m] == t[m]);
    }
    assert forall|q: int| pos <= q < ov.len() implies chars_lt(e.0, #[trigger] ov[q].0) by {
        lemma_chars_lt_total(ov[pos].0, e.0);
        if q > pos {
            lemma_chars_lt_transitive(e.0, ov[pos].0, ov[q].0);
        }
    }
    assert forall|a: int, b: int| 0 <= a < b < nv.len() implies chars_lt(#[trigger] nv[a].0, #[trigger] nv[b].0) by {
        if b < pos {
            assert(nv[a] == ov[a] && nv[b] == ov[b]);
        } else if b == pos {
            assert(nv[a] == ov[a]);
        } else if a < pos {
            assert(nv[a] == ov[a] && nv[b] == ov[b - 1]);
            lemma_chars_lt_transitive(ov[a].0, e.0, ov[b - 1].0);
        } else if a == pos {
            assert(nv[b] == ov[b - 1]);
        } else {
            assert(nv[a] == ov[a - 1] && nv[b] == ov[b - 1]);
        }
    }
    assert forall|x: (Seq<char>, Seq<char>)| nv.contains(x) <==> t1.contains(x) by {
        if nv.contains(x) {
            let q = choose|q: int| 0 <= q < nv.len() && nv[q] == x;
            if q == pos {
                assert(t1[i] == x);
            } else {
                let oq = if q < pos { q } else { q - 1 };
                assert(nv[q] == ov[oq]);
                assert(t.contains(ov[oq]));
                let m = choose|m: int| 0 <= m < t.len() && t[m] == ov[oq];
                assert(t1[m] == x);
            }
        }
        if t1.contains(x) {
            let m = choose|m: int| 0 <= m < t1.len() && t1[m] == x;
            if m == i {
                assert(nv[pos] == x);
            } else {
                assert(t[m] == x);
                assert(t.contains(x));
                assert(ov.contains(x));
                let q = choose|q: int| 0 <= q < ov.len() && ov[q] == x;
                if q < pos {
                    assert(nv[q] == x);
                } else {
                    assert(nv[q + 1] == x);
                }
            }
        }
    }
}

} // verus!
