//! Which files look like logs, and how the picker lists them.
use vstd::prelude::*;
use crate::log::detect::{ends_with, has};
use crate::text::{chars_eq, chars_less, chars_lt, chars_of, lower_seq, to_lower_chars};
use crate::query::filter::{occurs, occurs_here};

verus! {

/// A file the picker offers: its path and size in bytes.
#[derive(Debug, Clone)]
pub struct CandidateLog {
    pub path: String,
    pub size: u64,
}

/// A directory the picker walks for logs, and how many levels deep.
/// A relative `dir` is taken from the working directory.
#[derive(Debug, Clone, Copy)]
pub struct ScanRoot {
    pub dir: &'static str,
    pub depth: usize,
}

/// Where the picker looks, in order: `var/log`, `var/logs`, `logs` and
/// `log` under the working directory, two levels deep, then the system's
/// `/var/log`, one level deep only, so as not to walk a huge tree.
pub fn scan_roots() -> (r: Vec<ScanRoot>)
    ensures
        r.len() == 5,
        r[0].dir@ == "var/log"@ && r[0].depth == 2,
        r[1].dir@ == "var/logs"@ && r[1].depth == 2,
        r[2].dir@ == "logs"@ && r[2].depth == 2,
        r[3].dir@ == "log"@ && r[3].depth == 2,
        r[4].dir@ == "/var/log"@ && r[4].depth == 1,
{
    let mut r: Vec<ScanRoot> = Vec::new();
    r.push(ScanRoot { dir: "var/log", depth: 2 });
    r.push(ScanRoot { dir: "var/logs", depth: 2 });
    r.push(ScanRoot { dir: "logs", depth: 2 });
    r.push(ScanRoot { dir: "log", depth: 2 });
    r.push(ScanRoot { dir: "/var/log", depth: 1 });
    r
}

/// How deep the picker walks a directory given on the command line.
pub const DIR_SCAN_DEPTH: usize = 2;

/// A file name that looks like a log: `.log` (possibly gzip-compressed),
/// rotated (`.log.N`), `_log`, `syslog` or `messages`; never `.bz2` or
/// `.zip`. ASCII case is ignored.
pub open spec fn log_like(name: Seq<char>) -> bool {
    let raw = lower_seq(name);
    if ends_with(raw, ".bz2"@) || ends_with(raw, ".zip"@) {
        false
    } else {
        let n = if ends_with(raw, ".gz"@) {
            raw.take(raw.len() - 3)
        } else {
            raw
        };
        ends_with(n, ".log"@) || has(n, ".log."@) || ends_with(n, "_log"@) || n == "syslog"@ || n
            == "messages"@
    }
}

fn ends_lit(h: &Vec<char>, lit: &str) -> (b: bool)
    ensures
        b == ends_with(h@, lit@),
{
    let n = chars_of(lit);
    if n.len() > h.len() {
        false
    } else {
        occurs_here(h, &n, h.len() - n.len())
    }
}

fn has_lit(h: &Vec<char>, lit: &str) -> (b: bool)
    ensures
        b == has(h@, lit@),
{
    let n = chars_of(lit);
    occurs(h, &n)
}

/// The file name `name` looks like a log.
pub fn is_log_like(name: &str) -> (b: bool)
    ensures
        b == log_like(name@),
{
    let raw = to_lower_chars(&chars_of(name));
    if ends_lit(&raw, ".bz2") || ends_lit(&raw, ".zip") {
        return false;
    }
    let mut n: Vec<char> = Vec::new();
    let gz = ends_lit(&raw, ".gz");
    proof {
        reveal_strlit(".gz");
    }
    let cut = if gz {
        raw.len() - 3
    } else {
        raw.len()
    };
    let mut i: usize = 0;
    while i < cut
        invariant
            cut <= raw@.len(),
            i <= cut,
            n@ == raw@.take(i as int),
        decreases cut - i,
    {
        n.push(raw[i]);
        assert(raw@.take(i + 1) =~= raw@.take(i as int).push(raw@[i as int]));
        i = i + 1;
    }
    assert(gz ==> n@ == raw@.take(raw@.len() - 3));
    assert(!gz ==> n@ =~= raw@);
    ends_lit(&n, ".log") || has_lit(&n, ".log.") || ends_lit(&n, "_log") || chars_eq(
        &n,
        &chars_of("syslog"),
    ) || chars_eq(&n, &chars_of("messages"))
}

/// The components of a path (split at `/`, empty ones dropped), joined
/// with NUL. Comparing these keys with `chars_lt` compares paths
/// component by component, as paths are ordered, for paths made of plain
/// components; equal keys mean the same components. Unlike `Path`, the key
/// does not tell `/a` from `a` (a leading `/` is dropped like any other),
/// keeps `.` components that `Path` drops, and orders `.` and `..` among
/// the names by their characters (`Path` puts them before every name).
pub open spec fn path_key(p: Seq<char>) -> Seq<char> {
    key_upto(p, p.len() as int)
}

pub open spec fn key_upto(p: Seq<char>, k: int) -> Seq<char>
    decreases k,
{
    if k <= 0 {
        Seq::empty()
    } else {
        let prev = key_upto(p, k - 1);
        let c = p[k - 1];
        if c == '/' {
            prev
        } else if k >= 2 && p[k - 2] == '/' && prev.len() > 0 {
            prev.push('\0').push(c)
        } else {
            prev.push(c)
        }
    }
}

pub fn path_key_of(p: &str) -> (r: Vec<char>)
    ensures
        r@ == path_key(p@),
{
    let cs = chars_of(p);
    let mut r: Vec<char> = Vec::new();
    let mut k: usize = 0;
    while k < cs.len()
        invariant
            k <= cs@.len(),
            cs@ == p@,
            r@ == key_upto(p@, k as int),
        decreases cs@.len() - k,
    {
        let c = cs[k];
        if c == '/' {
        } else if k >= 1 && cs[k - 1] == '/' && r.len() > 0 {
            r.push('\0');
            r.push(c);
        } else {
            r.push(c);
        }
        k = k + 1;
    }
    r
}

pub open spec fn cand_view(c: CandidateLog) -> (Seq<char>, u64) {
    (c.path@, c.size)
}

pub open spec fn cands_view(cs: Seq<CandidateLog>) -> Seq<(Seq<char>, u64)> {
    cs.map_values(|c: CandidateLog| cand_view(c))
}

/// `found[j]` is the first candidate with its path.
pub open spec fn first_of_path(found: Seq<(Seq<char>, u64)>, j: int) -> bool {
    0 <= j < found.len() && forall|m: int|
        0 <= m < j ==> path_key(#[trigger] found[m].0) != path_key(found[j].0)
}

/// `x` is the first candidate of `found` with its path.
pub open spec fn kept(found: Seq<(Seq<char>, u64)>, x: (Seq<char>, u64)) -> bool {
    exists|j: int| first_of_path(found, j) && found[j] == x
}

/// Some entry of `r` has path key `k`.
pub open spec fn key_in(r: Seq<(Seq<char>, u64)>, k: Seq<char>) -> bool {
    exists|i: int| 0 <= i < r.len() && path_key(r[i].0) == k
}

/// `r` lists the paths of `found` once each, in path order, each with the
/// candidate that came first with that path.
pub open spec fn listed(found: Seq<(Seq<char>, u64)>, r: Seq<(Seq<char>, u64)>) -> bool {
    &&& forall|i: int, j: int|
        0 <= i < j < r.len() ==> chars_lt(path_key(#[trigger] r[i].0), path_key(#[trigger] r[j].0))
    &&& forall|i: int| 0 <= i < r.len() ==> kept(found, #[trigger] r[i])
    &&& forall|j: int| 0 <= j < found.len() ==> key_in(r, path_key(#[trigger] found[j].0))
}

proof fn lemma_kept_push(ft: Seq<(Seq<char>, u64)>, e: (Seq<char>, u64), x: (Seq<char>, u64))
    requires
        kept(ft, x),
    ensures
        kept(ft.push(e), x),
{
    let ft1 = ft.push(e);
    let j = choose|j: int| first_of_path(ft, j) && ft[j] == x;
    assert(ft1[j] == ft[j]);
    assert forall|m: int| 0 <= m < j implies path_key(#[trigger] ft1[m].0) != path_key(ft1[j].0) by {
        assert(ft1[m] == ft[m]);
    }
    assert(first_of_path(ft1, j));
}

/// Sorts the files found by path and keeps each path once.
pub fn scan(found: Vec<CandidateLog>) -> (r: Vec<CandidateLog>)
    ensures
        listed(cands_view(found@), cands_view(r@)),
{
    let ghost fv = cands_view(found@);
    let mut out: Vec<CandidateLog> = Vec::new();
    let mut keys: Vec<Vec<char>> = Vec::new();
    let mut i: usize = 0;
    while i < found.len()
        invariant
            i <= found@.len(),
            fv == cands_view(found@),
            keys@.len() == out@.len(),
            forall|q: int| 0 <= q < keys@.len() ==> (#[trigger] keys@[q])@ == path_key(out@[q].path@),
            listed(fv.take(i as int), cands_view(out@)),
        decreases found@.len() - i,
    {
        let ghost ov = cands_view(out@);
        let ghost ft = fv.take(i as int);
        let ghost ft1 = fv.take(i + 1);
        assert(ft1 =~= ft.push(fv[i as int]));
        let k = path_key_of(found[i].path.as_str());
        let mut pos: usize = 0;
        while pos < keys.len() && chars_less(&keys[pos], &k)
            invariant
                pos <= keys@.len(),
                keys@.len() == out@.len(),
                forall|q: int| 0 <= q < keys@.len() ==> (#[trigger] keys@[q])@ == path_key(out@[q].path@),
                forall|q: int| 0 <= q < pos ==> chars_lt(#[trigger] keys@[q]@, k@),
            decreases keys@.len() - pos,
        {
            pos = pos + 1;
        }
        let dup = pos < keys.len() && chars_eq(&keys[pos], &k);
        proof {
            if pos < keys@.len() {
                assert(ov[pos as int] == cand_view(out@[pos as int]));
            }
            assert(ft1[i as int] == cand_view(found@[i as int]));
            assert(fv[i as int] == cand_view(found@[i as int]));
            assert(k@ == path_key(fv[i as int].0));
            assert forall|q: int| 0 <= q < pos implies chars_lt(path_key(#[trigger] ov[q].0), path_key(fv[i as int].0)) by {
                assert(ov[q] == cand_view(out@[q]));
                assert(keys@[q]@ == path_key(out@[q].path@));
                assert(chars_lt(keys@[q]@, k@));
            }
        }
        if dup {
            proof {
                lemma_listed_dup(ft, ov, fv[i as int], pos as int);
            }
        } else {
            proof {
                lemma_after(ov, fv[i as int], pos as int);
            }
            let c = CandidateLog { path: found[i].path.clone(), size: found[i].size };
            let ghost kv = keys@;
            let ghost oo = out@;
            out.insert(pos, c);
            keys.insert(pos, k);
            assert(cands_view(out@) =~= ov.insert(pos as int, fv[i as int]));
            proof {
                lemma_listed_insert(ft, ov, fv[i as int], pos as int);
                assert forall|q: int| 0 <= q < keys@.len() implies (#[trigger] keys@[q])@ == path_key(out@[q].path@) by {
                    if q > pos {
                        assert(keys@[q] == kv[q - 1]);
                        assert(out@[q] == oo[q - 1]);
                    } else if q < pos {
                        assert(keys@[q] == kv[q]);
                        assert(out@[q] == oo[q]);
                    }
                }
            }
        }
        i = i + 1;
    }
    assert(fv.take(found@.len() as int) =~= fv);
    out
}

proof fn lemma_listed_dup(
    ft: Seq<(Seq<char>, u64)>,
    ov: Seq<(Seq<char>, u64)>,
    e: (Seq<char>, u64),
    pos: int,
)
    requires
        listed(ft, ov),
        0 <= pos < ov.len(),
        path_key(ov[pos].0) == path_key(e.0),
    ensures
        listed(ft.push(e), ov),
{
    let ft1 = ft.push(e);
    assert forall|j: int| 0 <= j < ft1.len() implies key_in(ov, path_key(#[trigger] ft1[j].0)) by {
        if j < ft.len() {
            assert(ft1[j] == ft[j]);
        } else {
            assert(path_key(ov[pos].0) == path_key(ft1[j].0));
        }
    }
    assert forall|q: int| 0 <= q < ov.len() implies kept(ft1, #[trigger] ov[q]) by {
        lemma_kept_push(ft, e, ov[q]);
    }
}

proof fn lemma_after(ov: Seq<(Seq<char>, u64)>, e: (Seq<char>, u64), pos: int)
    requires
        forall|a: int, b: int|
            0 <= a < b < ov.len() ==> chars_lt(path_key(#[trigger] ov[a].0), path_key(#[trigger] ov[b].0)),
        0 <= pos <= ov.len(),
        pos < ov.len() ==> !chars_lt(path_key(ov[pos].0), path_key(e.0)),
        pos < ov.len() ==> path_key(ov[pos].0) != path_key(e.0),
    ensures
        forall|q: int| pos <= q < ov.len() ==> chars_lt(path_key(e.0), path_key(#[trigger] ov[q].0)),
{
    assert forall|q: int| pos <= q < ov.len() implies chars_lt(path_key(e.0), path_key(#[trigger] ov[q].0)) by {
        lemma_total_keys(path_key(ov[pos].0), path_key(e.0));
        if q > pos {
            crate::text::lemma_chars_lt_transitive(path_key(e.0), path_key(ov[pos].0), path_key(ov[q].0));
        }
    }
}

#[verifier::rlimit(30)]
proof fn lemma_listed_insert(
    ft: Seq<(Seq<char>, u64)>,
    ov: Seq<(Seq<char>, u64)>,
    e: (Seq<char>, u64),
    pos: int,
)
    requires
        listed(ft, ov),
        0 <= pos <= ov.len(),
        forall|q: int| 0 <= q < pos ==> chars_lt(path_key(#[trigger] ov[q].0), path_key(e.0)),
        forall|q: int| pos <= q < ov.len() ==> chars_lt(path_key(e.0), path_key(#[trigger] ov[q].0)),
    ensures
        listed(ft.push(e), ov.insert(pos, e)),
{
    let ft1 = ft.push(e);
    let nv = ov.insert(pos, e);
    let i = ft.len() as int;
    let k = path_key(e.0);
    assert forall|q: int| 0 <= q < ov.len() implies path_key(#[trigger] ov[q].0) != k by {
        crate::text::lemma_chars_lt_irreflexive(k);
    }
    assert forall|a: int, b: int| 0 <= a < b < nv.len() implies chars_lt(path_key(#[trigger] nv[a].0), path_key(#[trigger] nv[b].0)) by {
        if b < pos {
            assert(nv[a] == ov[a] && nv[b] == ov[b]);
        } else if b == pos {
            assert(nv[a] == ov[a]);
        } else if a < pos {
            assert(nv[a] == ov[a] && nv[b] == ov[b - 1]);
            crate::text::lemma_chars_lt_transitive(path_key(ov[a].0), k, path_key(ov[b - 1].0));
        } else if a == pos {
            assert(nv[b] == ov[b - 1]);
        } else {
            assert(nv[a] == ov[a - 1] && nv[b] == ov[b - 1]);
        }
    }
    assert(first_of_path(ft1, i)) by {
        assert forall|m: int| 0 <= m < i implies path_key(#[trigger] ft1[m].0) != path_key(ft1[i].0) by {
            assert(ft1[m] == ft[m]);
            assert(key_in(ov, path_key(ft[m].0)));
        }
    }
    assert forall|q: int| 0 <= q < nv.len() implies kept(ft1, #[trigger] nv[q]) by {
        if q == pos {
            assert(nv[q] == ft1[i]);
        } else {
            let oq = if q < pos { q } else { q - 1 };
            assert(nv[q] == ov[oq]);
            lemma_kept_push(ft, e, ov[oq]);
        }
    }
    assert forall|j: int| 0 <= j < ft1.len() implies key_in(nv, path_key(#[trigger] ft1[j].0)) by {
        if j < ft.len() {
            assert(ft1[j] == ft[j]);
            assert(key_in(ov, path_key(ft[j].0)));
            let w = choose|w: int| 0 <= w < ov.len() && path_key(ov[w].0) == path_key(ft[j].0);
            if w < pos {
                assert(nv[w] == ov[w]);
            } else {
                assert(nv[w + 1] == ov[w]);
            }
        } else {
            assert(nv[pos] == ft1[j]);
        }
    }
}

proof fn lemma_total_keys(a: Seq<char>, b: Seq<char>)
    requires
        !chars_lt(a, b),
    ensures
        a == b || chars_lt(b, a),
{
    if a != b {
        crate::text::lemma_chars_lt_total(a, b);
    }
}

/// A gzip-compressed log still looks like a log: `x.gz` is judged as `x`
/// (for a name not already ending in `.gz`, `.bz2` or `.zip`).
pub proof fn law_log_like_ignores_gz(name: Seq<char>)
    requires
        !ends_with(lower_seq(name), ".gz"@),
        !ends_with(lower_seq(name), ".bz2"@),
        !ends_with(lower_seq(name), ".zip"@),
    ensures
        log_like(name + ".gz"@) == log_like(name),
{
    crate::log::detect::lemma_base_name_gz(name);
    reveal_strlit(".gz");
    reveal_strlit(".bz2");
    reveal_strlit(".zip");
    let lg = lower_seq(name + ".gz"@);
    assert(lg == lower_seq(name) + ".gz"@) by {
        assert(lower_seq(name + ".gz"@) =~= lower_seq(name) + ".gz"@);
    }
    assert(lg[lg.len() - 1] == 'z');
    if ends_with(lg, ".bz2"@) {
        assert(lg.subrange(lg.len() - 4, lg.len() as int)[3] == '2');
    }
    if ends_with(lg, ".zip"@) {
        assert(lg.subrange(lg.len() - 4, lg.len() as int)[3] == 'p');
    }
}

} // verus!
