//! Guessing a file's log format: first from its name, then from how many of
//! its first non-blank lines each grammar reads.
use vstd::prelude::*;
use vstd::utf8::encode_utf8;
use crate::log::format::LogFormat;
use crate::log::parser::{format_parse, parser_for, LogParser};
use crate::query::filter::{occurs, occurs_at, occurs_here};
use crate::text::{
    blank_from, chars_of, ci_eq, ci_eq_char, is_blank_from, lower_seq, rfind_char,
    rfind_char_before, sub_chars, to_lower_chars,
};

verus! {

/// How many non-blank lines a sample holds at most.
pub const SAMPLE_LINES: usize = 50;

/// `n` occurs somewhere in `h`.
pub open spec fn has(h: Seq<char>, n: Seq<char>) -> bool {
    exists|i: int| occurs_at(h, n, i)
}

pub open spec fn ends_with(h: Seq<char>, n: Seq<char>) -> bool {
    n.len() <= h.len() && occurs_at(h, n, h.len() - n.len())
}

pub open spec fn starts_with(h: Seq<char>, n: Seq<char>) -> bool {
    occurs_at(h, n, 0)
}

/// A file name, ASCII lower-cased, without one trailing `.gz`.
pub open spec fn base_name(name: Seq<char>) -> Seq<char> {
    let l = lower_seq(name);
    if ends_with(l, ".gz"@) {
        l.take(l.len() - 3)
    } else {
        l
    }
}

/// The format a file name suggests.
pub open spec fn hint_of(name: Seq<char>) -> Option<LogFormat> {
    let n = base_name(name);
    if has(n, "php"@) && (has(n, "error"@) || has(n, "err"@)) {
        Some(LogFormat::PhpError)
    } else if has(n, "nginx"@) && has(n, "access"@) {
        Some(LogFormat::NginxAccess)
    } else if has(n, "nginx"@) && has(n, "error"@) {
        Some(LogFormat::NginxError)
    } else if (has(n, "apache"@) || has(n, "httpd"@)) && has(n, "access"@) {
        Some(LogFormat::ApacheAccess)
    } else if (has(n, "apache"@) || has(n, "httpd"@)) && has(n, "error"@) {
        Some(LogFormat::ApacheError)
    } else if ends_with(n, "prod.log"@) || ends_with(n, "dev.log"@) || has(n, "symfony"@) {
        Some(LogFormat::SymfonyMonolog)
    } else if n == "access.log"@ || starts_with(n, "access.log."@) {
        Some(LogFormat::NginxAccess)
    } else if n == "error.log"@ || starts_with(n, "error.log."@) {
        Some(LogFormat::NginxError)
    } else {
        None
    }
}

fn has_lit(h: &Vec<char>, lit: &str) -> (b: bool)
    ensures
        b == has(h@, lit@),
{
    let n = chars_of(lit);
    occurs(h, &n)
}

fn ends_with_lit(h: &Vec<char>, lit: &str) -> (b: bool)
    ensures
        b == ends_with(h@, lit@),
{
    let n = chars_of(lit);
    if n.len() > h.len() {
        false
    } else {
        occurs_here(h, &n, h.len() - n.len())
    }
}

fn starts_with_lit(h: &Vec<char>, lit: &str) -> (b: bool)
    ensures
        b == starts_with(h@, lit@),
{
    let n = chars_of(lit);
    if n.len() > h.len() {
        false
    } else {
        occurs_here(h, &n, 0)
    }
}

fn is_lit(h: &Vec<char>, lit: &str) -> (b: bool)
    ensures
        b == (h@ == lit@),
{
    let n = chars_of(lit);
    if n.len() != h.len() {
        false
    } else {
        let r = occurs_here(h, &n, 0);
        assert(h@.subrange(0, h@.len() as int) =~= h@);
        r
    }
}

/// The format the file name `name` suggests, if any.
pub fn hint_from_name(name: &str) -> (r: Option<LogFormat>)
    ensures
        r == hint_of(name@),
{
    let raw = to_lower_chars(&chars_of(name));
    let n = if ends_with_lit(&raw, ".gz") {
        proof {
            reveal_strlit(".gz");
        }
        sub_chars(&raw, 0, raw.len() - 3)
    } else {
        raw
    };
    assert(n@ == base_name(name@)) by {
        reveal_strlit(".gz");
    }
    if has_lit(&n, "php") && (has_lit(&n, "error") || has_lit(&n, "err")) {
        return Some(LogFormat::PhpError);
    }
    if has_lit(&n, "nginx") && has_lit(&n, "access") {
        return Some(LogFormat::NginxAccess);
    }
    if has_lit(&n, "nginx") && has_lit(&n, "error") {
        return Some(LogFormat::NginxError);
    }
    if has_lit(&n, "apache") || has_lit(&n, "httpd") {
        if has_lit(&n, "access") {
            return Some(LogFormat::ApacheAccess);
        }
        if has_lit(&n, "error") {
            return Some(LogFormat::ApacheError);
        }
    }
    if ends_with_lit(&n, "prod.log") || ends_with_lit(&n, "dev.log") || has_lit(&n, "symfony") {
        return Some(LogFormat::SymfonyMonolog);
    }
    if is_lit(&n, "access.log") || starts_with_lit(&n, "access.log.") {
        return Some(LogFormat::NginxAccess);
    }
    if is_lit(&n, "error.log") || starts_with_lit(&n, "error.log.") {
        return Some(LogFormat::NginxError);
    }
    None
}

/// The file name's extension (after its last `.`, which must not be its
/// first character) is `gz` in any case.
pub open spec fn gz_named(name: Seq<char>) -> bool {
    match rfind_char(name, name.len() as int, '.') {
        Some(i) => i > 0 && name.len() - i - 1 == 2 && ci_eq(name[i + 1], 'g') && ci_eq(
            name[i + 2],
            'z',
        ),
        None => false,
    }
}

/// The file is gzip-compressed, going by its name.
pub fn is_gzip(name: &str) -> (b: bool)
    ensures
        b == gz_named(name@),
{
    let cs = chars_of(name);
    match rfind_char_before(&cs, cs.len(), '.') {
        Some(i) => i > 0 && cs.len() - i - 1 == 2 && ci_eq_char(cs[i + 1], 'g') && ci_eq_char(
            cs[i + 2],
            'z',
        ),
        None => false,
    }
}

/// A line made of white space only.
pub open spec fn is_blank(s: Seq<char>) -> bool {
    blank_from(s, 0)
}

/// The first non-blank lines a reader meets, up to `SAMPLE_LINES`.
pub struct Sample {
    pub lines: Vec<String>,
}

pub open spec fn lines_view(ls: Seq<String>) -> Seq<Seq<char>> {
    ls.map_values(|l: String| l@)
}

impl Sample {
    pub fn new() -> (s: Sample)
        ensures
            s.lines@.len() == 0,
    {
        Sample { lines: Vec::new() }
    }

    /// Takes the next line read; says whether more lines are wanted.
    pub fn offer(&mut self, line: String) -> (more: bool)
        requires
            old(self).lines@.len() < SAMPLE_LINES,
        ensures
            lines_view(final(self).lines@) == if is_blank(line@) {
                lines_view(old(self).lines@)
            } else {
                lines_view(old(self).lines@).push(line@)
            },
            more == (final(self).lines@.len() < SAMPLE_LINES),
    {
        let cs = chars_of(line.as_str());
        if !is_blank_from(&cs, 0) {
            let ghost before = self.lines@;
            self.lines.push(line);
            assert(lines_view(self.lines@) =~= lines_view(before).push(cs@));
        }
        self.lines.len() < SAMPLE_LINES
    }
}

/// The byte length of a line, as a `u32` (cut, as `as` does).
pub open spec fn len32(s: Seq<char>) -> u32 {
    (encode_utf8(s).len() as usize) as u32
}

/// How many of the lines grammar `f` reads, numbering them from 1.
pub open spec fn hits_of(f: LogFormat, ls: Seq<Seq<char>>) -> nat
    decreases ls.len(),
{
    if ls.len() == 0 {
        0
    } else {
        let k = ls.len() - 1;
        hits_of(f, ls.drop_last()) + if format_parse(f, ls.len() as u32, 0, len32(ls[k]), ls[k]) is Some {
            1nat
        } else {
            0nat
        }
    }
}

/// How many sample lines grammar `format` reads; `None` for an empty sample.
pub fn score_sample(format: LogFormat, lines: &Vec<String>) -> (r: Option<(usize, usize)>)
    requires
        lines@.len() <= SAMPLE_LINES,
    ensures
        match r {
            Some((hits, total)) => lines@.len() > 0 && total == lines@.len() && hits <= total && hits == hits_of(
                format,
                lines_view(lines@),
            ),
            None => lines@.len() == 0,
        },
{
    let parser = parser_for(format);
    let mut hits: usize = 0;
    let mut i: usize = 0;
    assert(lines_view(lines@).take(0) =~= Seq::<Seq<char>>::empty());
    while i < lines.len()
        invariant
            lines@.len() <= SAMPLE_LINES,
            parser.format == format,
            i <= lines@.len(),
            hits <= i,
            hits == hits_of(format, lines_view(lines@).take(i as int)),
        decreases lines@.len() - i,
    {
        let line = lines[i].as_str();
        let len: u32 = #[verifier::truncate] (line.len() as u32);
        let r = parser.parse((i + 1) as u32, 0, len, line);
        let ghost t = lines_view(lines@).take(i + 1);
        assert(t.drop_last() =~= lines_view(lines@).take(i as int));
        assert(t[i as int] == lines@[i as int]@);
        if r.is_some() {
            hits = hits + 1;
        }
        i = i + 1;
    }
    assert(lines_view(lines@).take(lines@.len() as int) =~= lines_view(lines@));
    if i == 0 {
        None
    } else {
        Some((hits, i))
    }
}

/// A score of `hits` out of `total` reaches one half.
pub open spec fn passes(hits: nat, total: nat) -> bool {
    total > 0 && 2 * hits >= total
}

/// The formats content detection tries, in order.
pub open spec fn candidates() -> Seq<LogFormat> {
    seq![
        LogFormat::SymfonyMonolog,
        LogFormat::PhpError,
        LogFormat::NginxAccess,
        LogFormat::NginxError,
        LogFormat::ApacheAccess,
        LogFormat::ApacheError,
    ]
}

/// The best of the first `k` candidates on the sample, with its hits and
/// total: a later candidate wins only with a strictly higher share.
pub open spec fn best_upto(ls: Seq<Seq<char>>, k: nat) -> (LogFormat, nat, nat)
    decreases k,
{
    if k == 0 {
        (LogFormat::Generic, 0, 1)
    } else {
        let b = best_upto(ls, (k - 1) as nat);
        let f = candidates()[k - 1];
        let h = hits_of(f, ls);
        if ls.len() > 0 && h * b.2 > b.1 * ls.len() {
            (f, h, ls.len())
        } else {
            b
        }
    }
}

/// The format the sample's content points to: the best candidate if it
/// reads at least half the lines, else `Generic`.
pub open spec fn content_choice(ls: Seq<Seq<char>>) -> LogFormat {
    let b = best_upto(ls, 6);
    if passes(b.1, b.2) {
        b.0
    } else {
        LogFormat::Generic
    }
}

/// The format of a file named `name` whose sample is `ls`: the name's hint
/// when its grammar reads at least half the sample, else the content's.
pub open spec fn detect_spec(name: Seq<char>, ls: Seq<Seq<char>>) -> LogFormat {
    match hint_of(name) {
        Some(h) => if passes(hits_of(h, ls), ls.len()) {
            h
        } else {
            content_choice(ls)
        },
        None => content_choice(ls),
    }
}

proof fn lemma_hits_bound(f: LogFormat, ls: Seq<Seq<char>>)
    ensures
        hits_of(f, ls) <= ls.len(),
    decreases ls.len(),
{
    if ls.len() > 0 {
        lemma_hits_bound(f, ls.drop_last());
    }
}

fn candidate(k: usize) -> (f: LogFormat)
    requires
        k < 6,
    ensures
        f == candidates()[k as int],
{
    match k {
        0 => LogFormat::SymfonyMonolog,
        1 => LogFormat::PhpError,
        2 => LogFormat::NginxAccess,
        3 => LogFormat::NginxError,
        4 => LogFormat::ApacheAccess,
        _ => LogFormat::ApacheError,
    }
}

/// The format the sample's content points to.
pub fn detect_from_content(lines: &Vec<String>) -> (f: LogFormat)
    requires
        lines@.len() <= SAMPLE_LINES,
    ensures
        f == content_choice(lines_view(lines@)),
{
    let ghost ls = lines_view(lines@);
    let mut best = LogFormat::Generic;
    let mut bh: usize = 0;
    let mut bt: usize = 1;
    let mut k: usize = 0;
    while k < 6
        invariant
            lines@.len() <= SAMPLE_LINES,
            ls == lines_view(lines@),
            k <= 6,
            best_upto(ls, k as nat) == (best, bh as nat, bt as nat),
            bh <= bt <= SAMPLE_LINES,
            bt > 0,
        decreases 6 - k,
    {
        let f = candidate(k);
        match score_sample(f, lines) {
            Some((h, t)) => {
                proof {
                    lemma_hits_bound(f, ls);
                }
                assert(h * bt <= 2500) by (nonlinear_arith)
                    requires
                        h <= 50,
                        bt <= 50,
                ;
                assert(bh * t <= 2500) by (nonlinear_arith)
                    requires
                        bh <= 50,
                        t <= 50,
                ;
                if h * bt > bh * t {
                    best = f;
                    bh = h;
                    bt = t;
                }
            },
            None => {},
        }
        k = k + 1;
    }
    if bt > 0 && 2 * bh >= bt {
        best
    } else {
        LogFormat::Generic
    }
}

/// The format of a file named `name` whose first non-blank lines are
/// `lines`.
pub fn detect_from_sample(name: &str, lines: &Vec<String>) -> (f: LogFormat)
    requires
        lines@.len() <= SAMPLE_LINES,
    ensures
        f == detect_spec(name@, lines_view(lines@)),
{
    if let Some(hint) = hint_from_name(name) {
        if let Some((h, t)) = score_sample(hint, lines) {
            if 2 * h >= t {
                return hint;
            }
        }
    }
    detect_from_content(lines)
}

/// ASCII lower case leaves `.gz` alone and distributes over joining.
proof fn lemma_lower_gz(name: Seq<char>)
    ensures
        lower_seq(name + ".gz"@) == lower_seq(name) + ".gz"@,
{
    reveal_strlit(".gz");
    assert(lower_seq(name + ".gz"@) =~= lower_seq(name) + ".gz"@);
}

/// The name with `.gz` appended has `name`'s base name, unless the name
/// already ends in `.gz`.
pub proof fn lemma_base_name_gz(name: Seq<char>)
    requires
        !ends_with(lower_seq(name), ".gz"@),
    ensures
        base_name(name + ".gz"@) == base_name(name),
        base_name(name) == lower_seq(name),
{
    reveal_strlit(".gz");
    lemma_lower_gz(name);
    let l = lower_seq(name);
    let lg = l + ".gz"@;
    assert(lg.subrange(lg.len() - 3, lg.len() as int) =~= ".gz"@);
    assert(ends_with(lg, ".gz"@));
    assert(lg.take(lg.len() - 3) =~= l);
}

/// A file name suggests the same format in any ASCII case.
pub proof fn law_hint_ignores_case(name: Seq<char>)
    ensures
        hint_of(crate::text::upper_seq(name)) == hint_of(name),
{
    crate::text::lemma_lower_of_upper(name);
}

/// A gzip-compressed file suggests the same format as its inner name:
/// `x.gz` is read as `x` (for a name not already ending in `.gz`).
pub proof fn law_hint_ignores_gz(name: Seq<char>)
    requires
        !ends_with(lower_seq(name), ".gz"@),
    ensures
        hint_of(name + ".gz"@) == hint_of(name),
{
    lemma_base_name_gz(name);
}

} // verus!
