//! Best-effort extraction of a "correlation id" from a log event.
//!
//! We look for common tracing / request-id conventions across Symfony, nginx
//! custom logs, and generic JSON contexts. The returned string is meant to be
//! fed into the full-text filter so every line sharing the same id clusters
//! together.
use vstd::prelude::*;
use crate::log::event::LogEvent;
use crate::log::fields::{lookup, Pairs};
use crate::text::{
    char_at_is, char_is, chars_of, ci_lit_at, find_char, find_char_from, has_ci_lit_at,
    has_lit_at, in_class, is_alnum, lemma_find_char, lemma_span_is, lit_at, span, span_of, string_of,
    Class,
};

verus! {

/// `k[i..]` is `w`, an optional `_` or `-`, then `id` (case ignored).
pub open spec fn word_sep_id(k: Seq<char>, i: int, w: Seq<char>) -> bool {
    let j = i + w.len();
    ci_lit_at(k, i, w) && ((k.len() == j + 2 && ci_lit_at(k, j, "id"@)) || (k.len() == j + 3 && (
    k[j] == '_' || k[j] == '-') && ci_lit_at(k, j + 1, "id"@)))
}

/// The names of id fields: `trace[_-]?id`, `request[_-]?id`,
/// `correlation[_-]?id`, `x[_-]?request[_-]?id`, `token`, case ignored.
pub open spec fn id_key(k: Seq<char>) -> bool {
    ||| word_sep_id(k, 0, "trace"@)
    ||| word_sep_id(k, 0, "request"@)
    ||| word_sep_id(k, 0, "correlation"@)
    ||| (ci_lit_at(k, 0, "x"@) && (word_sep_id(k, 1, "request"@) || (k.len() > 1 && (k[1] == '_'
        || k[1] == '-') && word_sep_id(k, 2, "request"@))))
    ||| (k.len() == 5 && ci_lit_at(k, 0, "token"@))
}

/// `"<id key>" : "<value>"` at `i`: the value bounds.
pub open spec fn quoted_id_at(s: Seq<char>, i: int) -> Option<(int, int)> {
    if char_is(s, i, '"') {
        match find_char(s, i + 1, '"') {
            Some(q) => {
                let a = span(s, q + 1, Class::Space);
                let b = span(s, a + 1, Class::Space);
                let v = span(s, b + 1, Class::NotQuoteNorSpace);
                if id_key(s.subrange(i + 1, q)) && char_is(s, a, ':') && char_is(s, b, '"') && v > b
                    + 1 && char_is(s, v, '"') {
                    Some((b + 1, v))
                } else {
                    None
                }
            },
            None => None,
        }
    } else {
        None
    }
}

/// A character that may start a token value.
pub open spec fn token_start(c: char) -> bool {
    is_alnum(c) || c == '\u{17f}' || c == '\u{212a}'
}

/// `[token => value` / `{"token": "value"` at `i` (brackets, quotes and the
/// separator as Monolog writes them): the value bounds; a value is at least
/// six characters.
pub open spec fn token_at(s: Seq<char>, i: int) -> Option<(int, int)> {
    let a = span(s, i + 1, Class::Space);
    let b = if char_is(s, a, '"') {
        a + 1
    } else {
        a
    };
    let c = b + 5;
    let d = if char_is(s, c, '"') {
        c + 1
    } else {
        c
    };
    let e = span(s, d, Class::Space);
    let f = if lit_at(s, e, "=>"@) {
        e + 2
    } else {
        e + 1
    };
    let g = span(s, f, Class::Space);
    let h = if char_is(s, g, '"') {
        g + 1
    } else {
        g
    };
    let v = span(s, h + 1, Class::TokenChar);
    if (char_is(s, i, '[') || char_is(s, i, '{')) && ci_lit_at(s, b, "token"@) && (lit_at(
        s,
        e,
        "=>"@,
    ) || char_is(s, e, ':')) && 0 <= h < s.len() && token_start(s[h]) && v - (h + 1) >= 5 {
        Some((h, v))
    } else {
        None
    }
}

pub open spec fn quoted_id_search(s: Seq<char>, i: int) -> Option<(int, int)>
    decreases s.len() + 1 - i,
{
    if i < 0 || i > s.len() {
        None
    } else {
        match quoted_id_at(s, i) {
            Some(r) => Some(r),
            None => quoted_id_search(s, i + 1),
        }
    }
}

pub open spec fn token_search(s: Seq<char>, i: int) -> Option<(int, int)>
    decreases s.len() + 1 - i,
{
    if i < 0 || i > s.len() {
        None
    } else {
        match token_at(s, i) {
            Some(r) => Some(r),
            None => token_search(s, i + 1),
        }
    }
}

/// The id found in a text: the leftmost quoted id field, else the leftmost
/// Monolog token.
pub open spec fn scan_spec(s: Seq<char>) -> Option<Seq<char>> {
    match quoted_id_search(s, 0) {
        Some((a, b)) => Some(s.subrange(a, b)),
        None => match token_search(s, 0) {
            Some((a, b)) => Some(s.subrange(a, b)),
            None => None,
        },
    }
}

/// Field names inspected first, in order.
pub open spec fn direct_keys() -> Seq<Seq<char>> {
    seq![
        "trace_id"@,
        "traceId"@,
        "request_id"@,
        "requestId"@,
        "correlation_id"@,
        "correlationId"@,
        "x-request-id"@,
        "x_request_id"@,
        "token"@,
    ]
}

/// The first non-empty value among the named fields from `i` on.
pub open spec fn first_direct(p: Pairs, i: int) -> Option<Seq<char>>
    decreases 9 - i,
{
    if i < 0 || i >= 9 {
        None
    } else {
        match lookup(p, direct_keys()[i]) {
            Some(v) => if v.len() > 0 {
                Some(v)
            } else {
                first_direct(p, i + 1)
            },
            None => first_direct(p, i + 1),
        }
    }
}

/// The id in the field `name`, scanned as text.
pub open spec fn scan_field(p: Pairs, name: Seq<char>) -> Option<Seq<char>> {
    match lookup(p, name) {
        Some(v) => scan_spec(v),
        None => None,
    }
}

/// The correlation id of an event whose line is `raw`.
pub open spec fn extract_spec(p: Pairs, raw: Seq<char>) -> Option<Seq<char>> {
    match first_direct(p, 0) {
        Some(v) => Some(v),
        None => match scan_field(p, "context"@) {
            Some(v) => Some(v),
            None => match scan_field(p, "extra"@) {
                Some(v) => Some(v),
                None => scan_spec(raw),
            },
        },
    }
}

fn is_word_sep_id(k: &Vec<char>, i: usize, w: &str) -> (b: bool)
    requires
        i <= 2,
    ensures
        b == word_sep_id(k@, i as int, w@),
{
    let n = k.len();
    if !has_ci_lit_at(k, i, w) {
        return false;
    }
    let wc = chars_of(w);
    let j = i + wc.len();
    if n - j == 2 && has_ci_lit_at(k, j, "id") {
        return true;
    }
    n - j == 3 && (k[j] == '_' || k[j] == '-') && has_ci_lit_at(k, j + 1, "id")
}

fn is_id_key(k: &Vec<char>) -> (b: bool)
    ensures
        b == id_key(k@),
{
    let n = k.len();
    if is_word_sep_id(k, 0, "trace") || is_word_sep_id(k, 0, "request") || is_word_sep_id(
        k,
        0,
        "correlation",
    ) {
        return true;
    }
    if has_ci_lit_at(k, 0, "x") && (is_word_sep_id(k, 1, "request") || (n > 1 && (k[1] == '_'
        || k[1] == '-') && is_word_sep_id(k, 2, "request"))) {
        return true;
    }
    n == 5 && has_ci_lit_at(k, 0, "token")
}

fn quoted_id(cs: &Vec<char>, i: usize) -> (r: Option<(usize, usize)>)
    requires
        i <= cs@.len(),
    ensures
        match r {
            Some((a, b)) => quoted_id_at(cs@, i as int) == Some((a as int, b as int)) && a <= b
                <= cs@.len(),
            None => quoted_id_at(cs@, i as int) is None,
        },
{
    let n = cs.len();
    if !char_at_is(cs, i, '"') {
        return None;
    }
    proof {
        lemma_find_char(cs@, i + 1, '"');
    }
    let q = match find_char_from(cs, i + 1, '"') {
        Some(q) => q,
        None => return None,
    };
    let key = crate::text::sub_chars(cs, i + 1, q);
    if !is_id_key(&key) {
        return None;
    }
    let a = span_of(cs, q + 1, Class::Space);
    if !char_at_is(cs, a, ':') {
        return None;
    }
    let b = span_of(cs, a + 1, Class::Space);
    if !char_at_is(cs, b, '"') {
        return None;
    }
    let v = span_of(cs, b + 1, Class::NotQuoteNorSpace);
    if v > b + 1 && char_at_is(cs, v, '"') {
        Some((b + 1, v))
    } else {
        None
    }
}

fn token(cs: &Vec<char>, i: usize) -> (r: Option<(usize, usize)>)
    requires
        i <= cs@.len(),
    ensures
        match r {
            Some((a, b)) => token_at(cs@, i as int) == Some((a as int, b as int)) && a <= b
                <= cs@.len(),
            None => token_at(cs@, i as int) is None,
        },
{
    let n = cs.len();
    proof {
        reveal_strlit("token");
        reveal_strlit("=>");
    }
    if !(char_at_is(cs, i, '[') || char_at_is(cs, i, '{')) {
        return None;
    }
    let a = span_of(cs, i + 1, Class::Space);
    let b = if char_at_is(cs, a, '"') {
        a + 1
    } else {
        a
    };
    if !has_ci_lit_at(cs, b, "token") {
        return None;
    }
    let c = b + 5;
    let d = if char_at_is(cs, c, '"') {
        c + 1
    } else {
        c
    };
    let e = span_of(cs, d, Class::Space);
    let f = if has_lit_at(cs, e, "=>") {
        e + 2
    } else if char_at_is(cs, e, ':') {
        e + 1
    } else {
        return None;
    };
    let g = span_of(cs, f, Class::Space);
    let h = if char_at_is(cs, g, '"') {
        g + 1
    } else {
        g
    };
    if !(h < n) {
        return None;
    }
    let c0 = cs[h];
    let starts = ('0' <= c0 && c0 <= '9') || ('a' <= c0 && c0 <= 'z') || ('A' <= c0 && c0 <= 'Z')
        || c0 == '\u{17f}' || c0 == '\u{212a}';
    if !starts {
        return None;
    }
    let v = span_of(cs, h + 1, Class::TokenChar);
    if v - (h + 1) >= 5 {
        Some((h, v))
    } else {
        None
    }
}

/// The correlation id in a text, if any.
pub fn scan(haystack: &str) -> (r: Option<String>)
    ensures
        match r {
            Some(v) => scan_spec(haystack@) == Some(v@),
            None => scan_spec(haystack@) is None,
        },
{
    let cs = chars_of(haystack);
    let n = cs.len();
    let mut i: usize = 0;
    loop
        invariant
            n == cs@.len(),
            cs@ == haystack@,
            i <= n,
            quoted_id_search(cs@, 0) == quoted_id_search(cs@, i as int),
        ensures
            quoted_id_search(cs@, 0) is None,
        decreases n - i,
    {
        if let Some((a, b)) = quoted_id(&cs, i) {
            return Some(string_of(&cs, a, b));
        }
        if i == n {
            assert(quoted_id_search(cs@, n + 1) is None);
            break;
        }
        i = i + 1;
    }
    let mut j: usize = 0;
    loop
        invariant
            n == cs@.len(),
            cs@ == haystack@,
            j <= n,
            quoted_id_search(cs@, 0) is None,
            token_search(cs@, 0) == token_search(cs@, j as int),
        decreases n - j,
    {
        if let Some((a, b)) = token(&cs, j) {
            return Some(string_of(&cs, a, b));
        }
        if j == n {
            assert(token_search(cs@, n + 1) is None);
            return None;
        }
        j = j + 1;
    }
}

/// Returns a correlation id for this event, if any recognizable field is
/// present: a named id field first, then an id inside the `context` and
/// `extra` fields, then one in the raw line text `raw`.
pub fn extract(event: &LogEvent, raw: &str) -> (r: Option<String>)
    ensures
        match r {
            Some(v) => extract_spec(event.fields.pairs(), raw@) == Some(v@),
            None => extract_spec(event.fields.pairs(), raw@) is None,
        },
{
    let keys: [&str; 9] = [
        "trace_id",
        "traceId",
        "request_id",
        "requestId",
        "correlation_id",
        "correlationId",
        "x-request-id",
        "x_request_id",
        "token",
    ];
    assert(keys@.map_values(|k: &str| k@) =~= direct_keys());
    assert(forall|j: int| 0 <= j < 9 ==> keys@[j]@ == #[trigger] direct_keys()[j]) by {
        assert(forall|j: int| 0 <= j < 9 ==> keys@.map_values(|k: &str| k@)[j] == keys@[j]@);
    }
    let mut i: usize = 0;
    while i < 9
        invariant
            i <= 9,
            keys@.len() == 9,
            forall|j: int| 0 <= j < 9 ==> keys@[j]@ == #[trigger] direct_keys()[j],
            first_direct(event.fields.pairs(), 0) == first_direct(event.fields.pairs(), i as int),
        decreases 9 - i,
    {
        let key = keys[i];
        assert(key@ == direct_keys()[i as int]);
        if let Some(v) = event.fields.get(key) {
            if !v.as_str().is_empty() {
                let vc = chars_of(v.as_str());
                return Some(crate::text::string_of_all(&vc));
            }
        }
        i = i + 1;
    }
    if let Some(v) = event.fields.get("context") {
        if let Some(id) = scan(v.as_str()) {
            return Some(id);
        }
    }
    if let Some(v) = event.fields.get("extra") {
        if let Some(id) = scan(v.as_str()) {
            return Some(id);
        }
    }
    scan(raw)
}

proof fn lemma_quoted_search_skips(s: Seq<char>, i: int, n: int)
    requires
        0 <= i <= n <= s.len(),
        forall|j: int| i <= j < n ==> s[j] != '"',
    ensures
        quoted_id_search(s, i) == quoted_id_search(s, n),
    decreases n - i,
{
    if i < n {
        assert(quoted_id_at(s, i) is None);
        lemma_quoted_search_skips(s, i + 1, n);
    }
}

proof fn lemma_id_key_of(word: Seq<char>, sep: Seq<char>)
    requires
        word == "trace"@ || word == "request"@ || word == "correlation"@,
        sep == Seq::<char>::empty() || sep == seq!['_'] || sep == seq!['-'],
    ensures
        id_key(word + sep + "id"@),
        forall|j: int| 0 <= j < (word + sep + "id"@).len() ==> (word + sep + "id"@)[j] != '"',
{
    reveal_strlit("trace");
    reveal_strlit("request");
    reveal_strlit("correlation");
    reveal_strlit("id");
    let key = word + sep + "id"@;
    assert forall|j: int| 0 <= j < key.len() implies key[j] != '"' by {
        if j < word.len() {
            assert(key[j] == word[j]);
        } else if j < word.len() + sep.len() {
            assert(key[j] == sep[j - word.len()]);
        } else {
            assert(key[j] == "id"@[j - word.len() - sep.len()]);
        }
    }
    assert forall|k: int| 0 <= k < word.len() implies crate::text::ci_eq(#[trigger] key[0 + k], word[k]) by {
        assert(key[k] == word[k]);
    }
    let j: int = (word.len() + sep.len()) as int;
    assert forall|k: int| 0 <= k < 2 implies crate::text::ci_eq(#[trigger] key[j + k], "id"@[k]) by {
        assert(key[j + k] == "id"@[k]);
    }
    assert(ci_lit_at(key, 0, word));
    assert(ci_lit_at(key, j, "id"@));
    assert(word_sep_id(key, 0, word));
}

proof fn lemma_x_request_key(sep1: Seq<char>, sep2: Seq<char>)
    requires
        sep1 == Seq::<char>::empty() || sep1 == seq!['_'] || sep1 == seq!['-'],
        sep2 == Seq::<char>::empty() || sep2 == seq!['_'] || sep2 == seq!['-'],
    ensures
        id_key("x"@ + sep1 + "request"@ + sep2 + "id"@),
        forall|j: int|
            0 <= j < ("x"@ + sep1 + "request"@ + sep2 + "id"@).len() ==> ("x"@ + sep1 + "request"@
                + sep2 + "id"@)[j] != '"',
{
    reveal_strlit("x");
    reveal_strlit("request");
    reveal_strlit("id");
    let key = "x"@ + sep1 + "request"@ + sep2 + "id"@;
    let w = "request"@;
    let r0: int = (1 + sep1.len()) as int;
    let j: int = r0 + 7 + sep2.len();
    assert forall|k: int| 0 <= k < key.len() implies key[k] != '"' by {
        if k < 1 {
            assert(key[k] == 'x');
        } else if k < r0 {
            assert(key[k] == sep1[k - 1]);
        } else if k < r0 + 7 {
            assert(key[k] == w[k - r0]);
        } else if k < j {
            assert(key[k] == sep2[k - r0 - 7]);
        } else {
            assert(key[k] == "id"@[k - j]);
        }
    }
    assert forall|k: int| 0 <= k < 1 implies crate::text::ci_eq(#[trigger] key[0 + k], "x"@[k]) by {
        assert(key[k] == 'x');
    }
    assert forall|k: int| 0 <= k < 7 implies crate::text::ci_eq(#[trigger] key[r0 + k], w[k]) by {
        assert(key[r0 + k] == w[k]);
    }
    assert forall|k: int| 0 <= k < 2 implies crate::text::ci_eq(#[trigger] key[j + k], "id"@[k]) by {
        assert(key[j + k] == "id"@[k]);
    }
    assert(ci_lit_at(key, 0, "x"@));
    assert(ci_lit_at(key, r0, w));
    assert(ci_lit_at(key, j, "id"@));
    assert(word_sep_id(key, r0, w));
    if sep1.len() == 1 {
        assert(key[1] == sep1[0]);
    }
}

proof fn lemma_token_key()
    ensures
        id_key("token"@),
        forall|j: int| 0 <= j < "token"@.len() ==> "token"@[j] != '"',
{
    reveal_strlit("token");
    assert forall|k: int| 0 <= k < 5 implies crate::text::ci_eq(#[trigger] "token"@[0 + k], "token"@[k]) by {
    }
    assert(ci_lit_at("token"@, 0, "token"@));
}

/// A quoted id field is found: in a text where `"<key>":"<value>"` comes
/// before any other `"`, the id found is the value, whatever follows. The
/// key is `trace`, `request` or `correlation` then `id`, or `x`, `request`
/// and `id`, each joined by `_`, `-` or nothing, or `token`; the value is
/// one or more printable ASCII characters other than `"` and space.
#[verifier::spinoff_prover]
#[verifier::rlimit(50)]
pub proof fn law_quoted_id_is_found(
    p: Seq<char>,
    key: Seq<char>,
    v: Seq<char>,
    rest: Seq<char>,
)
    requires
        forall|j: int| 0 <= j < p.len() ==> p[j] != '"',
        ({
            ||| exists|word: Seq<char>, sep: Seq<char>|
                (word == "trace"@ || word == "request"@ || word == "correlation"@) && (sep
                    == Seq::<char>::empty() || sep == seq!['_'] || sep == seq!['-']) && key == word + sep
                    + "id"@
            ||| exists|sep1: Seq<char>, sep2: Seq<char>|
                (sep1 == Seq::<char>::empty() || sep1 == seq!['_'] || sep1 == seq!['-']) && (sep2
                    == Seq::<char>::empty() || sep2 == seq!['_'] || sep2 == seq!['-']) && key == "x"@
                    + sep1 + "request"@ + sep2 + "id"@
            ||| key == "token"@
        }),
        v.len() > 0,
        forall|j: int| 0 <= j < v.len() ==> '!' <= #[trigger] v[j] && v[j] <= '~' && v[j] != '"',
    ensures
        scan_spec(p + seq!['"'] + key + seq!['"', ':', '"'] + v + seq!['"'] + rest) == Some(v),
{
    if exists|word: Seq<char>, sep: Seq<char>|
        (word == "trace"@ || word == "request"@ || word == "correlation"@) && (sep
            == Seq::<char>::empty() || sep == seq!['_'] || sep == seq!['-']) && key == word + sep
            + "id"@ {
        let (word, sep) = choose|word: Seq<char>, sep: Seq<char>|
            (word == "trace"@ || word == "request"@ || word == "correlation"@) && (sep
                == Seq::<char>::empty() || sep == seq!['_'] || sep == seq!['-']) && key == word + sep
                + "id"@;
        lemma_id_key_of(word, sep);
    } else if exists|sep1: Seq<char>, sep2: Seq<char>|
        (sep1 == Seq::<char>::empty() || sep1 == seq!['_'] || sep1 == seq!['-']) && (sep2
            == Seq::<char>::empty() || sep2 == seq!['_'] || sep2 == seq!['-']) && key == "x"@ + sep1
            + "request"@ + sep2 + "id"@ {
        let (sep1, sep2) = choose|sep1: Seq<char>, sep2: Seq<char>|
            (sep1 == Seq::<char>::empty() || sep1 == seq!['_'] || sep1 == seq!['-']) && (sep2
                == Seq::<char>::empty() || sep2 == seq!['_'] || sep2 == seq!['-']) && key == "x"@
                + sep1 + "request"@ + sep2 + "id"@;
        lemma_x_request_key(sep1, sep2);
    } else {
        lemma_token_key();
    }
    let s = p + seq!['"'] + key + seq!['"', ':', '"'] + v + seq!['"'] + rest;
    let i0 = p.len() as int;
    let q = i0 + 1 + key.len();
    let a = q + 1;
    let b = a + 1;
    let e = b + 1 + v.len();
    assert(s.len() == e + 1 + rest.len());
    assert forall|j: int| 0 <= j < i0 implies s[j] != '"' by {
        assert(s[j] == p[j]);
    }
    lemma_quoted_search_skips(s, 0, i0);
    assert(s[i0] == '"');
    assert forall|j: int| i0 + 1 <= j < q implies s[j] != '"' by {
        assert(s[j] == key[j - i0 - 1]);
    }
    assert(s[q] == '"');
    assert(s[a] == ':');
    assert(s[b] == '"');
    assert(s[e] == '"');
    lemma_find_char(s, i0 + 1, '"');
    assert(find_char(s, i0 + 1, '"') == Some(q));
    lemma_span_is(s, a, a, Class::Space);
    lemma_span_is(s, b, b, Class::Space);
    assert forall|j: int| b + 1 <= j < e implies in_class(Class::NotQuoteNorSpace, #[trigger] s[j]) by {
        assert(s[j] == v[j - b - 1]);
    }
    lemma_span_is(s, b + 1, e, Class::NotQuoteNorSpace);
    assert(s.subrange(i0 + 1, q) =~= key);
    assert(quoted_id_at(s, i0) == Some((b + 1, e)));
    assert(s.subrange(b + 1, e) =~= v);
}

} // verus!
