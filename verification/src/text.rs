//! Character-level helpers shared by the line grammars: character classes,
//! spans of a class, literals, trimming, case mapping and decimal printing.
use vstd::prelude::*;

verus! {

/// Appends one character to a string (std's `String::push`).
#[verifier::external_body]
pub(crate) fn push_char(s: &mut String, c: char)
    ensures
        final(s)@ == old(s)@.push(c),
{
    s.push(c);
}

/// Appends a string slice to a string (std's `String::push_str`).
#[verifier::external_body]
pub(crate) fn push_str(s: &mut String, t: &str)
    ensures
        final(s)@ == old(s)@ + t@,
{
    s.push_str(t);
}

/// Removes and returns the last character of a string (std's `String::pop`).
#[verifier::external_body]
pub(crate) fn pop_char(s: &mut String) -> (r: Option<char>)
    ensures
        old(s)@.len() == 0 ==> r is None && final(s)@ == old(s)@,
        old(s)@.len() > 0 ==> r == Some(old(s)@.last()) && final(s)@ == old(s)@.drop_last(),
{
    s.pop()
}

/// The characters of `s`, in order.
pub fn chars_of(s: &str) -> (out: Vec<char>)
    ensures
        out@ == s@,
{
    let mut out: Vec<char> = Vec::new();
    for c in it: s.chars()
        invariant
            out@ == it.seq().take(it.index() as int),
            it.seq() == s@,
    {
        out.push(c);
    }
    out
}

/// The string made of `cs[from..to]`.
pub fn string_of(cs: &Vec<char>, from: usize, to: usize) -> (s: String)
    requires
        from <= to <= cs@.len(),
    ensures
        s@ == cs@.subrange(from as int, to as int),
{
    let mut s = String::new();
    let mut i = from;
    while i < to
        invariant
            from <= i <= to <= cs@.len(),
            s@ == cs@.subrange(from as int, i as int),
        decreases to - i,
    {
        push_char(&mut s, cs[i]);
        assert(cs@.subrange(from as int, i + 1) == cs@.subrange(from as int, i as int).push(cs@[i as int]));
        i = i + 1;
    }
    s
}

/// The string holding exactly the characters of `cs`.
pub fn string_of_all(cs: &Vec<char>) -> (s: String)
    ensures
        s@ == cs@,
{
    let s = string_of(cs, 0, cs.len());
    assert(cs@.subrange(0, cs@.len() as int) == cs@);
    s
}

/// A string holding a copy of `s`.
pub fn str_to_string(s: &str) -> (r: String)
    ensures
        r@ == s@,
{
    let mut r = String::new();
    push_str(&mut r, s);
    assert(Seq::<char>::empty() + s@ == s@);
    r
}

/// White space as Unicode defines it (the `White_Space` property); this is
/// the set that both `char::is_whitespace` and the `\s` class denote.
pub open spec fn is_space(c: char) -> bool {
    ||| ('\u{9}' <= c && c <= '\u{d}')
    ||| c == ' '
    ||| c == '\u{85}'
    ||| c == '\u{a0}'
    ||| c == '\u{1680}'
    ||| ('\u{2000}' <= c && c <= '\u{200a}')
    ||| c == '\u{2028}'
    ||| c == '\u{2029}'
    ||| c == '\u{202f}'
    ||| c == '\u{205f}'
    ||| c == '\u{3000}'
}

pub open spec fn is_digit(c: char) -> bool {
    '0' <= c && c <= '9'
}

pub open spec fn is_upper(c: char) -> bool {
    'A' <= c && c <= 'Z'
}

pub open spec fn is_lower(c: char) -> bool {
    'a' <= c && c <= 'z'
}

pub open spec fn is_alnum(c: char) -> bool {
    is_digit(c) || is_upper(c) || is_lower(c)
}

/// Word characters: ASCII letters, digits and `_`.
pub open spec fn is_word(c: char) -> bool {
    is_alnum(c) || c == '_'
}

/// Whether the regex crate's Unicode `\d` class (the `Decimal_Number`
/// general category) holds the character `c`.
pub uninterp spec fn regex_digit(c: char) -> bool;

/// Whether regex-syntax's `is_word_character`, the Unicode `\w` class of
/// the regex crate, holds the character `c`.
pub uninterp spec fn regex_word(c: char) -> bool;

/// The regex crate's `\d` on `c`: compiles `\A\d\z` and matches it
/// against the one character. The pattern is valid, so it always compiles.
#[verifier::external_body]
fn unicode_digit(c: char) -> (r: bool)
    ensures
        r == regex_digit(c),
{
    let mut buf = [0u8; 4];
    let text: &str = c.encode_utf8(&mut buf);
    match regex::Regex::new(r"\A\d\z") {
        Ok(re) => re.is_match(text),
        Err(_) => false,
    }
}

/// regex-syntax's `try_is_word_character`: whether `c` is a Unicode word
/// character (`Alphabetic`, `Join_Control`, `Decimal_Number`, `Mark` or
/// `Connector_Punctuation`). It errs only without the `unicode-perl`
/// feature, which the default features enable.
#[verifier::external_body]
fn unicode_word(c: char) -> (r: bool)
    ensures
        r == regex_word(c),
{
    match regex_syntax::try_is_word_character(c) {
        Ok(b) => b,
        Err(_) => false,
    }
}

/// A regex `\d`: an ASCII digit, or a non-ASCII character of the Unicode
/// `Decimal_Number` category.
pub open spec fn re_digit(c: char) -> bool {
    if c <= '\u{7f}' {
        is_digit(c)
    } else {
        regex_digit(c)
    }
}

/// A regex `\w`: an ASCII letter, digit or `_`, or a non-ASCII Unicode
/// word character.
pub open spec fn re_word(c: char) -> bool {
    if c <= '\u{7f}' {
        is_word(c)
    } else {
        regex_word(c)
    }
}

pub fn re_digit_char(c: char) -> (b: bool)
    ensures
        b == re_digit(c),
{
    if c <= '\u{7f}' {
        '0' <= c && c <= '9'
    } else {
        unicode_digit(c)
    }
}

pub fn re_word_char(c: char) -> (b: bool)
    ensures
        b == re_word(c),
{
    if c <= '\u{7f}' {
        is_word_char(c)
    } else {
        unicode_word(c)
    }
}

pub open spec fn is_hex(c: char) -> bool {
    is_digit(c) || ('a' <= c && c <= 'f') || ('A' <= c && c <= 'F')
}

/// The classes of characters that the line grammars are written with.
#[derive(Clone, Copy)]
pub enum Class {
    Space,
    NonSpace,
    /// `\d`, Unicode digits included.
    Digit,
    /// `[0-9]`
    AsciiDigit,
    /// `\w`, Unicode word characters included.
    Word,
    /// `[\w\-]`
    WordDash,
    /// `[\w\-\.]`
    WordDashDot,
    Upper,
    /// Any character but the given one.
    Not(char),
    /// Neither `"` nor white space.
    NotQuoteNorSpace,
    /// `[0-9a-fA-F:]`
    HexColon,
    /// `[0-9a-fA-F.:]`
    HexDotColon,
    /// `[A-Za-z0-9_\\]`
    ClassName,
    /// `[A-Za-z0-9_\-]` matched case-insensitively (which adds U+017F and
    /// U+212A, the characters that fold onto `s` and `k`).
    TokenChar,
}

pub open spec fn in_class(cl: Class, c: char) -> bool {
    match cl {
        Class::Space => is_space(c),
        Class::NonSpace => !is_space(c),
        Class::Digit => re_digit(c),
        Class::AsciiDigit => is_digit(c),
        Class::Word => re_word(c),
        Class::WordDash => re_word(c) || c == '-',
        Class::WordDashDot => re_word(c) || c == '-' || c == '.',
        Class::Upper => is_upper(c),
        Class::Not(x) => c != x,
        Class::NotQuoteNorSpace => c != '"' && !is_space(c),
        Class::HexColon => is_hex(c) || c == ':',
        Class::HexDotColon => is_hex(c) || c == '.' || c == ':',
        Class::ClassName => is_word(c) || c == '\\',
        Class::TokenChar => is_word(c) || c == '-' || c == '\u{17f}' || c == '\u{212a}',
    }
}

pub fn is_space_char(c: char) -> (b: bool)
    ensures
        b == is_space(c),
{
    ('\u{9}' <= c && c <= '\u{d}') || c == ' ' || c == '\u{85}' || c == '\u{a0}' || c == '\u{1680}'
        || ('\u{2000}' <= c && c <= '\u{200a}') || c == '\u{2028}' || c == '\u{2029}' || c
        == '\u{202f}' || c == '\u{205f}' || c == '\u{3000}'
}

pub fn is_digit_char(c: char) -> (b: bool)
    ensures
        b == is_digit(c),
{
    '0' <= c && c <= '9'
}

pub fn is_word_char(c: char) -> (b: bool)
    ensures
        b == is_word(c),
{
    ('0' <= c && c <= '9') || ('A' <= c && c <= 'Z') || ('a' <= c && c <= 'z') || c == '_'
}

pub fn is_hex_char(c: char) -> (b: bool)
    ensures
        b == is_hex(c),
{
    ('0' <= c && c <= '9') || ('a' <= c && c <= 'f') || ('A' <= c && c <= 'F')
}

pub fn class_has(cl: Class, c: char) -> (b: bool)
    ensures
        b == in_class(cl, c),
{
    match cl {
        Class::Space => is_space_char(c),
        Class::NonSpace => !is_space_char(c),
        Class::Digit => re_digit_char(c),
        Class::AsciiDigit => is_digit_char(c),
        Class::Word => re_word_char(c),
        Class::WordDash => re_word_char(c) || c == '-',
        Class::WordDashDot => re_word_char(c) || c == '-' || c == '.',
        Class::Upper => 'A' <= c && c <= 'Z',
        Class::Not(x) => c != x,
        Class::NotQuoteNorSpace => c != '"' && !is_space_char(c),
        Class::HexColon => is_hex_char(c) || c == ':',
        Class::HexDotColon => is_hex_char(c) || c == '.' || c == ':',
        Class::ClassName => is_word_char(c) || c == '\\',
        Class::TokenChar => is_word_char(c) || c == '-' || c == '\u{17f}' || c == '\u{212a}',
    }
}

/// The end of the longest run of characters of class `cl` that starts at `i`.
pub open spec fn span(s: Seq<char>, i: int, cl: Class) -> int
    decreases s.len() - i,
{
    if 0 <= i < s.len() && in_class(cl, s[i]) {
        span(s, i + 1, cl)
    } else {
        i
    }
}

pub proof fn lemma_span(s: Seq<char>, i: int, cl: Class)
    requires
        0 <= i <= s.len(),
    ensures
        i <= span(s, i, cl) <= s.len(),
        forall|k: int| i <= k < span(s, i, cl) ==> in_class(cl, #[trigger] s[k]),
        span(s, i, cl) < s.len() ==> !in_class(cl, s[span(s, i, cl)]),
    decreases s.len() - i,
{
    if i < s.len() && in_class(cl, s[i]) {
        lemma_span(s, i + 1, cl);
    }
}

/// A run of characters of class `cl` from `i` to `k`, ended by the end of
/// `s` or by a character outside the class, is the run `span` finds.
pub proof fn lemma_span_is(s: Seq<char>, i: int, k: int, cl: Class)
    requires
        0 <= i <= k <= s.len(),
        forall|j: int| i <= j < k ==> in_class(cl, #[trigger] s[j]),
        k == s.len() || !in_class(cl, s[k]),
    ensures
        span(s, i, cl) == k,
    decreases k - i,
{
    if i < k {
        lemma_span_is(s, i + 1, k, cl);
    }
}

/// Executable `span`.
pub fn span_of(cs: &Vec<char>, i: usize, cl: Class) -> (j: usize)
    requires
        i <= cs@.len(),
    ensures
        j == span(cs@, i as int, cl),
        i <= j <= cs@.len(),
{
    let mut j = i;
    while j < cs.len() && class_has(cl, cs[j])
        invariant
            i <= j <= cs@.len(),
            span(cs@, i as int, cl) == span(cs@, j as int, cl),
        decreases cs@.len() - j,
    {
        j = j + 1;
    }
    proof {
        lemma_span(cs@, i as int, cl);
    }
    j
}

/// `lit` occurs in `s` at index `i`.
pub open spec fn lit_at(s: Seq<char>, i: int, lit: Seq<char>) -> bool {
    0 <= i && i + lit.len() <= s.len() && s.subrange(i, i + lit.len()) == lit
}

pub fn has_lit_at(cs: &Vec<char>, i: usize, lit: &str) -> (b: bool)
    ensures
        b == lit_at(cs@, i as int, lit@),
{
    let l = chars_of(lit);
    if i > cs.len() || l.len() > cs.len() - i {
        return false;
    }
    let mut k: usize = 0;
    while k < l.len()
        invariant
            i + l@.len() <= cs@.len(),
            cs@.len() == cs.len(),
            k <= l@.len(),
            l@ == lit@,
            forall|m: int| 0 <= m < k ==> cs@[i + m] == l@[m],
        decreases l@.len() - k,
    {
        if cs[i + k] != l[k] {
            assert(cs@.subrange(i as int, i + l@.len())[k as int] != lit@[k as int]);
            return false;
        }
        k = k + 1;
    }
    assert(cs@.subrange(i as int, i + l@.len()) =~= lit@);
    true
}

/// `s` holds nothing but white space from `i` on.
pub open spec fn blank_from(s: Seq<char>, i: int) -> bool {
    forall|k: int| i <= k < s.len() ==> is_space(#[trigger] s[k])
}

/// There is no line feed in `s[i..j]`.
pub open spec fn no_newline(s: Seq<char>, i: int, j: int) -> bool {
    forall|k: int| i <= k < j ==> #[trigger] s[k] != '\n'
}

pub fn is_blank_from(cs: &Vec<char>, i: usize) -> (b: bool)
    requires
        i <= cs@.len(),
    ensures
        b == blank_from(cs@, i as int),
{
    let j = span_of(cs, i, Class::Space);
    proof {
        lemma_span(cs@, i as int, Class::Space);
    }
    j == cs.len()
}

pub fn has_no_newline(cs: &Vec<char>, i: usize, j: usize) -> (b: bool)
    requires
        i <= j <= cs@.len(),
    ensures
        b == no_newline(cs@, i as int, j as int),
{
    let mut k = i;
    while k < j
        invariant
            i <= k <= j <= cs@.len(),
            no_newline(cs@, i as int, k as int),
        decreases j - k,
    {
        if cs[k] == '\n' {
            return false;
        }
        k = k + 1;
    }
    true
}

/// Index of the first non-space character of `s` (or its length).
pub open spec fn trim_start_index(s: Seq<char>) -> int {
    span(s, 0, Class::Space)
}

/// The end of `s` once trailing white space is dropped, not going below `lo`.
pub open spec fn trim_end_index(s: Seq<char>, lo: int, hi: int) -> int
    decreases hi - lo,
{
    if lo < hi && is_space(s[hi - 1]) {
        trim_end_index(s, lo, hi - 1)
    } else {
        hi
    }
}

/// `str::trim`: `s` without leading and trailing white space.
pub open spec fn trim(s: Seq<char>) -> Seq<char> {
    let a = trim_start_index(s);
    s.subrange(a, trim_end_index(s, a, s.len() as int))
}

pub proof fn lemma_trim_end(s: Seq<char>, lo: int, hi: int)
    requires
        0 <= lo <= hi <= s.len(),
    ensures
        lo <= trim_end_index(s, lo, hi) <= hi,
        forall|k: int| trim_end_index(s, lo, hi) <= k < hi ==> is_space(#[trigger] s[k]),
        trim_end_index(s, lo, hi) > lo ==> !is_space(s[trim_end_index(s, lo, hi) - 1]),
    decreases hi - lo,
{
    if lo < hi && is_space(s[hi - 1]) {
        lemma_trim_end(s, lo, hi - 1);
    }
}

/// The bounds of `trim(cs[from..to])`, as indices into `cs`.
pub fn trim_range(cs: &Vec<char>, from: usize, to: usize) -> (r: (usize, usize))
    requires
        from <= to <= cs@.len(),
    ensures
        from <= r.0 <= r.1 <= to,
        cs@.subrange(r.0 as int, r.1 as int) == trim(cs@.subrange(from as int, to as int)),
{
    let ghost sub = cs@.subrange(from as int, to as int);
    let mut a = from;
    while a < to && is_space_char(cs[a])
        invariant
            from <= a <= to <= cs@.len(),
            sub == cs@.subrange(from as int, to as int),
            span(sub, 0, Class::Space) == span(sub, a - from, Class::Space),
        decreases to - a,
    {
        assert(sub[a - from] == cs@[a as int]);
        a = a + 1;
    }
    assert(span(sub, a - from, Class::Space) == a - from) by {
        if a < to {
            assert(sub[a - from] == cs@[a as int]);
        }
    }
    let mut b = to;
    while b > a && is_space_char(cs[b - 1])
        invariant
            from <= a <= b <= to <= cs@.len(),
            sub == cs@.subrange(from as int, to as int),
            trim_end_index(sub, a - from, sub.len() as int) == trim_end_index(sub, a - from, b - from),
        decreases b - a,
    {
        assert(sub[b - 1 - from] == cs@[b - 1]);
        b = b - 1;
    }
    assert(trim_end_index(sub, a - from, b - from) == b - from) by {
        if b > a {
            assert(sub[b - 1 - from] == cs@[b - 1]);
        }
    }
    assert(cs@.subrange(a as int, b as int) =~= sub.subrange(a - from, b - from));
    (a, b)
}

/// `trim` of a whole string, as a new string.
pub fn trim_string(s: &str) -> (r: String)
    ensures
        r@ == trim(s@),
{
    let cs = chars_of(s);
    let (a, b) = trim_range(&cs, 0, cs.len());
    assert(cs@.subrange(0, cs@.len() as int) == cs@);
    string_of(&cs, a, b)
}

/// ASCII upper case of one character (`char::to_ascii_uppercase`).
pub open spec fn upper(c: char) -> char {
    if is_lower(c) {
        ((c as u32) - 32) as char
    } else {
        c
    }
}

/// ASCII lower case of one character (`char::to_ascii_lowercase`).
pub open spec fn lower(c: char) -> char {
    if is_upper(c) {
        ((c as u32) + 32) as char
    } else {
        c
    }
}

pub open spec fn upper_seq(s: Seq<char>) -> Seq<char> {
    s.map_values(|c: char| upper(c))
}

pub open spec fn lower_seq(s: Seq<char>) -> Seq<char> {
    s.map_values(|c: char| lower(c))
}

pub fn upper_char(c: char) -> (r: char)
    ensures
        r == upper(c),
{
    if 'a' <= c && c <= 'z' {
        let u: u32 = (c as u32) - 32;
        assert(u < 0xD800);
        char_from_ascii(u)
    } else {
        c
    }
}

pub fn lower_char(c: char) -> (r: char)
    ensures
        r == lower(c),
{
    if 'A' <= c && c <= 'Z' {
        let u: u32 = (c as u32) + 32;
        char_from_ascii(u)
    } else {
        c
    }
}

/// The character whose code point is `u`, for an ASCII `u`.
fn char_from_ascii(u: u32) -> (c: char)
    requires
        u < 128,
    ensures
        c == u as char,
{
    let b: u8 = u as u8;
    b as char
}

/// The ASCII upper case of a string (`str::to_ascii_uppercase`).
pub fn to_upper_chars(cs: &Vec<char>) -> (r: Vec<char>)
    ensures
        r@ == upper_seq(cs@),
{
    let mut r: Vec<char> = Vec::new();
    let mut i: usize = 0;
    while i < cs.len()
        invariant
            i <= cs@.len(),
            r@ == upper_seq(cs@.subrange(0, i as int)),
        decreases cs@.len() - i,
    {
        r.push(upper_char(cs[i]));
        assert(upper_seq(cs@.subrange(0, i + 1)) =~= upper_seq(cs@.subrange(0, i as int)).push(
            upper(cs@[i as int]),
        ));
        i = i + 1;
    }
    assert(cs@.subrange(0, cs@.len() as int) == cs@);
    r
}

/// The ASCII lower case of a string (`str::to_ascii_lowercase`).
pub fn to_lower_chars(cs: &Vec<char>) -> (r: Vec<char>)
    ensures
        r@ == lower_seq(cs@),
{
    let mut r: Vec<char> = Vec::new();
    let mut i: usize = 0;
    while i < cs.len()
        invariant
            i <= cs@.len(),
            r@ == lower_seq(cs@.subrange(0, i as int)),
        decreases cs@.len() - i,
    {
        r.push(lower_char(cs[i]));
        assert(lower_seq(cs@.subrange(0, i + 1)) =~= lower_seq(cs@.subrange(0, i as int)).push(
            lower(cs@[i as int]),
        ));
        i = i + 1;
    }
    assert(cs@.subrange(0, cs@.len() as int) == cs@);
    r
}

/// Two character sequences are equal.
pub fn chars_eq(a: &Vec<char>, b: &Vec<char>) -> (r: bool)
    ensures
        r == (a@ == b@),
{
    if a.len() != b.len() {
        return false;
    }
    let mut i: usize = 0;
    while i < a.len()
        invariant
            a@.len() == b@.len(),
            i <= a@.len(),
            forall|k: int| 0 <= k < i ==> a@[k] == b@[k],
        decreases a@.len() - i,
    {
        if a[i] != b[i] {
            return false;
        }
        i = i + 1;
    }
    assert(a@ =~= b@);
    true
}

/// Two strings are equal.
pub fn str_eq(a: &str, b: &str) -> (r: bool)
    ensures
        r == (a@ == b@),
{
    let x = chars_of(a);
    let y = chars_of(b);
    chars_eq(&x, &y)
}

/// The characters `cs` equal the literal `lit`.
pub fn chars_eq_str(cs: &Vec<char>, lit: &str) -> (r: bool)
    ensures
        r == (cs@ == lit@),
{
    let l = chars_of(lit);
    chars_eq(cs, &l)
}

/// The decimal digits of `n`, most significant first, with no leading zero.
pub open spec fn decimal(n: nat) -> Seq<char>
    decreases n,
{
    if n < 10 {
        seq![digit_char(n)]
    } else {
        decimal(n / 10).push(digit_char(n % 10))
    }
}

pub open spec fn digit_char(d: nat) -> char {
    ((d + 48) as u32) as char
}

/// Decimal representation of `n` (what `format!("{n}")` prints).
pub fn decimal_string(n: u64) -> (s: String)
    ensures
        s@ == decimal(n as nat),
    decreases n,
{
    if n < 10 {
        let mut s = String::new();
        push_char(&mut s, digit_of(n));
        s
    } else {
        let mut s = decimal_string(n / 10);
        push_char(&mut s, digit_of(n % 10));
        s
    }
}

fn digit_of(d: u64) -> (c: char)
    requires
        d < 10,
    ensures
        c == digit_char(d as nat),
{
    char_from_ascii((d + 48) as u32)
}

/// Index of the first occurrence of `c` in `s` at or after `i`, if any.
pub open spec fn find_char(s: Seq<char>, i: int, c: char) -> Option<int>
    decreases s.len() - i,
{
    if i < 0 || i >= s.len() {
        None
    } else if s[i] == c {
        Some(i)
    } else {
        find_char(s, i + 1, c)
    }
}

pub proof fn lemma_find_char(s: Seq<char>, i: int, c: char)
    requires
        0 <= i,
    ensures
        find_char(s, i, c) matches Some(j) ==> i <= j < s.len() && s[j] == c && forall|k: int|
            i <= k < j ==> s[k] != c,
        find_char(s, i, c) is None ==> forall|k: int| i <= k < s.len() ==> s[k] != c,
    decreases s.len() - i,
{
    if i < s.len() && s[i] != c {
        lemma_find_char(s, i + 1, c);
    }
}

pub fn find_char_from(cs: &Vec<char>, i: usize, c: char) -> (r: Option<usize>)
    ensures
        r matches Some(j) ==> find_char(cs@, i as int, c) == Some(j as int),
        r is None ==> find_char(cs@, i as int, c) is None,
{
    let mut j = i;
    while j < cs.len()
        invariant
            i <= j,
            find_char(cs@, i as int, c) == find_char(cs@, j as int, c),
        decreases cs@.len() - j,
    {
        if cs[j] == c {
            return Some(j);
        }
        j = j + 1;
    }
    None
}

/// `s[i]` exists and is `c`.
pub open spec fn char_is(s: Seq<char>, i: int, c: char) -> bool {
    0 <= i < s.len() && s[i] == c
}

pub fn char_at_is(cs: &Vec<char>, i: usize, c: char) -> (b: bool)
    ensures
        b == char_is(cs@, i as int, c),
{
    i < cs.len() && cs[i] == c
}

/// `s[i..i + n]` exists and holds only digits (`\d`).
pub open spec fn digits_at(s: Seq<char>, i: int, n: int) -> bool {
    0 <= i && i + n <= s.len() && forall|k: int| i <= k < i + n ==> re_digit(#[trigger] s[k])
}

pub fn has_digits_at(cs: &Vec<char>, i: usize, n: usize) -> (b: bool)
    ensures
        b == digits_at(cs@, i as int, n as int),
{
    if i > cs.len() || n > cs.len() - i {
        return false;
    }
    let stop = i + n;
    let mut k = i;
    while k < stop
        invariant
            stop == i + n,
            i <= k <= i + n <= cs@.len(),
            forall|m: int| i <= m < k ==> re_digit(#[trigger] cs@[m]),
        decreases stop - k,
    {
        if !re_digit_char(cs[k]) {
            return false;
        }
        k = k + 1;
    }
    true
}

/// A copy of `cs[from..to]`.
pub fn sub_chars(cs: &Vec<char>, from: usize, to: usize) -> (r: Vec<char>)
    requires
        from <= to <= cs@.len(),
    ensures
        r@ == cs@.subrange(from as int, to as int),
{
    let mut r: Vec<char> = Vec::new();
    let mut i = from;
    while i < to
        invariant
            from <= i <= to <= cs@.len(),
            r@ == cs@.subrange(from as int, i as int),
        decreases to - i,
    {
        r.push(cs[i]);
        assert(cs@.subrange(from as int, i + 1) == cs@.subrange(from as int, i as int).push(cs@[i as int]));
        i = i + 1;
    }
    r
}

/// `c` equals the ASCII letter or symbol `l` when case is ignored the way a
/// case-insensitive pattern does: ASCII case, plus the two non-ASCII
/// characters that fold onto ASCII letters (U+017F onto `s`, U+212A onto `k`).
pub open spec fn ci_eq(c: char, l: char) -> bool {
    ||| lower(c) == lower(l)
    ||| (lower(l) == 's' && c == '\u{17f}')
    ||| (lower(l) == 'k' && c == '\u{212a}')
}

pub fn ci_eq_char(c: char, l: char) -> (b: bool)
    ensures
        b == ci_eq(c, l),
{
    let ll = lower_char(l);
    lower_char(c) == ll || (ll == 's' && c == '\u{17f}') || (ll == 'k' && c == '\u{212a}')
}

/// `lit` occurs at `i` in `s`, case ignored as `ci_eq` says.
pub open spec fn ci_lit_at(s: Seq<char>, i: int, lit: Seq<char>) -> bool {
    0 <= i && i + lit.len() <= s.len() && forall|k: int| 0 <= k < lit.len() ==> ci_eq(#[trigger] s[i + k], lit[k])
}

pub fn has_ci_lit_at(cs: &Vec<char>, i: usize, lit: &str) -> (b: bool)
    ensures
        b == ci_lit_at(cs@, i as int, lit@),
{
    let n = cs.len();
    let l = chars_of(lit);
    if i > n || l.len() > n - i {
        return false;
    }
    let mut k: usize = 0;
    while k < l.len()
        invariant
            n == cs@.len(),
            i + l@.len() <= n,
            k <= l@.len(),
            l@ == lit@,
            forall|m: int| 0 <= m < k ==> ci_eq(#[trigger] cs@[i + m], l@[m]),
        decreases l@.len() - k,
    {
        if !ci_eq_char(cs[i + k], l[k]) {
            return false;
        }
        k = k + 1;
    }
    true
}

/// `s[i]` exists and is a word character (`\w`).
pub open spec fn word_at(s: Seq<char>, i: int) -> bool {
    0 <= i < s.len() && re_word(s[i])
}

/// A word boundary at `i`: a word character on exactly one side.
pub open spec fn boundary(s: Seq<char>, i: int) -> bool {
    word_at(s, i - 1) != word_at(s, i)
}

pub fn is_boundary(cs: &Vec<char>, i: usize) -> (b: bool)
    ensures
        b == boundary(cs@, i as int),
{
    let before = i > 0 && i - 1 < cs.len() && re_word_char(cs[i - 1]);
    let after = i < cs.len() && re_word_char(cs[i]);
    before != after
}

/// Index of the last `c` in `s[..hi]`, if any.
pub open spec fn rfind_char(s: Seq<char>, hi: int, c: char) -> Option<int>
    decreases hi,
{
    if hi <= 0 || hi > s.len() {
        None
    } else if s[hi - 1] == c {
        Some(hi - 1)
    } else {
        rfind_char(s, hi - 1, c)
    }
}

pub fn rfind_char_before(cs: &Vec<char>, hi: usize, c: char) -> (r: Option<usize>)
    requires
        hi <= cs@.len(),
    ensures
        match r {
            Some(j) => rfind_char(cs@, hi as int, c) == Some(j as int) && j < hi,
            None => rfind_char(cs@, hi as int, c) is None,
        },
{
    let mut h = hi;
    while h > 0
        invariant
            h <= hi <= cs@.len(),
            rfind_char(cs@, hi as int, c) == rfind_char(cs@, h as int, c),
        decreases h,
    {
        if cs[h - 1] == c {
            return Some(h - 1);
        }
        h = h - 1;
    }
    None
}

/// `a` sorts before `b` when both are compared character by character by
/// code point, a proper prefix first (the order of `str`'s `Ord`, since
/// UTF-8 keeps code-point order).
pub open spec fn chars_lt(a: Seq<char>, b: Seq<char>) -> bool
    decreases a.len(),
{
    if a.len() == 0 {
        b.len() > 0
    } else if b.len() == 0 {
        false
    } else if a[0] != b[0] {
        (a[0] as u32) < (b[0] as u32)
    } else {
        chars_lt(a.drop_first(), b.drop_first())
    }
}

pub proof fn lemma_chars_lt_irreflexive(a: Seq<char>)
    ensures
        !chars_lt(a, a),
    decreases a.len(),
{
    if a.len() > 0 {
        lemma_chars_lt_irreflexive(a.drop_first());
    }
}

pub proof fn lemma_chars_lt_transitive(a: Seq<char>, b: Seq<char>, c: Seq<char>)
    requires
        chars_lt(a, b),
        chars_lt(b, c),
    ensures
        chars_lt(a, c),
    decreases a.len(),
{
    if a.len() > 0 && b.len() > 0 && c.len() > 0 && a[0] == b[0] && b[0] == c[0] {
        lemma_chars_lt_transitive(a.drop_first(), b.drop_first(), c.drop_first());
    }
}

pub proof fn lemma_chars_lt_total(a: Seq<char>, b: Seq<char>)
    requires
        a != b,
    ensures
        chars_lt(a, b) || chars_lt(b, a),
    decreases a.len(),
{
    if a.len() == 0 {
        assert(b.len() > 0) by {
            if b.len() == 0 {
                assert(a =~= b);
            }
        }
    } else if b.len() > 0 && a[0] == b[0] {
        assert(a.drop_first() != b.drop_first()) by {
            if a.drop_first() == b.drop_first() {
                assert(a =~= seq![a[0]] + a.drop_first());
                assert(b =~= seq![b[0]] + b.drop_first());
            }
        }
        lemma_chars_lt_total(a.drop_first(), b.drop_first());
    } else if b.len() > 0 {
        let x = a[0];
        let y = b[0];
        assert((x as u32) != (y as u32)) by {
            vstd::utf8::char_u32_cast(x, x as u32);
            vstd::utf8::char_u32_cast(y, y as u32);
        }
    }
}

/// `a` sorts before `b` (see `chars_lt`).
pub fn chars_less(a: &Vec<char>, b: &Vec<char>) -> (r: bool)
    ensures
        r == chars_lt(a@, b@),
{
    let mut i: usize = 0;
    assert(a@.skip(0) =~= a@);
    assert(b@.skip(0) =~= b@);
    loop
        invariant
            i <= a@.len(),
            i <= b@.len(),
            chars_lt(a@, b@) == chars_lt(a@.skip(i as int), b@.skip(i as int)),
        decreases a@.len() - i,
    {
        if i == a.len() {
            return i < b.len();
        }
        if i == b.len() {
            return false;
        }
        let x = a[i];
        let y = b[i];
        assert(a@.skip(i as int)[0] == x);
        assert(b@.skip(i as int)[0] == y);
        if x != y {
            return (x as u32) < (y as u32);
        }
        assert(a@.skip(i as int).drop_first() =~= a@.skip(i + 1));
        assert(b@.skip(i as int).drop_first() =~= b@.skip(i + 1));
        i = i + 1;
    }
}

/// `s` cut to at most `max` characters: when it is longer, its first
/// `max - 1` characters and an ellipsis.
pub open spec fn truncated(s: Seq<char>, max: nat) -> Seq<char> {
    if s.len() <= max {
        s
    } else {
        s.take(if max > 0 {
            max - 1
        } else {
            0
        }).push('…')
    }
}

pub fn truncate(s: &str, max: usize) -> (r: String)
    ensures
        r@ == truncated(s@, max as nat),
{
    let cs = chars_of(s);
    if cs.len() <= max {
        str_to_string(s)
    } else {
        let keep = if max > 0 {
            max - 1
        } else {
            0
        };
        let mut r = string_of(&cs, 0, keep);
        push_char(&mut r, '…');
        assert(cs@.subrange(0, keep as int) =~= s@.take(keep as int));
        r
    }
}

pub proof fn lemma_lower_of_upper(s: Seq<char>)
    ensures
        lower_seq(upper_seq(s)) == lower_seq(s),
{
    assert forall|i: int| 0 <= i < s.len() implies #[trigger] lower_seq(upper_seq(s))[i] == lower_seq(s)[i] by {
        let c = s[i];
        if is_lower(c) {
            let u = ((c as u32) - 32) as char;
            assert(is_upper(u));
            assert((((u as u32) + 32) as char) == c) by {
                vstd::utf8::char_u32_cast(c, c as u32);
            }
        }
    }
    assert(lower_seq(upper_seq(s)) =~= lower_seq(s));
}

} // verus!
