//! Copying text to the clipboard through the terminal: the OSC 52 control
//! sequence, which carries the text in base64.
use vstd::prelude::*;
use vstd::string::StringSliceAdditionalSpecFns;
use crate::text::{push_char, push_str};

verus! {

/// The base64 digit for a six-bit value.
pub open spec fn b64_digit(k: int) -> char {
    if k < 26 {
        (65 + k) as char
    } else if k < 52 {
        (97 + k - 26) as char
    } else if k < 62 {
        (48 + k - 52) as char
    } else if k == 62 {
        '+'
    } else {
        '/'
    }
}

/// The four digits of the 24-bit value `v`.
pub open spec fn quad(v: int) -> Seq<char> {
    seq![
        b64_digit(v / 262144),
        b64_digit((v / 4096) % 64),
        b64_digit((v / 64) % 64),
        b64_digit(v % 64),
    ]
}

/// The 24-bit value of the three bytes from `i`.
pub open spec fn triple(s: Seq<u8>, i: int) -> int {
    s[i] * 65536 + s[i + 1] * 256 + s[i + 2]
}

/// The digits of the first `n` whole groups of three bytes.
pub open spec fn b64_groups(s: Seq<u8>, n: nat) -> Seq<char>
    decreases n,
{
    if n == 0 {
        Seq::empty()
    } else {
        b64_groups(s, (n - 1) as nat) + quad(triple(s, 3 * (n - 1)))
    }
}

/// The digits of the one or two bytes after the last whole group, padded
/// with `=`.
pub open spec fn b64_tail(s: Seq<u8>) -> Seq<char> {
    let i = s.len() - s.len() % 3;
    if s.len() % 3 == 1 {
        quad(s[i] * 65536).take(2) + seq!['=', '=']
    } else if s.len() % 3 == 2 {
        quad(s[i] * 65536 + s[i + 1] * 256).take(3) + seq!['=']
    } else {
        Seq::empty()
    }
}

/// The standard base64 encoding of `s`, padded.
pub open spec fn base64_spec(s: Seq<u8>) -> Seq<char> {
    b64_groups(s, s.len() / 3) + b64_tail(s)
}

fn digit(k: u32) -> (c: char)
    requires
        k < 64,
    ensures
        c == b64_digit(k as int),
{
    if k < 26 {
        ((65 + k) as u8) as char
    } else if k < 52 {
        ((97 + k - 26) as u8) as char
    } else if k < 62 {
        ((48 + k - 52) as u8) as char
    } else if k == 62 {
        '+'
    } else {
        '/'
    }
}

/// Appends the first `count` digits of the 24-bit value `v`.
fn push_quad(out: &mut String, v: u32, count: usize)
    requires
        v < 16777216,
        1 <= count <= 4,
    ensures
        final(out)@ == old(out)@ + quad(v as int).take(count as int),
{
    let ghost q = quad(v as int);
    let d0 = digit(v / 262144);
    push_char(out, d0);
    assert(old(out)@ + q.take(1) =~= old(out)@.push(d0));
    if count >= 2 {
        let d1 = digit((v / 4096) % 64);
        push_char(out, d1);
        assert(old(out)@ + q.take(2) =~= old(out)@.push(d0).push(d1));
    }
    if count >= 3 {
        let d2 = digit((v / 64) % 64);
        push_char(out, d2);
        assert(old(out)@ + q.take(3) =~= old(out)@.push(d0).push(q[1]).push(d2));
    }
    if count >= 4 {
        let d3 = digit(v % 64);
        push_char(out, d3);
        assert(old(out)@ + q.take(4) =~= old(out)@.push(d0).push(q[1]).push(q[2]).push(d3));
    }
}

/// The standard base64 encoding of `bytes`, padded with `=`.
pub fn base64(bytes: &[u8]) -> (r: String)
    ensures
        r@ == base64_spec(bytes@),
{
    let n = bytes.len();
    let groups = n / 3;
    let mut out = String::new();
    let mut g: usize = 0;
    while g < groups
        invariant
            n == bytes@.len(),
            groups == n / 3,
            g <= groups,
            out@ == b64_groups(bytes@, g as nat),
        decreases groups - g,
    {
        let i = 3 * g;
        let v: u32 = bytes[i] as u32 * 65536 + bytes[i + 1] as u32 * 256 + bytes[i + 2] as u32;
        push_quad(&mut out, v, 4);
        assert(quad(v as int).take(4) =~= quad(v as int));
        g = g + 1;
    }
    let i = 3 * groups;
    let rest = n - i;
    if rest == 1 {
        let v: u32 = bytes[i] as u32 * 65536;
        push_quad(&mut out, v, 2);
        push_str(&mut out, "==");
        proof {
            reveal_strlit("==");
        }
        assert(out@ =~= base64_spec(bytes@));
    } else if rest == 2 {
        let v: u32 = bytes[i] as u32 * 65536 + bytes[i + 1] as u32 * 256;
        push_quad(&mut out, v, 3);
        push_str(&mut out, "=");
        proof {
            reveal_strlit("=");
        }
        assert(out@ =~= base64_spec(bytes@));
    } else {
        assert(out@ =~= base64_spec(bytes@));
    }
    out
}

/// The control sequence that asks the terminal to put `text` on the
/// clipboard: `ESC ] 52 ; c ;`, the text's UTF-8 bytes in base64, `BEL`.
pub fn clipboard_sequence(text: &str) -> (r: String)
    ensures
        r@ == "\x1b]52;c;"@ + base64_spec(text.spec_bytes()) + "\x07"@,
{
    let mut out = String::new();
    push_str(&mut out, "\x1b]52;c;");
    let encoded = base64(text.as_bytes());
    push_str(&mut out, encoded.as_str());
    push_str(&mut out, "\x07");
    out
}

} // verus!
