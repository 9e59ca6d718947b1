//! URL query encoding and search-URL templates.
use vstd::prelude::*;
use vstd::string::StringSliceAdditionalSpecFns;
use vstd::utf8::encode_utf8;
use crate::text::{append_chars, chars_of, find_from, lemma_find_from, occurs_at, occurs_at_exec, push_char, slice_chars, string_from_chars};

verus! {

/// Bytes that stand for themselves in a query: ASCII letters, digits and `-_.~`.
pub open spec fn unreserved(b: u8) -> bool {
    (0x41 <= b <= 0x5A) || (0x61 <= b <= 0x7A) || (0x30 <= b <= 0x39) || b == 0x2D || b == 0x5F
        || b == 0x2E || b == 0x7E
}

/// Upper-case hexadecimal digit of a value below 16.
pub open spec fn hex_digit(d: u8) -> char {
    if d < 10 {
        (0x30 + d) as char
    } else {
        (0x37 + d) as char
    }
}

/// Encoding of one byte: space -> `+`, unreserved bytes as themselves,
/// everything else as `%XX` in upper-case hex.
pub open spec fn encode_byte(b: u8) -> Seq<char> {
    if b == 0x20 {
        seq!['+']
    } else if unreserved(b) {
        seq![b as char]
    } else {
        seq!['%', hex_digit(b / 16), hex_digit(b % 16)]
    }
}

/// Encoding of a byte string, byte by byte.
pub open spec fn urlencode_bytes(bs: Seq<u8>) -> Seq<char>
    decreases bs.len(),
{
    if bs.len() == 0 {
        Seq::empty()
    } else {
        urlencode_bytes(bs.drop_last()) + encode_byte(bs.last())
    }
}

fn hex_digit_exec(d: u8) -> (c: char)
    requires
        d < 16,
    ensures
        c == hex_digit(d),
{
    if d < 10 {
        (0x30 + d) as char
    } else {
        (0x37 + d) as char
    }
}

/// Percent-encodes a text for a URL query: each UTF-8 byte of `s` in order;
/// space -> `+`, ASCII letters, digits and `-_.~` kept, others as `%XX`.
pub fn urlencode(s: &str) -> (r: String)
    ensures
        r@ == urlencode_bytes(encode_utf8(s@)),
{
    let bytes = s.as_bytes();
    let mut out = String::new();
    let mut i: usize = 0;
    while i < bytes.len()
        invariant
            i <= bytes@.len(),
            bytes@ == s.spec_bytes(),
            out@ =~= urlencode_bytes(bytes@.take(i as int)),
        decreases bytes@.len() - i,
    {
        let b = bytes[i];
        proof {
            assert(bytes@.take(i + 1).drop_last() =~= bytes@.take(i as int));
            assert(bytes@.take(i + 1).last() == b);
        }
        if b == 0x20 {
            push_char(&mut out, '+');
        } else if (0x41 <= b && b <= 0x5A) || (0x61 <= b && b <= 0x7A) || (0x30 <= b && b <= 0x39)
            || b == 0x2D || b == 0x5F || b == 0x2E || b == 0x7E {
            push_char(&mut out, b as char);
        } else {
            push_char(&mut out, '%');
            push_char(&mut out, hex_digit_exec(b / 16));
            push_char(&mut out, hex_digit_exec(b % 16));
        }
        i = i + 1;
    }
    proof {
        assert(bytes@.take(bytes@.len() as int) =~= bytes@);
    }
    out
}

/// Characters an encoding may hold: `+`, `%`, unreserved ASCII and
/// upper-case hex digits.
pub open spec fn url_safe(c: char) -> bool {
    c == '+' || c == '%' || ('A' <= c <= 'Z') || ('a' <= c <= 'z') || ('0' <= c <= '9') || c
        == '-' || c == '_' || c == '.' || c == '~'
}

/// An encoded query holds only URL-safe characters (in particular no
/// spaces), and is at least as long as the byte string it encodes.
pub proof fn lemma_urlencode_safe(bs: Seq<u8>)
    ensures
        forall|i: int| 0 <= i < urlencode_bytes(bs).len() ==> url_safe(#[trigger] urlencode_bytes(bs)[i]),
        urlencode_bytes(bs).len() >= bs.len(),
    decreases bs.len(),
{
    if bs.len() > 0 {
        lemma_urlencode_safe(bs.drop_last());
        let p = urlencode_bytes(bs.drop_last());
        let b = bs.last();
        let q = encode_byte(b);
        assert forall|i: int| 0 <= i < q.len() implies url_safe(#[trigger] q[i]) by {
            if b != 0x20 && !unreserved(b) {
                assert(b / 16 < 16 && b % 16 < 16);
            }
        }
        assert forall|i: int| 0 <= i < urlencode_bytes(bs).len() implies url_safe(
            #[trigger] urlencode_bytes(bs)[i],
        ) by {
            if i < p.len() {
                assert(urlencode_bytes(bs)[i] == p[i]);
            } else {
                assert(urlencode_bytes(bs)[i] == q[i - p.len()]);
            }
        }
    }
}

/// `s` from index `pos` on, with every non-overlapping occurrence of `p`
/// (left to right) replaced by `r`.
pub open spec fn replace_from(s: Seq<char>, p: Seq<char>, r: Seq<char>, pos: int) -> Seq<char>
    decreases s.len() - pos,
{
    if pos < 0 || pos > s.len() || p.len() == 0 {
        s.skip(pos)
    } else {
        match find_from(s, p, pos) {
            Some(i) => if pos <= i && i + p.len() <= s.len() {
                s.subrange(pos, i) + r + replace_from(s, p, r, i + p.len())
            } else {
                s.skip(pos)
            },
            None => s.skip(pos),
        }
    }
}

/// `s` with every occurrence of the non-empty pattern `p` replaced by `r`
/// (`str::replace`).
pub open spec fn replace_all(s: Seq<char>, p: Seq<char>, r: Seq<char>) -> Seq<char> {
    replace_from(s, p, r, 0)
}

/// The first index at or after `start` where `p` occurs in `v`.
pub fn find_from_exec(v: &Vec<char>, p: &Vec<char>, start: usize) -> (r: Option<usize>)
    requires
        start <= v@.len(),
    ensures
        r matches Some(k) ==> find_from(v@, p@, start as int) == Some(k as int),
        r is None ==> find_from(v@, p@, start as int) is None,
{
    if p.len() > v.len() - start {
        return None;
    }
    let mut i: usize = start;
    while i <= v.len() - p.len()
        invariant
            start <= i,
            start + p@.len() <= v@.len(),
            i <= v@.len() - p@.len() + 1,
            find_from(v@, p@, start as int) == find_from(v@, p@, i as int),
        decreases v@.len() - p@.len() + 1 - i,
    {
        if occurs_at_exec(v, p, i) {
            return Some(i);
        }
        i = i + 1;
    }
    None
}

/// Replaces every occurrence of the non-empty pattern `p` in `v` by `r`.
pub fn replace_chars(v: &Vec<char>, p: &Vec<char>, r: &Vec<char>) -> (out: Vec<char>)
    requires
        p@.len() > 0,
    ensures
        out@ =~= replace_all(v@, p@, r@),
{
    let mut out: Vec<char> = Vec::new();
    let mut pos: usize = 0;
    let n = v.len();
    loop
        invariant
            n == v@.len(),
            pos <= v@.len(),
            p@.len() > 0,
            out@ + replace_from(v@, p@, r@, pos as int) =~= replace_all(
                v@,
                p@,
                r@,
            ),
        decreases v@.len() + 1 - pos,
    {
        match find_from_exec(v, p, pos) {
            Some(i) => {
                proof {
                    lemma_find_from(v@, p@, pos as int);
                    assert(occurs_at(v@, p@, i as int));
                    assert(i + p@.len() <= v@.len());
                }
                let head = slice_chars(v, pos, i);
                append_chars(&mut out, &head);
                append_chars(&mut out, r);
                pos = i + p.len();
            },
            None => {
                let tail = slice_chars(v, pos, v.len());
                append_chars(&mut out, &tail);
                proof {
                    assert(v@.subrange(pos as int, v@.len() as int) =~= v@.skip(pos as int));
                }
                return out;
            },
        }
    }
}

/// The search URL for a query: the template with every `{q}` replaced by the
/// URL-encoded query.
pub fn fill_search_template(template: &str, query: &str) -> (r: String)
    ensures
        r@ == replace_all(template@, seq!['{', 'q', '}'], urlencode_bytes(encode_utf8(query@))),
{
    let t = chars_of(template);
    let mut pat: Vec<char> = Vec::new();
    pat.push('{');
    pat.push('q');
    pat.push('}');
    let enc = urlencode(query);
    let e = chars_of(enc.as_str());
    let out = replace_chars(&t, &pat, &e);
    proof {
        assert(pat@ =~= seq!['{', 'q', '}']);
    }
    string_from_chars(&out)
}


/// A text without the pattern is left as it is.
pub proof fn lemma_replace_absent(s: Seq<char>, p: Seq<char>, r: Seq<char>)
    requires
        find_from(s, p, 0) is None,
    ensures
        replace_all(s, p, r) =~= s,
{
}

} // verus!
