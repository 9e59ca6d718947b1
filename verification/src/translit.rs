//! Rough Cyrillic-to-Latin transliteration and the vowel-free "sound
//! skeleton" used for fuzzy matching of spoken names.
use vstd::prelude::*;
use crate::text::{string_from_chars, chars_of, char_lower, first_lowercase, lowercase, push_char, to_lowercase};

verus! {

/// Whether `c` is one of the lowercase Cyrillic letters the table maps.
pub open spec fn in_table(c: char) -> bool {
    c == 'а' || c == 'б' || c == 'в' || c == 'г' || c == 'д' || c == 'е' || c == 'ё' || c == 'э' || c == 'ж' || c == 'з' || c == 'и' || c == 'й' || c == 'ы' || c == 'к' || c == 'л' || c == 'м' || c == 'н' || c == 'о' || c == 'п' || c == 'р' || c == 'с' || c == 'т' || c == 'у' || c == 'ф' || c == 'х' || c == 'ц' || c == 'ч' || c == 'ш' || c == 'щ' || c == 'ъ' || c == 'ь' || c == 'ю' || c == 'я'
}

/// The Latin spelling of an already lowercased character; characters outside
/// the table stand for themselves.
pub open spec fn translit_char(c: char) -> Seq<char> {
    match c {
        'а' => seq!['a'],
        'б' => seq!['b'],
        'в' => seq!['v'],
        'г' => seq!['g'],
        'д' => seq!['d'],
        'е' => seq!['e'],
        'ё' => seq!['e'],
        'э' => seq!['e'],
        'ж' => seq!['z', 'h'],
        'з' => seq!['z'],
        'и' => seq!['i'],
        'й' => seq!['y'],
        'ы' => seq!['y'],
        'к' => seq!['k'],
        'л' => seq!['l'],
        'м' => seq!['m'],
        'н' => seq!['n'],
        'о' => seq!['o'],
        'п' => seq!['p'],
        'р' => seq!['r'],
        'с' => seq!['s'],
        'т' => seq!['t'],
        'у' => seq!['u'],
        'ф' => seq!['f'],
        'х' => seq!['h'],
        'ц' => seq!['t', 's'],
        'ч' => seq!['c', 'h'],
        'ш' => seq!['s', 'h'],
        'щ' => seq!['s', 'c', 'h'],
        'ъ' => Seq::empty(),
        'ь' => Seq::empty(),
        'ю' => seq!['y', 'u'],
        'я' => seq!['y', 'a'],
        _ => seq![c],
    }
}

/// Transliteration of a text: each character is lowercased (its first
/// lowercase character) and then spelled by `translit_char`.
pub open spec fn translit_spec(s: Seq<char>) -> Seq<char>
    decreases s.len(),
{
    if s.len() == 0 {
        Seq::empty()
    } else {
        translit_spec(s.drop_last()) + translit_char(char_lower(s.last()))
    }
}

/// Appends the Latin spelling of the lowercased character `c` to `out`.
fn push_translit(out: &mut String, c: char)
    ensures
        final(out)@ =~= old(out)@ + translit_char(c),
{
    match c {
        'а' => {
            push_char(out, 'a');
        },
        'б' => {
            push_char(out, 'b');
        },
        'в' => {
            push_char(out, 'v');
        },
        'г' => {
            push_char(out, 'g');
        },
        'д' => {
            push_char(out, 'd');
        },
        'е' => {
            push_char(out, 'e');
        },
        'ё' => {
            push_char(out, 'e');
        },
        'э' => {
            push_char(out, 'e');
        },
        'ж' => {
            push_char(out, 'z'); push_char(out, 'h');
        },
        'з' => {
            push_char(out, 'z');
        },
        'и' => {
            push_char(out, 'i');
        },
        'й' => {
            push_char(out, 'y');
        },
        'ы' => {
            push_char(out, 'y');
        },
        'к' => {
            push_char(out, 'k');
        },
        'л' => {
            push_char(out, 'l');
        },
        'м' => {
            push_char(out, 'm');
        },
        'н' => {
            push_char(out, 'n');
        },
        'о' => {
            push_char(out, 'o');
        },
        'п' => {
            push_char(out, 'p');
        },
        'р' => {
            push_char(out, 'r');
        },
        'с' => {
            push_char(out, 's');
        },
        'т' => {
            push_char(out, 't');
        },
        'у' => {
            push_char(out, 'u');
        },
        'ф' => {
            push_char(out, 'f');
        },
        'х' => {
            push_char(out, 'h');
        },
        'ц' => {
            push_char(out, 't'); push_char(out, 's');
        },
        'ч' => {
            push_char(out, 'c'); push_char(out, 'h');
        },
        'ш' => {
            push_char(out, 's'); push_char(out, 'h');
        },
        'щ' => {
            push_char(out, 's'); push_char(out, 'c'); push_char(out, 'h');
        },
        'ъ' => {},
        'ь' => {},
        'ю' => {
            push_char(out, 'y'); push_char(out, 'u');
        },
        'я' => {
            push_char(out, 'y'); push_char(out, 'a');
        },
        _ => push_char(out, c),
    }
}

/// Rough transliteration Cyrillic -> Latin for matching ("зед" -> "zed").
pub fn translit(s: &str) -> (r: String)
    ensures
        r@ == translit_spec(s@),
{
    let v = chars_of(s);
    let mut out = String::new();
    let mut i: usize = 0;
    while i < v.len()
        invariant
            i <= v@.len(),
            v@ == s@,
            out@ =~= translit_spec(v@.take(i as int)),
        decreases v@.len() - i,
    {
        let c = first_lowercase(v[i]);
        push_translit(&mut out, c);
        proof {
            assert(v@.take(i + 1).drop_last() =~= v@.take(i as int));
        }
        i = i + 1;
    }
    proof {
        assert(v@.take(v@.len() as int) =~= v@);
    }
    out
}

/// Transliteration distributes over concatenation.
pub proof fn lemma_translit_concat(a: Seq<char>, b: Seq<char>)
    ensures
        translit_spec(a + b) =~= translit_spec(a) + translit_spec(b),
    decreases b.len(),
{
    if b.len() > 0 {
        lemma_translit_concat(a, b.drop_last());
        assert((a + b).drop_last() =~= a + b.drop_last());
        assert((a + b).last() == b.last());
    } else {
        assert(a + b =~= a);
    }
}

/// No character of a transliteration is one of the Cyrillic letters of the table.
pub proof fn lemma_translit_no_table_letters(s: Seq<char>)
    ensures
        forall|i: int| 0 <= i < translit_spec(s).len() ==> !in_table(#[trigger] translit_spec(s)[i]),
    decreases s.len(),
{
    if s.len() > 0 {
        lemma_translit_no_table_letters(s.drop_last());
        let p = translit_spec(s.drop_last());
        let q = translit_char(char_lower(s.last()));
        assert forall|i: int| 0 <= i < q.len() implies !in_table(#[trigger] q[i]) by {}
        assert forall|i: int| 0 <= i < translit_spec(s).len() implies !in_table(
            #[trigger] translit_spec(s)[i],
        ) by {
            if i < p.len() {
                assert(translit_spec(s)[i] == p[i]);
            } else {
                assert(translit_spec(s)[i] == q[i - p.len()]);
            }
        }
    }
}

/// Whether `c` is an ASCII letter or digit.
pub open spec fn is_ascii_alnum(c: char) -> bool {
    ('0' <= c <= '9') || ('a' <= c <= 'z') || ('A' <= c <= 'Z')
}

/// Whether `c` is one of the letters "aeiouy".
pub open spec fn is_vowel(c: char) -> bool {
    c == 'a' || c == 'e' || c == 'i' || c == 'o' || c == 'u' || c == 'y'
}

/// Characters the skeleton keeps: ASCII letters and digits other than vowels.
pub open spec fn kept(c: char) -> bool {
    is_ascii_alnum(c) && !is_vowel(c)
}

/// Keep only `kept` characters and collapse runs of the same character.
pub open spec fn squeeze(t: Seq<char>) -> Seq<char>
    decreases t.len(),
{
    if t.len() == 0 {
        Seq::empty()
    } else {
        let r = squeeze(t.drop_last());
        let c = t.last();
        if !kept(c) || (r.len() > 0 && r.last() == c) {
            r
        } else {
            r.push(c)
        }
    }
}

/// The sound skeleton of a text: lowercased, transliterated, then squeezed.
pub open spec fn skeleton_spec(s: Seq<char>) -> Seq<char> {
    squeeze(translit_spec(lowercase(s)))
}

/// Skeleton of an already lowercased and transliterated text.
pub fn squeeze_chars(t: &Vec<char>) -> (r: Vec<char>)
    ensures
        r@ == squeeze(t@),
{
    let mut out: Vec<char> = Vec::new();
    let mut last: char = '\0';
    let mut i: usize = 0;
    while i < t.len()
        invariant
            i <= t@.len(),
            out@ =~= squeeze(t@.take(i as int)),
            out@.len() == 0 ==> last == '\0',
            out@.len() > 0 ==> last == out@.last(),
        decreases t@.len() - i,
    {
        let c = t[i];
        proof {
            assert(t@.take(i + 1).drop_last() =~= t@.take(i as int));
            assert(t@.take(i + 1).last() == c);
        }
        let keep = (('0' <= c && c <= '9') || ('a' <= c && c <= 'z') || ('A' <= c && c <= 'Z'))
            && !(c == 'a' || c == 'e' || c == 'i' || c == 'o' || c == 'u' || c == 'y');
        if keep && c != last {
            out.push(c);
            last = c;
        }
        i = i + 1;
    }
    proof {
        assert(t@.take(t@.len() as int) =~= t@);
    }
    out
}

/// The sound skeleton of `s` as characters.
pub fn skeleton_chars(s: &str) -> (r: Vec<char>)
    ensures
        r@ == skeleton_spec(s@),
{
    let lower = to_lowercase(s);
    let t = translit(lower.as_str());
    let tv = chars_of(t.as_str());
    squeeze_chars(&tv)
}

/// Sound skeleton: transliterate, drop vowels and non-alphanumerics, collapse
/// repeats ("телеграм" -> "tlgrm", "steam" -> "stm").
pub fn skeleton(s: &str) -> (r: String)
    ensures
        r@ == skeleton_spec(s@),
{
    let v = skeleton_chars(s);
    string_from_chars(&v)
}

/// Every character of a skeleton is a kept one, and no two neighbours are equal.
pub proof fn lemma_squeeze_shape(t: Seq<char>)
    ensures
        forall|i: int| 0 <= i < squeeze(t).len() ==> kept(#[trigger] squeeze(t)[i]),
        forall|i: int| 0 < i < squeeze(t).len() ==> #[trigger] squeeze(t)[i] != squeeze(t)[i - 1],
    decreases t.len(),
{
    if t.len() > 0 {
        lemma_squeeze_shape(t.drop_last());
        let r = squeeze(t.drop_last());
        assert forall|i: int| 0 <= i < squeeze(t).len() implies kept(#[trigger] squeeze(t)[i]) by {
            if i < r.len() {
                assert(squeeze(t)[i] == r[i]);
            }
        }
        assert forall|i: int| 0 < i < squeeze(t).len() implies #[trigger] squeeze(t)[i] != squeeze(
            t,
        )[i - 1] by {
            if i < r.len() {
                assert(squeeze(t)[i] == r[i]);
                assert(squeeze(t)[i - 1] == r[i - 1]);
            }
        }
    }
}

/// Squeezing a skeleton again changes nothing.
pub proof fn lemma_squeeze_idempotent(t: Seq<char>)
    ensures
        squeeze(squeeze(t)) =~= squeeze(t),
{
    lemma_squeeze_shape(t);
    lemma_squeeze_fixed(squeeze(t));
}

/// A sequence of kept characters without equal neighbours is its own squeeze.
pub proof fn lemma_squeeze_fixed(s: Seq<char>)
    requires
        forall|i: int| 0 <= i < s.len() ==> kept(#[trigger] s[i]),
        forall|i: int| 0 < i < s.len() ==> #[trigger] s[i] != s[i - 1],
    ensures
        squeeze(s) =~= s,
    decreases s.len(),
{
    if s.len() > 0 {
        let d = s.drop_last();
        assert forall|i: int| 0 <= i < d.len() implies kept(#[trigger] d[i]) by {
            assert(d[i] == s[i]);
        }
        assert forall|i: int| 0 < i < d.len() implies #[trigger] d[i] != d[i - 1] by {
            assert(d[i] == s[i]);
            assert(d[i - 1] == s[i - 1]);
        }
        lemma_squeeze_fixed(d);
        assert(kept(s[s.len() - 1]));
        if d.len() > 0 {
            assert(s[s.len() - 1] != s[s.len() - 2]);
        }
        assert(d.push(s.last()) =~= s);
    }
}

} // verus!
