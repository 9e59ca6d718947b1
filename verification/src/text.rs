//! Character-level text primitives: whitespace, words, trimming,
//! substring search and string building, all over `Seq<char>` models.
use vstd::prelude::*;

verus! {

/// The Unicode `White_Space` property (the set `char::is_whitespace` tests).
pub open spec fn is_ws(c: char) -> bool {
    let u = c as u32;
    ||| 0x09 <= u <= 0x0D
    ||| u == 0x20
    ||| u == 0x85
    ||| u == 0xA0
    ||| u == 0x1680
    ||| 0x2000 <= u <= 0x200A
    ||| u == 0x2028
    ||| u == 0x2029
    ||| u == 0x202F
    ||| u == 0x205F
    ||| u == 0x3000
}

/// Whether `c` is a Unicode whitespace character.
pub fn is_whitespace(c: char) -> (r: bool)
    ensures
        r == is_ws(c),
{
    let u = c as u32;
    (0x09 <= u && u <= 0x0D) || u == 0x20 || u == 0x85 || u == 0xA0 || u == 0x1680 || (0x2000
        <= u && u <= 0x200A) || u == 0x2028 || u == 0x2029 || u == 0x202F || u == 0x205F || u
        == 0x3000
}

/// `s` with its leading whitespace removed.
pub open spec fn trim_start(s: Seq<char>) -> Seq<char>
    decreases s.len(),
{
    if s.len() > 0 && is_ws(s[0]) {
        trim_start(s.drop_first())
    } else {
        s
    }
}

/// `s` with its trailing whitespace removed.
pub open spec fn trim_end(s: Seq<char>) -> Seq<char>
    decreases s.len(),
{
    if s.len() > 0 && is_ws(s.last()) {
        trim_end(s.drop_last())
    } else {
        s
    }
}

/// `s` with whitespace removed at both ends (`str::trim`).
pub open spec fn trim(s: Seq<char>) -> Seq<char> {
    trim_end(trim_start(s))
}

/// The longest prefix of `s` that holds no whitespace.
pub open spec fn take_word(s: Seq<char>) -> Seq<char>
    decreases s.len(),
{
    if s.len() > 0 && !is_ws(s[0]) {
        seq![s[0]] + take_word(s.drop_first())
    } else {
        Seq::empty()
    }
}

pub proof fn lemma_trim_start_suffix(s: Seq<char>)
    ensures
        trim_start(s).len() <= s.len(),
        trim_start(s) =~= s.skip(s.len() - trim_start(s).len()),
        trim_start(s).len() > 0 ==> !is_ws(trim_start(s)[0]),
        forall|i: int| 0 <= i < s.len() - trim_start(s).len() ==> is_ws(#[trigger] s[i]),
    decreases s.len(),
{
    if s.len() > 0 && is_ws(s[0]) {
        lemma_trim_start_suffix(s.drop_first());
        assert forall|i: int| 0 <= i < s.len() - trim_start(s).len() implies is_ws(#[trigger] s[i]) by {
            if i > 0 {
                assert(s[i] == s.drop_first()[i - 1]);
            }
        }
    }
}

pub proof fn lemma_take_word_prefix(s: Seq<char>)
    ensures
        take_word(s).len() <= s.len(),
        take_word(s) =~= s.take(take_word(s).len() as int),
        take_word(s).len() < s.len() ==> is_ws(s[take_word(s).len() as int]),
        forall|i: int| 0 <= i < take_word(s).len() ==> !is_ws(#[trigger] s[i]),
    decreases s.len(),
{
    if s.len() > 0 && !is_ws(s[0]) {
        lemma_take_word_prefix(s.drop_first());
        let w = take_word(s.drop_first());
        assert(take_word(s).len() == w.len() + 1);
        if take_word(s).len() < s.len() {
            assert(s[take_word(s).len() as int] == s.drop_first()[w.len() as int]);
        }
        assert forall|i: int| 0 <= i < take_word(s).len() implies !is_ws(#[trigger] s[i]) by {
            if i > 0 {
                assert(s[i] == s.drop_first()[i - 1]);
            }
        }
    }
}

/// Characterizes `trim_start` by the index of the first non-whitespace character.
pub proof fn lemma_trim_start_at(s: Seq<char>, j: int)
    requires
        0 <= j <= s.len(),
        forall|i: int| 0 <= i < j ==> is_ws(#[trigger] s[i]),
        j < s.len() ==> !is_ws(s[j]),
    ensures
        trim_start(s) =~= s.skip(j),
    decreases j,
{
    if j > 0 {
        assert(is_ws(s[0]));
        assert forall|i: int| 0 <= i < j - 1 implies is_ws(#[trigger] s.drop_first()[i]) by {
            assert(s.drop_first()[i] == s[i + 1]);
        }
        lemma_trim_start_at(s.drop_first(), j - 1);
        assert(s.drop_first().skip(j - 1) =~= s.skip(j));
    } else {
        if s.len() > 0 {
            assert(!is_ws(s[0]));
        }
    }
}

/// Characterizes `take_word` by the index of the first whitespace character.
pub proof fn lemma_take_word_at(s: Seq<char>, k: int)
    requires
        0 <= k <= s.len(),
        forall|i: int| 0 <= i < k ==> !is_ws(#[trigger] s[i]),
        k < s.len() ==> is_ws(s[k]),
    ensures
        take_word(s) =~= s.take(k),
    decreases k,
{
    if k > 0 {
        assert(!is_ws(s[0]));
        assert forall|i: int| 0 <= i < k - 1 implies !is_ws(#[trigger] s.drop_first()[i]) by {
            assert(s.drop_first()[i] == s[i + 1]);
        }
        lemma_take_word_at(s.drop_first(), k - 1);
        assert(seq![s[0]] + s.drop_first().take(k - 1) =~= s.take(k));
    } else {
        if s.len() > 0 {
            assert(is_ws(s[0]));
        }
    }
}

/// The words of `s` (`str::split_whitespace`): its maximal runs of
/// non-whitespace characters, in order.
pub open spec fn words(s: Seq<char>) -> Seq<Seq<char>>
    decreases s.len(),
{
    let t = trim_start(s);
    if t.len() == 0 {
        Seq::empty()
    } else {
        let w = take_word(t);
        if 0 < w.len() <= t.len() <= s.len() {
            seq![w] + words(t.skip(w.len() as int))
        } else {
            Seq::empty()
        }
    }
}

/// The text after the first word of `s` that satisfies `p`, if any word does.
pub open spec fn after_first_word(s: Seq<char>, p: spec_fn(Seq<char>) -> bool) -> Option<
    Seq<char>,
>
    decreases s.len(),
{
    let t = trim_start(s);
    if t.len() == 0 {
        None
    } else {
        let w = take_word(t);
        if 0 < w.len() <= t.len() <= s.len() {
            if p(w) {
                Some(t.skip(w.len() as int))
            } else {
                after_first_word(t.skip(w.len() as int), p)
            }
        } else {
            None
        }
    }
}

/// Position of the next word of `v` at or after `i`, as `(start, end)`.
pub fn next_word(v: &Vec<char>, i: usize) -> (r: Option<(usize, usize)>)
    requires
        i <= v@.len(),
    ensures
        r is None ==> trim_start(v@.skip(i as int)).len() == 0,
        r matches Some((j, k)) ==> {
            &&& i <= j < k <= v@.len()
            &&& trim_start(v@.skip(i as int)) =~= v@.skip(j as int)
            &&& take_word(v@.skip(j as int)) =~= v@.subrange(j as int, k as int)
            &&& trim_start(v@.skip(i as int)).len() > 0
        },
{
    let n = v.len();
    let mut j = i;
    while j < n && is_whitespace(v[j])
        invariant
            i <= j <= n,
            n == v@.len(),
            forall|m: int| i <= m < j ==> is_ws(#[trigger] v@[m]),
        decreases n - j,
    {
        j = j + 1;
    }
    proof {
        let s = v@.skip(i as int);
        assert forall|m: int| 0 <= m < j - i implies is_ws(#[trigger] s[m]) by {
            assert(s[m] == v@[m + i]);
        }
        lemma_trim_start_at(s, j - i);
        assert(s.skip(j - i) =~= v@.skip(j as int));
    }
    if j == n {
        return None;
    }
    let mut k = j;
    while k < n && !is_whitespace(v[k])
        invariant
            j <= k <= n,
            n == v@.len(),
            forall|m: int| j <= m < k ==> !is_ws(#[trigger] v@[m]),
        decreases n - k,
    {
        k = k + 1;
    }
    proof {
        let s = v@.skip(j as int);
        assert forall|m: int| 0 <= m < k - j implies !is_ws(#[trigger] s[m]) by {
            assert(s[m] == v@[m + j]);
        }
        if k < n {
            assert(s[k - j] == v@[k as int]);
        }
        lemma_take_word_at(s, k - j);
        assert(s.take(k - j) =~= v@.subrange(j as int, k as int));
        assert(!is_ws(v@[j as int]));
    }
    Some((j, k))
}

/// One step of the word scan: what `next_word` reports, read through `words`
/// and `after_first_word`.
pub proof fn lemma_word_step(s: Seq<char>, i: int, j: int, k: int, p: spec_fn(Seq<char>) -> bool)
    requires
        0 <= i <= j < k <= s.len(),
        trim_start(s.skip(i)) =~= s.skip(j),
        take_word(s.skip(j)) =~= s.subrange(j, k),
    ensures
        words(s.skip(i)) =~= seq![s.subrange(j, k)] + words(s.skip(k)),
        after_first_word(s.skip(i), p) == (if p(s.subrange(j, k)) {
            Some(s.skip(k))
        } else {
            after_first_word(s.skip(k), p)
        }),
{
    let t = trim_start(s.skip(i));
    assert(t.skip(k - j) =~= s.skip(k));
}

/// A character sequence that spells the same text as `v`.
pub fn string_from_chars(v: &Vec<char>) -> (r: String)
    ensures
        r@ == v@,
{
    let mut r = String::new();
    let mut i: usize = 0;
    while i < v.len()
        invariant
            i <= v@.len(),
            r@ =~= v@.take(i as int),
        decreases v@.len() - i,
    {
        push_char(&mut r, v[i]);
        i = i + 1;
    }
    r
}

/// Calls `String::push`, which appends one character.
#[verifier::external_body]
pub(crate) fn push_char(s: &mut String, c: char)
    ensures
        final(s)@ == old(s)@.push(c),
{
    s.push(c);
}

/// The characters of `s`, in order.
pub fn chars_of(s: &str) -> (v: Vec<char>)
    ensures
        v@ == s@,
{
    let mut v: Vec<char> = Vec::new();
    for c in it: s.chars()
        invariant
            v@ == it.seq().take(it.index() as int),
            it.seq() == s@,
    {
        v.push(c);
    }
    v
}

/// The name for what `str::to_lowercase` returns.
pub uninterp spec fn lowercase(s: Seq<char>) -> Seq<char>;

/// Calls `str::to_lowercase`. Its result is taken as the named function
/// `lowercase` of the text; nothing more about the Unicode case mapping is claimed.
#[verifier::external_body]
pub(crate) fn to_lowercase(s: &str) -> (r: String)
    ensures
        r@ == lowercase(s@),
{
    s.to_lowercase()
}

/// The name for the first character that `char::to_lowercase` yields.
pub uninterp spec fn char_lower(c: char) -> char;

/// Calls `char::to_lowercase` and takes the first character of the mapping
/// (the mapping is never empty). Only the name `char_lower` is claimed.
#[verifier::external_body]
pub(crate) fn first_lowercase(c: char) -> (r: char)
    ensures
        r == char_lower(c),
{
    c.to_lowercase().next().unwrap_or(c)
}

/// Whether `p` occurs in `s` starting at index `i`.
pub open spec fn occurs_at(s: Seq<char>, p: Seq<char>, i: int) -> bool {
    0 <= i && i + p.len() <= s.len() && s.subrange(i, i + p.len()) =~= p
}

/// The first index at or after `i` where `p` occurs in `s`.
pub open spec fn find_from(s: Seq<char>, p: Seq<char>, i: int) -> Option<int>
    decreases s.len() - i,
{
    if i < 0 || i + p.len() > s.len() {
        None
    } else if occurs_at(s, p, i) {
        Some(i)
    } else {
        find_from(s, p, i + 1)
    }
}

/// The first index where `p` occurs in `s` (`str::find`).
pub open spec fn find(s: Seq<char>, p: Seq<char>) -> Option<int> {
    find_from(s, p, 0)
}

pub proof fn lemma_find_from(s: Seq<char>, p: Seq<char>, i: int)
    requires
        0 <= i,
    ensures
        find_from(s, p, i) matches Some(k) ==> i <= k && occurs_at(s, p, k) && forall|m: int|
            i <= m < k ==> !occurs_at(s, p, m),
        find_from(s, p, i) is None ==> forall|m: int| i <= m ==> !occurs_at(s, p, m),
    decreases s.len() - i,
{
    if i + p.len() > s.len() {
    } else if occurs_at(s, p, i) {
    } else {
        lemma_find_from(s, p, i + 1);
        assert forall|m: int| i <= m && #[trigger] occurs_at(s, p, m) implies find_from(
            s,
            p,
            i + 1,
        ) is Some && m >= find_from(s, p, i + 1)->0 by {
            if m == i {
            }
        }
    }
}

/// Whether `p` occurs in `s` (`str::contains`).
pub open spec fn contains(s: Seq<char>, p: Seq<char>) -> bool {
    find(s, p) is Some
}

/// Whether `p` occurs in `v` starting at index `i`.
pub fn occurs_at_exec(v: &Vec<char>, p: &Vec<char>, i: usize) -> (r: bool)
    ensures
        r == occurs_at(v@, p@, i as int),
{
    if i > v.len() || p.len() > v.len() - i {
        return false;
    }
    let mut m: usize = 0;
    while m < p.len()
        invariant
            m <= p@.len(),
            i + p@.len() <= v@.len(),
            v@.len() == v.len(),
            forall|t: int| 0 <= t < m ==> v@[i + t] == p@[t],
        decreases p@.len() - m,
    {
        if v[i + m] != p[m] {
            assert(v@.subrange(i as int, i + p@.len())[m as int] != p@[m as int]);
            return false;
        }
        m = m + 1;
    }
    assert(v@.subrange(i as int, i + p@.len()) =~= p@);
    true
}

/// The first index where `p` occurs in `v`.
pub fn find_exec(v: &Vec<char>, p: &Vec<char>) -> (r: Option<usize>)
    ensures
        r matches Some(k) ==> find(v@, p@) == Some(k as int),
        r is None ==> find(v@, p@) is None,
{
    if p.len() > v.len() {
        return None;
    }
    let mut i: usize = 0;
    while i <= v.len() - p.len()
        invariant
            p@.len() <= v@.len(),
            i <= v@.len() - p@.len() + 1,
            find(v@, p@) == find_from(v@, p@, i as int),
        decreases v@.len() - p@.len() + 1 - i,
    {
        if occurs_at_exec(v, p, i) {
            return Some(i);
        }
        i = i + 1;
    }
    None
}

/// Whether `a` and `b` spell the same text.
pub fn chars_eq(a: &Vec<char>, b: &Vec<char>) -> (r: bool)
    ensures
        r == (a@ == b@),
{
    if a.len() != b.len() {
        return false;
    }
    let mut i: usize = 0;
    while i < a.len()
        invariant
            a@.len() == b@.len(),
            i <= a@.len(),
            forall|t: int| 0 <= t < i ==> a@[t] == b@[t],
        decreases a@.len() - i,
    {
        if a[i] != b[i] {
            return false;
        }
        i = i + 1;
    }
    assert(a@ =~= b@);
    true
}

/// A copy of `v[from..to]`.
pub fn slice_chars(v: &Vec<char>, from: usize, to: usize) -> (r: Vec<char>)
    requires
        from <= to <= v@.len(),
    ensures
        r@ =~= v@.subrange(from as int, to as int),
{
    let mut r: Vec<char> = Vec::new();
    let mut i = from;
    while i < to
        invariant
            from <= i <= to <= v@.len(),
            r@ =~= v@.subrange(from as int, i as int),
        decreases to - i,
    {
        r.push(v[i]);
        i = i + 1;
    }
    r
}

/// Appends `b` to `a`.
pub fn append_chars(a: &mut Vec<char>, b: &Vec<char>)
    ensures
        final(a)@ =~= old(a)@ + b@,
{
    let mut i: usize = 0;
    while i < b.len()
        invariant
            i <= b@.len(),
            a@ =~= old(a)@ + b@.take(i as int),
        decreases b@.len() - i,
    {
        a.push(b[i]);
        i = i + 1;
    }
}

/// `v` with whitespace removed at both ends (`str::trim`).
pub fn trim_chars(v: &Vec<char>) -> (r: Vec<char>)
    ensures
        r@ =~= trim(v@),
{
    let n = v.len();
    let mut j: usize = 0;
    while j < n && is_whitespace(v[j])
        invariant
            j <= n,
            n == v@.len(),
            forall|m: int| 0 <= m < j ==> is_ws(#[trigger] v@[m]),
        decreases n - j,
    {
        j = j + 1;
    }
    proof {
        lemma_trim_start_at(v@, j as int);
    }
    let mut k = n;
    while k > j && is_whitespace(v[k - 1])
        invariant
            j <= k <= n,
            n == v@.len(),
            forall|m: int| k <= m < n ==> is_ws(#[trigger] v@[m]),
        decreases k,
    {
        k = k - 1;
    }
    proof {
        let s = v@.skip(j as int);
        assert forall|i: int| k - j <= i < s.len() implies is_ws(#[trigger] s[i]) by {
            assert(s[i] == v@[i + j]);
        }
        if k > j {
            assert(s[k - j - 1] == v@[k - 1]);
        }
        lemma_trim_end_at(s, k - j);
        assert(v@.skip(j as int).take(k - j) =~= v@.subrange(j as int, k as int));
    }
    slice_chars(v, j, k)
}

/// Characterizes `trim_end` by the length of what is kept.
pub proof fn lemma_trim_end_at(s: Seq<char>, k: int)
    requires
        0 <= k <= s.len(),
        forall|i: int| k <= i < s.len() ==> is_ws(#[trigger] s[i]),
        k > 0 ==> !is_ws(s[k - 1]),
    ensures
        trim_end(s) =~= s.take(k),
    decreases s.len() - k,
{
    if s.len() > k {
        assert(is_ws(s.last()));
        assert forall|i: int| k <= i < s.drop_last().len() implies is_ws(
            #[trigger] s.drop_last()[i],
        ) by {
            assert(s.drop_last()[i] == s[i]);
        }
        if k > 0 {
            assert(s.drop_last()[k - 1] == s[k - 1]);
        }
        lemma_trim_end_at(s.drop_last(), k);
        assert(s.drop_last().take(k) =~= s.take(k));
    } else {
        if s.len() > 0 {
            assert(s.last() == s[k - 1]);
        }
        assert(s.take(k) =~= s);
    }
}

} // verus!

verus! {

/// Number of bytes of the UTF-8 encoding of `c` (`char::len_utf8`).
pub open spec fn utf8_width(c: char) -> nat {
    let u = c as u32;
    if u < 0x80 {
        1
    } else if u < 0x800 {
        2
    } else if u < 0x10000 {
        3
    } else {
        4
    }
}

/// Number of bytes of the UTF-8 encoding of `s` (`str::len`).
pub open spec fn utf8_len(s: Seq<char>) -> nat
    decreases s.len(),
{
    if s.len() == 0 {
        0
    } else {
        utf8_width(s[0]) + utf8_len(s.drop_first())
    }
}

/// `utf8_len` is the length of vstd's UTF-8 encoding.
pub proof fn lemma_utf8_len_encode(s: Seq<char>)
    ensures
        utf8_len(s) == vstd::utf8::encode_utf8(s).len(),
    decreases s.len(),
{
    if s.len() > 0 {
        lemma_utf8_len_encode(s.drop_first());
        let c = s[0];
        vstd::utf8::char_is_scalar(c);
    }
}

pub proof fn lemma_utf8_len_push(s: Seq<char>, c: char)
    ensures
        utf8_len(s.push(c)) == utf8_len(s) + utf8_width(c),
    decreases s.len(),
{
    if s.len() > 0 {
        lemma_utf8_len_push(s.drop_first(), c);
        assert(s.push(c).drop_first() =~= s.drop_first().push(c));
        assert(s.push(c)[0] == s[0]);
    } else {
        assert(s.push(c).drop_first() =~= Seq::<char>::empty());
        assert(s.push(c)[0] == c);
        assert(utf8_len(s.push(c).drop_first()) == 0);
    }
}

pub proof fn lemma_utf8_len_ge(s: Seq<char>)
    ensures
        utf8_len(s) >= s.len(),
    decreases s.len(),
{
    if s.len() > 0 {
        lemma_utf8_len_ge(s.drop_first());
    }
}

/// Number of UTF-8 bytes of the characters `v`.
pub fn utf8_len_chars(v: &Vec<char>) -> (r: u128)
    ensures
        r == utf8_len(v@),
        r <= 4 * v@.len(),
{
    let mut total: u128 = 0;
    let mut i: usize = 0;
    while i < v.len()
        invariant
            i <= v@.len(),
            total == utf8_len(v@.take(i as int)),
            total <= 4 * i,
        decreases v@.len() - i,
    {
        let c = v[i];
        let u = c as u32;
        let w: u128 = if u < 0x80 {
            1
        } else if u < 0x800 {
            2
        } else if u < 0x10000 {
            3
        } else {
            4
        };
        proof {
            lemma_utf8_len_push(v@.take(i as int), c);
            assert(v@.take(i + 1) =~= v@.take(i as int).push(c));
        }
        total = total + w;
        i = i + 1;
    }
    proof {
        assert(v@.take(v@.len() as int) =~= v@);
    }
    total
}

} // verus!

verus! {

/// Whether `a` and `b` spell the same text.
pub fn same_text(a: &str, b: &str) -> (r: bool)
    ensures
        r == (a@ == b@),
{
    let av = chars_of(a);
    let bv = chars_of(b);
    chars_eq(&av, &bv)
}

/// The characters of each string of `v`.
pub fn chars_of_all(v: &Vec<String>) -> (r: Vec<Vec<char>>)
    ensures
        r@.len() == v@.len(),
        forall|i: int| 0 <= i < v@.len() ==> #[trigger] r@[i]@ == v@[i]@,
{
    let mut r: Vec<Vec<char>> = Vec::new();
    let mut i: usize = 0;
    while i < v.len()
        invariant
            i <= v@.len(),
            r@.len() == i,
            forall|j: int| 0 <= j < i ==> #[trigger] r@[j]@ == v@[j]@,
        decreases v@.len() - i,
    {
        r.push(chars_of(v[i].as_str()));
        i = i + 1;
    }
    r
}

} // verus!
