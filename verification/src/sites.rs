//! Site labels from browser history: host extraction from URLs, domain
//! labels, visit totals per host and the label -> origin index.
use vstd::prelude::*;
use crate::text::{same_text, chars_of, find, lemma_find_from, lowercase, occurs_at, occurs_at_exec, slice_chars, string_from_chars, to_lowercase, utf8_len, utf8_len_chars};
use crate::voice::{keys_unique, lookup, lemma_lookup_skip, SiteIndex};

verus! {

/// Whether `s` starts with `p`.
pub open spec fn starts_with(s: Seq<char>, p: Seq<char>) -> bool {
    p.len() <= s.len() && s.take(p.len() as int) =~= p
}

pub open spec fn https_prefix() -> Seq<char> {
    seq!['h', 't', 't', 'p', 's', ':', '/', '/']
}

pub open spec fn http_prefix() -> Seq<char> {
    seq!['h', 't', 't', 'p', ':', '/', '/']
}

pub open spec fn www_prefix() -> Seq<char> {
    seq!['w', 'w', 'w', '.']
}

/// The URL without its `https://` or `http://` scheme; `None` for other URLs.
pub open spec fn strip_scheme(u: Seq<char>) -> Option<Seq<char>> {
    if starts_with(u, https_prefix()) {
        Some(u.skip(8))
    } else if starts_with(u, http_prefix()) {
        Some(u.skip(7))
    } else {
        None
    }
}

/// Whether `c` ends the authority part of a URL (`/`, `?` or `#`).
pub open spec fn ends_authority(c: char) -> bool {
    c == '/' || c == '?' || c == '#'
}

/// The prefix of `s` before its first character `c` with `stop(c)`.
pub open spec fn take_until(s: Seq<char>, stop: spec_fn(char) -> bool) -> Seq<char>
    decreases s.len(),
{
    if s.len() == 0 || stop(s[0]) {
        Seq::empty()
    } else {
        seq![s[0]] + take_until(s.drop_first(), stop)
    }
}

/// The part of `s` after its last `c` (all of `s` if it holds no `c`).
pub open spec fn after_last(s: Seq<char>, c: char) -> Seq<char>
    decreases s.len(),
{
    if s.len() == 0 {
        s
    } else if s.last() == c {
        Seq::empty()
    } else {
        after_last(s.drop_last(), c).push(s.last())
    }
}

/// `s` without any number of leading `www.`.
pub open spec fn trim_www(s: Seq<char>) -> Seq<char>
    decreases s.len(),
{
    if s.len() >= 4 && starts_with(s, www_prefix()) {
        trim_www(s.skip(4))
    } else {
        s
    }
}

/// The host part of a URL before lowercasing: after the scheme, before the
/// path/query/fragment, after any `user:pass@`, before any port, without
/// leading `www.`.
pub open spec fn raw_host(u: Seq<char>) -> Option<Seq<char>> {
    match strip_scheme(u) {
        None => None,
        Some(rest) => {
            let auth = take_until(rest, |c: char| ends_authority(c));
            let host = after_last(auth, '@');
            let host = take_until(host, |c: char| c == ':');
            Some(trim_www(host))
        },
    }
}

/// A host is kept when it is not empty and holds a dot.
pub open spec fn host_accepted(h: Seq<char>) -> bool {
    h.len() > 0 && h.contains('.')
}

/// Characterizes `take_until` by the index of the first stopping character.
proof fn lemma_take_until_at(s: Seq<char>, stop: spec_fn(char) -> bool, k: int)
    requires
        0 <= k <= s.len(),
        forall|i: int| 0 <= i < k ==> !stop(#[trigger] s[i]),
        k < s.len() ==> stop(s[k]),
    ensures
        take_until(s, stop) =~= s.take(k),
    decreases k,
{
    if k > 0 {
        assert forall|i: int| 0 <= i < k - 1 implies !stop(#[trigger] s.drop_first()[i]) by {
            assert(s.drop_first()[i] == s[i + 1]);
        }
        lemma_take_until_at(s.drop_first(), stop, k - 1);
        assert(seq![s[0]] + s.drop_first().take(k - 1) =~= s.take(k));
    }
}

/// Characterizes `after_last` by the index just after the last `c`.
proof fn lemma_after_last_at(s: Seq<char>, c: char, j: int)
    requires
        0 <= j <= s.len(),
        forall|i: int| j <= i < s.len() ==> #[trigger] s[i] != c,
        j > 0 ==> s[j - 1] == c,
    ensures
        after_last(s, c) =~= s.skip(j),
    decreases s.len(),
{
    if s.len() > j {
        assert forall|i: int| j <= i < s.drop_last().len() implies #[trigger] s.drop_last()[i] != c by {
            assert(s.drop_last()[i] == s[i]);
        }
        if j > 0 {
            assert(s.drop_last()[j - 1] == s[j - 1]);
        }
        assert(s.last() == s[s.len() - 1]);
        lemma_after_last_at(s.drop_last(), c, j);
        assert(s.drop_last().skip(j).push(s.last()) =~= s.skip(j));
    } else if s.len() > 0 {
        assert(s.last() == s[j - 1]);
    }
}

/// Whether `c` is one of `stops`.
fn char_in(c: char, stops: &Vec<char>) -> (r: bool)
    ensures
        r == stops@.contains(c),
{
    let mut m: usize = 0;
    while m < stops.len()
        invariant
            m <= stops@.len(),
            forall|t: int| 0 <= t < m ==> stops@[t] != c,
        decreases stops@.len() - m,
    {
        if stops[m] == c {
            assert(stops@[m as int] == c);
            return true;
        }
        m = m + 1;
    }
    proof {
        if stops@.contains(c) {
            let t = choose|t: int| 0 <= t < stops@.len() && stops@[t] == c;
            assert(stops@[t] != c);
        }
    }
    false
}

/// The prefix of `v` before the first character that is one of `stops`.
fn take_until_any(v: &Vec<char>, stops: &Vec<char>, stop: Ghost<spec_fn(char) -> bool>) -> (r: Vec<char>)
    requires
        forall|c: char| #[trigger] (stop@)(c) == stops@.contains(c),
    ensures
        r@ =~= take_until(v@, stop@),
{
    let mut k: usize = 0;
    while k < v.len() && !char_in(v[k], stops)
        invariant
            k <= v@.len(),
            forall|c: char| #[trigger] (stop@)(c) == stops@.contains(c),
            forall|i: int| 0 <= i < k ==> !(stop@)(#[trigger] v@[i]),
        decreases v@.len() - k,
    {
        k = k + 1;
    }
    proof {
        if k < v@.len() {
            assert((stop@)(v@[k as int]));
        }
        lemma_take_until_at(v@, stop@, k as int);
    }
    slice_chars(v, 0, k)
}

/// The host of a URL before lowercasing, as [`raw_host`] describes.
pub fn url_host_raw(url: &str) -> (r: Option<String>)
    ensures
        match r {
            Some(h) => raw_host(url@) == Some(h@),
            None => raw_host(url@) is None,
        },
{
    let u = chars_of(url);
    let mut https: Vec<char> = Vec::new();
    https.push('h');
    https.push('t');
    https.push('t');
    https.push('p');
    https.push('s');
    https.push(':');
    https.push('/');
    https.push('/');
    let mut http: Vec<char> = Vec::new();
    http.push('h');
    http.push('t');
    http.push('t');
    http.push('p');
    http.push(':');
    http.push('/');
    http.push('/');
    proof {
        assert(https@ =~= https_prefix());
        assert(http@ =~= http_prefix());
        if occurs_at(u@, https@, 0) {
            assert(u@.subrange(0, 8) =~= u@.take(8));
        }
        if starts_with(u@, https_prefix()) {
            assert(u@.subrange(0, 8) =~= u@.take(8));
        }
        if occurs_at(u@, http@, 0) {
            assert(u@.subrange(0, 7) =~= u@.take(7));
        }
        if starts_with(u@, http_prefix()) {
            assert(u@.subrange(0, 7) =~= u@.take(7));
        }
    }
    let rest = if occurs_at_exec(&u, &https, 0) {
        slice_chars(&u, 8, u.len())
    } else if occurs_at_exec(&u, &http, 0) {
        slice_chars(&u, 7, u.len())
    } else {
        return None;
    };
    let mut seps: Vec<char> = Vec::new();
    seps.push('/');
    seps.push('?');
    seps.push('#');
    let ghost auth_stop = |c: char| ends_authority(c);
    proof {
        assert forall|c: char| #[trigger] auth_stop(c) == seps@.contains(c) by {
            if c == '/' {
                assert(seps@[0] == c);
            }
            if c == '?' {
                assert(seps@[1] == c);
            }
            if c == '#' {
                assert(seps@[2] == c);
            }
        }
    }
    let auth = take_until_any(&rest, &seps, Ghost(auth_stop));
    // after the last '@'
    let mut j = auth.len();
    while j > 0 && auth[j - 1] != '@'
        invariant
            j <= auth@.len(),
            forall|i: int| j <= i < auth@.len() ==> #[trigger] auth@[i] != '@',
        decreases j,
    {
        j = j - 1;
    }
    proof {
        lemma_after_last_at(auth@, '@', j as int);
    }
    let host = slice_chars(&auth, j, auth.len());
    let mut colon: Vec<char> = Vec::new();
    colon.push(':');
    let ghost colon_stop = |c: char| c == ':';
    proof {
        assert forall|c: char| #[trigger] colon_stop(c) == colon@.contains(c) by {
            if c == ':' {
                assert(colon@[0] == c);
            }
        }
    }
    let host = take_until_any(&host, &colon, Ghost(colon_stop));
    // drop leading "www." repeatedly
    let mut www: Vec<char> = Vec::new();
    www.push('w');
    www.push('w');
    www.push('w');
    www.push('.');
    assert(www@ =~= www_prefix());
    let mut p: usize = 0;
    proof {
        assert(host@.skip(0) =~= host@);
    }
    while 4 <= host.len() - p && occurs_at_exec(&host, &www, p)
        invariant
            p <= host@.len(),
            www@ == www_prefix(),
            trim_www(host@) == trim_www(host@.skip(p as int)),
        decreases host@.len() - p,
    {
        proof {
            let s = host@.skip(p as int);
            assert(s.take(4) =~= host@.subrange(p as int, p + 4));
            assert(s.skip(4) =~= host@.skip(p + 4));
        }
        p = p + 4;
    }
    proof {
        let s = host@.skip(p as int);
        if s.len() >= 4 && starts_with(s, www_prefix()) {
            assert(s.take(4) =~= host@.subrange(p as int, p + 4));
        }
    }
    let trimmed = slice_chars(&host, p, host.len());
    proof {
        assert(trimmed@ =~= host@.skip(p as int));
    }
    Some(string_from_chars(&trimmed))
}

/// Whether `h` is not empty and holds a dot.
pub fn accept_host(h: &str) -> (r: bool)
    ensures
        r == host_accepted(h@),
{
    let v = chars_of(h);
    let mut i: usize = 0;
    while i < v.len()
        invariant
            i <= v@.len(),
            v@ == h@,
            forall|t: int| 0 <= t < i ==> v@[t] != '.',
        decreases v@.len() - i,
    {
        if v[i] == '.' {
            assert(v@[i as int] == '.');
            assert(v@.contains('.'));
            assert(h@.len() > 0);
            return true;
        }
        i = i + 1;
    }
    proof {
        if v@.contains('.') {
            let t = choose|t: int| 0 <= t < v@.len() && v@[t] == '.';
            assert(v@[t] != '.');
        }
    }
    false
}

/// The host of an http(s) URL, lowercased ("https://payme.uz/path" ->
/// "payme.uz"); `None` for other schemes, empty hosts and hosts without a dot.
pub fn url_host(url: &str) -> (r: Option<String>)
    ensures
        match r {
            Some(h) => raw_host(url@) is Some && h@ == lowercase(raw_host(url@)->0) && host_accepted(
                h@,
            ),
            None => raw_host(url@) is None || !host_accepted(lowercase(raw_host(url@)->0)),
        },
{
    let raw = url_host_raw(url)?;
    let lower = to_lowercase(raw.as_str());
    if accept_host(lower.as_str()) {
        Some(lower)
    } else {
        None
    }
}

/// Index of the last `.` in `s`.
pub open spec fn last_dot(s: Seq<char>) -> Option<int>
    decreases s.len(),
{
    if s.len() == 0 {
        None
    } else if s.last() == '.' {
        Some(s.len() - 1)
    } else {
        last_dot(s.drop_last())
    }
}

/// The domain label of a host: its second-to-last dot-separated segment
/// ("payme.uz" -> "payme", "mail.google.com" -> "google"); a host without a
/// dot is its own label.
pub open spec fn label_spec(h: Seq<char>) -> Seq<char> {
    match last_dot(h) {
        None => h,
        Some(i) => {
            let pre = h.take(i);
            match last_dot(pre) {
                None => pre,
                Some(j) => pre.skip(j + 1),
            }
        },
    }
}

proof fn lemma_last_dot(s: Seq<char>)
    ensures
        last_dot(s) matches Some(i) ==> 0 <= i < s.len() && s[i] == '.' && forall|t: int|
            i < t < s.len() ==> s[t] != '.',
        last_dot(s) is None ==> forall|t: int| 0 <= t < s.len() ==> s[t] != '.',
    decreases s.len(),
{
    if s.len() > 0 && s.last() != '.' {
        lemma_last_dot(s.drop_last());
        assert forall|t: int| 0 <= t < s.len() - 1 implies s[t] == s.drop_last()[t] by {}
    }
}

/// Index of the last `.` in `v[..end]`.
fn last_dot_exec(v: &Vec<char>, end: usize) -> (r: Option<usize>)
    requires
        end <= v@.len(),
    ensures
        match r {
            Some(i) => last_dot(v@.take(end as int)) == Some(i as int),
            None => last_dot(v@.take(end as int)) is None,
        },
{
    let mut k = end;
    while k > 0
        invariant
            k <= end <= v@.len(),
            last_dot(v@.take(end as int)) == last_dot(v@.take(k as int)),
        decreases k,
    {
        proof {
            assert(v@.take(k as int).drop_last() =~= v@.take(k - 1));
            assert(v@.take(k as int).last() == v@[k - 1]);
        }
        if v[k - 1] == '.' {
            return Some(k - 1);
        }
        k = k - 1;
    }
    None
}

/// Domain label (second-level name) used to match spoken site names.
pub fn domain_label(host: &str) -> (r: String)
    ensures
        r@ == label_spec(host@),
{
    let v = chars_of(host);
    proof {
        assert(v@.take(v@.len() as int) =~= v@);
    }
    match last_dot_exec(&v, v.len()) {
        None => host.to_owned(),
        Some(i) => {
            proof {
                lemma_last_dot(v@.take(v@.len() as int));
                assert(v@.take(i as int).take(i as int) =~= v@.take(i as int));
            }
            match last_dot_exec(&v, i) {
                None => {
                    let pre = slice_chars(&v, 0, i);
                    string_from_chars(&pre)
                },
                Some(j) => {
                    proof {
                        lemma_last_dot(v@.take(i as int));
                    }
                    let seg = slice_chars(&v, j + 1, i);
                    proof {
                        assert(seg@ =~= v@.take(i as int).skip(j + 1));
                    }
                    string_from_chars(&seg)
                },
            }
        },
    }
}

/// The label of a host that holds a dot holds no dot itself.
pub proof fn lemma_label_has_no_dot(h: Seq<char>)
    requires
        h.contains('.'),
    ensures
        !label_spec(h).contains('.'),
{
    lemma_last_dot(h);
    if last_dot(h) is None {
        let t = choose|t: int| 0 <= t < h.len() && h[t] == '.';
        assert(h[t] != '.');
    }
    let i = last_dot(h)->0;
    let pre = h.take(i);
    lemma_last_dot(pre);
    if label_spec(h).contains('.') {
        let l = label_spec(h);
        let t = choose|t: int| 0 <= t < l.len() && l[t] == '.';
        match last_dot(pre) {
            None => {
                assert(pre[t] != '.');
            },
            Some(j) => {
                assert(l[t] == pre[t + j + 1]);
            },
        }
    }
}


/// The host an http(s) URL counts for, if any (as [`url_host`] returns it).
pub open spec fn host_of(url: Seq<char>) -> Option<Seq<char>> {
    match raw_host(url) {
        None => None,
        Some(raw) => if host_accepted(lowercase(raw)) {
            Some(lowercase(raw))
        } else {
            None
        },
    }
}

/// Index of the first entry of `t` at or after `i` whose key is `k`.
pub open spec fn key_index_from<V>(t: Seq<(Seq<char>, V)>, k: Seq<char>, i: int) -> Option<int>
    decreases t.len() - i,
{
    if i < 0 || i >= t.len() {
        None
    } else if t[i].0 == k {
        Some(i)
    } else {
        key_index_from(t, k, i + 1)
    }
}

/// Index of the first entry of `t` whose key is `k`.
pub open spec fn key_index<V>(t: Seq<(Seq<char>, V)>, k: Seq<char>) -> Option<int> {
    key_index_from(t, k, 0)
}

/// Visit totals per host, in order of first appearance.
pub struct HostVisits {
    entries: Vec<(String, i64)>,
}

impl View for HostVisits {
    type V = Seq<(Seq<char>, i64)>;

    closed spec fn view(&self) -> Seq<(Seq<char>, i64)> {
        self.entries@.map_values(|e: (String, i64)| (e.0@, e.1))
    }
}

impl HostVisits {
    /// No hosts yet.
    pub fn new() -> (r: HostVisits)
        ensures
            r@.len() == 0,
    {
        HostVisits { entries: Vec::new() }
    }

    /// Number of hosts.
    pub fn len(&self) -> (r: usize)
        ensures
            r == self@.len(),
    {
        self.entries.len()
    }

    /// Host and total at position `i`.
    pub fn entry(&self, i: usize) -> (r: (String, i64))
        requires
            i < self@.len(),
        ensures
            r.0@ == self@[i as int].0,
            r.1 == self@[i as int].1,
    {
        (self.entries[i].0.clone(), self.entries[i].1)
    }

    /// Adds `visits` visits of `url` to the total of its host. URLs without
    /// a host (see [`url_host`]) change nothing. Returns `false`, changing
    /// nothing, when the total would overflow an `i64`.
    pub fn add_visit(&mut self, url: &str, visits: i64) -> (ok: bool)
        ensures
            match host_of(url@) {
                None => ok && final(self)@ == old(self)@,
                Some(h) => match key_index(old(self)@, h) {
                    None => ok && final(self)@ == old(self)@.push((h, visits)),
                    Some(i) => {
                        let total = old(self)@[i].1 + visits;
                        if i64::MIN <= total <= i64::MAX {
                            ok && final(self)@ == old(self)@.update(i, (h, total as i64))
                        } else {
                            !ok && final(self)@ == old(self)@
                        }
                    },
                },
            },
    {
        let host = match url_host(url) {
            Some(h) => h,
            None => {
                return true;
            },
        };
        let ghost hv = host@;
        let ghost tv = self@;
        let mut i: usize = 0;
        while i < self.entries.len()
            invariant
                i <= self.entries@.len(),
                tv == self@,
                tv == old(self)@,
                host_of(url@) == Some(hv),
                hv == host@,
                key_index(tv, hv) == key_index_from(tv, hv, i as int),
            decreases self.entries@.len() - i,
        {
            proof {
                assert(tv[i as int].0 == self.entries@[i as int].0@);
                assert(tv[i as int].1 == self.entries@[i as int].1);
            }
            if same_text(self.entries[i].0.as_str(), host.as_str()) {
                proof {
                    assert(key_index_from(tv, hv, i as int) == Some(i as int));
                }
                match self.entries[i].1.checked_add(visits) {
                    Some(total) => {
                        let name = self.entries[i].0.clone();
                        self.entries.set(i, (name, total));
                        proof {
                            assert(self@ =~= tv.update(i as int, (hv, total)));
                        }
                        return true;
                    },
                    None => {
                        return false;
                    },
                }
            }
            i = i + 1;
        }
        self.entries.push((host, visits));
        proof {
            assert(key_index_from(tv, hv, i as int) is None);
            assert(self@ =~= tv.push((hv, visits)));
        }
        true
    }
}

/// Whether host `j` ranks before host `i`: more visits, or as many and earlier.
pub open spec fn beats(hs: Seq<(Seq<char>, i64)>, j: int, i: int) -> bool {
    hs[j].1 > hs[i].1 || (hs[j].1 == hs[i].1 && j < i)
}

/// Number of hosts among the first `n` that rank before host `i`.
pub open spec fn rank_upto(hs: Seq<(Seq<char>, i64)>, i: int, n: int) -> nat
    decreases n,
{
    if n <= 0 {
        0
    } else {
        rank_upto(hs, i, n - 1) + if beats(hs, n - 1, i) {
            1nat
        } else {
            0nat
        }
    }
}

/// Position of host `i` when hosts are ordered by visits, most first
/// (a stable sort, so equal totals keep their order).
pub open spec fn rank(hs: Seq<(Seq<char>, i64)>, i: int) -> nat {
    rank_upto(hs, i, hs.len() as int)
}

/// How many of the most visited hosts are considered.
pub open spec fn top_hosts() -> nat {
    300
}

/// Whether host `i` gives its label to the site index: it is among the 300
/// most visited and its label is at least two bytes long.
pub open spec fn eligible(hs: Seq<(Seq<char>, i64)>, i: int) -> bool {
    0 <= i < hs.len() && rank(hs, i) < top_hosts() && utf8_len(label_spec(hs[i].0)) >= 2
}

/// The origin URL opened for a host.
pub open spec fn origin(h: Seq<char>) -> Seq<char> {
    https_prefix() + h
}

/// Whether host `i` is the one its label stands for: eligible, and ranked
/// before every other eligible host with the same label.
pub open spec fn label_winner(hs: Seq<(Seq<char>, i64)>, i: int) -> bool {
    &&& eligible(hs, i)
    &&& forall|j: int|
        #![trigger eligible(hs, j)]
        eligible(hs, j) && j != i && label_spec(hs[j].0) == label_spec(hs[i].0) ==> beats(hs, i, j)
}

/// Rank of host `i`.
fn rank_exec(hosts: &HostVisits, i: usize) -> (r: usize)
    requires
        i < hosts@.len(),
    ensures
        r == rank(hosts@, i as int),
{
    let ghost hs = hosts@;
    let (_, vi) = hosts.entry(i);
    let n = hosts.len();
    let mut count: usize = 0;
    let mut j: usize = 0;
    while j < n
        invariant
            j <= n,
            n == hs.len(),
            hs == hosts@,
            vi == hs[i as int].1,
            i < n,
            count == rank_upto(hs, i as int, j as int),
            count <= j,
        decreases n - j,
    {
        let (_, vj) = hosts.entry(j);
        if vj > vi || (vj == vi && j < i) {
            count = count + 1;
        }
        j = j + 1;
    }
    count
}

/// The origin URL `https://<host>`.
fn origin_exec(host: &Vec<char>) -> (r: String)
    ensures
        r@ == origin(host@),
{
    let mut v: Vec<char> = Vec::new();
    v.push('h');
    v.push('t');
    v.push('t');
    v.push('p');
    v.push('s');
    v.push(':');
    v.push('/');
    v.push('/');
    assert(v@ =~= https_prefix());
    crate::text::append_chars(&mut v, host);
    string_from_chars(&v)
}

impl SiteIndex {
    /// The site index of visit totals: hosts ranked by visits (most first),
    /// the first 300 kept; each label of at least two bytes maps to the origin
    /// of its best-ranked host. Labels occur once, and every entry is the
    /// label and origin of such a best-ranked host.
    pub fn from_host_visits(hosts: &HostVisits) -> (r: SiteIndex)
        ensures
            forall|l: Seq<char>|
                #![trigger lookup(r@, l)]
                lookup(r@, l) is Some <==> exists|i: int|
                    #![trigger label_spec(hosts@[i].0)]
                    eligible(hosts@, i) && label_spec(hosts@[i].0) == l,
            forall|i: int|
                #![trigger label_spec(hosts@[i].0)]
                label_winner(hosts@, i) ==> lookup(r@, label_spec(hosts@[i].0)) == Some(
                    origin(hosts@[i].0),
                ),
            keys_unique(r@),
            forall|u: int|
                0 <= u < r@.len() ==> exists|i: int|
                    #![trigger label_winner(hosts@, i)]
                    label_winner(hosts@, i) && #[trigger] r@[u] == (
                        label_spec(hosts@[i].0),
                        origin(hosts@[i].0),
                    ),
    {
        let ghost hs = hosts@;
        let n = hosts.len();
        // chosen: (label, index of its best host so far)
        let mut chosen: Vec<(Vec<char>, usize)> = Vec::new();
        let mut i: usize = 0;
        while i < n
            invariant
                i <= n,
                n == hs.len(),
                hs == hosts@,
                forall|t: int|
                    0 <= t < chosen@.len() ==> {
                        let w = (#[trigger] chosen@[t]).1 as int;
                        &&& w < i
                        &&& eligible(hs, w)
                        &&& label_spec(hs[w].0) == chosen@[t].0@
                        &&& forall|j: int|
                            #![trigger eligible(hs, j)]
                            0 <= j < i && eligible(hs, j) && j != w && label_spec(hs[j].0)
                                == chosen@[t].0@ ==> beats(hs, w, j)
                    },
                forall|t: int, u: int|
                    0 <= t < u < chosen@.len() ==> (#[trigger] chosen@[t]).0@ != (
                    #[trigger] chosen@[u]).0@,
                forall|j: int|
                    #![trigger eligible(hs, j)]
                    0 <= j < i && eligible(hs, j) ==> exists|t: int|
                        0 <= t < chosen@.len() && (#[trigger] chosen@[t]).0@ == label_spec(
                            hs[j].0,
                        ),
            decreases n - i,
        {
            let (host, visits) = hosts.entry(i);
            let rk = rank_exec(hosts, i);
            if rk < 300 {
                let label = domain_label(host.as_str());
                let lv = chars_of(label.as_str());
                if utf8_len_chars(&lv) >= 2 {
                    // find the label among the chosen
                    let mut t: usize = 0;
                    while t < chosen.len() && !crate::text::chars_eq(&chosen[t].0, &lv)
                        invariant
                            t <= chosen@.len(),
                            forall|u: int| 0 <= u < t ==> (#[trigger] chosen@[u]).0@ != lv@,
                        decreases chosen@.len() - t,
                    {
                        t = t + 1;
                    }
                    if t == chosen.len() {
                        let ghost old_chosen = chosen@;
                        chosen.push((lv, i));
                        proof {
                            assert forall|tt: int| 0 <= tt < chosen@.len() implies {
                                let w = (#[trigger] chosen@[tt]).1 as int;
                                &&& w < i + 1
                                &&& eligible(hs, w)
                                &&& label_spec(hs[w].0) == chosen@[tt].0@
                                &&& forall|j: int|
                                    #![trigger eligible(hs, j)]
                                    0 <= j < i + 1 && eligible(hs, j) && j != w && label_spec(
                                        hs[j].0,
                                    ) == chosen@[tt].0@ ==> beats(hs, w, j)
                            } by {
                                if tt < old_chosen.len() {
                                    assert(chosen@[tt] == old_chosen[tt]);
                                } else {
                                    assert forall|j: int|
                                        #![trigger eligible(hs, j)]
                                        0 <= j < i + 1 && eligible(hs, j) && j != i && label_spec(
                                            hs[j].0,
                                        ) == lv@ implies beats(hs, i as int, j) by {
                                        let tj = choose|tj: int|
                                            0 <= tj < old_chosen.len() && (
                                            #[trigger] old_chosen[tj]).0@ == label_spec(hs[j].0);
                                        assert(old_chosen[tj].0@ != lv@);
                                    }
                                }
                            }
                            assert forall|j: int|
                                #![trigger eligible(hs, j)]
                                0 <= j < i + 1 && eligible(hs, j) implies exists|tt: int|
                                    0 <= tt < chosen@.len() && (#[trigger] chosen@[tt]).0@
                                        == label_spec(hs[j].0) by {
                                if j < i {
                                    let tj = choose|tj: int|
                                        0 <= tj < old_chosen.len() && (
                                        #[trigger] old_chosen[tj]).0@ == label_spec(hs[j].0);
                                    assert(chosen@[tj] == old_chosen[tj]);
                                } else {
                                    assert(chosen@[old_chosen.len() as int].0@ == label_spec(
                                        hs[j].0,
                                    ));
                                }
                            }
                        }
                    } else {
                        let w = chosen[t].1;
                        let (_, wv) = hosts.entry(w);
                        if visits > wv {
                            let ghost old_chosen = chosen@;
                            let entry_label = crate::text::slice_chars(&lv, 0, lv.len());
                            chosen.set(t, (entry_label, i));
                            proof {
                                assert forall|tt: int| 0 <= tt < chosen@.len() implies {
                                    let ww = (#[trigger] chosen@[tt]).1 as int;
                                    &&& ww < i + 1
                                    &&& eligible(hs, ww)
                                    &&& label_spec(hs[ww].0) == chosen@[tt].0@
                                    &&& forall|j: int|
                                        #![trigger eligible(hs, j)]
                                        0 <= j < i + 1 && eligible(hs, j) && j != ww
                                            && label_spec(hs[j].0) == chosen@[tt].0@ ==> beats(
                                            hs,
                                            ww,
                                            j,
                                        )
                                } by {
                                    if tt != t {
                                        assert(chosen@[tt] == old_chosen[tt]);
                                        assert forall|j: int|
                                            #![trigger eligible(hs, j)]
                                            0 <= j < i + 1 && eligible(hs, j) && j
                                                != chosen@[tt].1 && label_spec(hs[j].0)
                                                == chosen@[tt].0@ implies beats(
                                            hs,
                                            chosen@[tt].1 as int,
                                            j,
                                        ) by {
                                            if j == i {
                                                assert(old_chosen[tt].0@ != old_chosen[t as int].0@);
                                            }
                                        }
                                    } else {
                                        assert forall|j: int|
                                            #![trigger eligible(hs, j)]
                                            0 <= j < i + 1 && eligible(hs, j) && j != i
                                                && label_spec(hs[j].0) == lv@ implies beats(
                                            hs,
                                            i as int,
                                            j,
                                        ) by {
                                            if j != w {
                                                assert(beats(hs, w as int, j));
                                            }
                                        }
                                    }
                                }
                                assert forall|tt: int, u: int|
                                    0 <= tt < u < chosen@.len() implies (
                                    #[trigger] chosen@[tt]).0@ != (#[trigger] chosen@[u]).0@ by {
                                    assert(chosen@[tt].0@ == old_chosen[tt].0@);
                                    assert(chosen@[u].0@ == old_chosen[u].0@);
                                }
                                assert forall|j: int|
                                    #![trigger eligible(hs, j)]
                                    0 <= j < i + 1 && eligible(hs, j) implies exists|tt: int|
                                        0 <= tt < chosen@.len() && (#[trigger] chosen@[tt]).0@
                                            == label_spec(hs[j].0) by {
                                    if j < i {
                                        let tj = choose|tj: int|
                                            0 <= tj < old_chosen.len() && (
                                            #[trigger] old_chosen[tj]).0@ == label_spec(hs[j].0);
                                        assert(chosen@[tj].0@ == old_chosen[tj].0@);
                                    } else {
                                        assert(chosen@[t as int].0@ == label_spec(hs[j].0));
                                    }
                                }
                            }
                        } else {
                            proof {
                                assert forall|tt: int| 0 <= tt < chosen@.len() implies {
                                    let ww = (#[trigger] chosen@[tt]).1 as int;
                                    forall|j: int|
                                        #![trigger eligible(hs, j)]
                                        0 <= j < i + 1 && eligible(hs, j) && j != ww
                                            && label_spec(hs[j].0) == chosen@[tt].0@ ==> beats(
                                            hs,
                                            ww,
                                            j,
                                        )
                                } by {
                                    assert forall|j: int|
                                        #![trigger eligible(hs, j)]
                                        0 <= j < i + 1 && eligible(hs, j) && j != chosen@[tt].1
                                            && label_spec(hs[j].0) == chosen@[tt].0@ implies beats(
                                        hs,
                                        chosen@[tt].1 as int,
                                        j,
                                    ) by {
                                        if j == i && tt != t {
                                            assert(chosen@[tt].0@ != chosen@[t as int].0@);
                                        }
                                    }
                                }
                                assert forall|j: int|
                                    #![trigger eligible(hs, j)]
                                    0 <= j < i + 1 && eligible(hs, j) implies exists|tt: int|
                                        0 <= tt < chosen@.len() && (#[trigger] chosen@[tt]).0@
                                            == label_spec(hs[j].0) by {
                                    if j == i {
                                        assert(chosen@[t as int].0@ == label_spec(hs[j].0));
                                    }
                                }
                            }
                        }
                    }
                }
            }
            i = i + 1;
        }
        // build the index from the chosen labels
        let mut r = SiteIndex::new();
        let mut t: usize = 0;
        while t < chosen.len()
            invariant
                t <= chosen@.len(),
                hs == hosts@,
                r@.len() == t,
                forall|u: int|
                    0 <= u < t ==> (#[trigger] r@[u]).0 == chosen@[u].0@ && r@[u].1 == origin(
                        hs[chosen@[u].1 as int].0,
                    ),
                forall|tt: int, u: int|
                    0 <= tt < u < chosen@.len() ==> (#[trigger] chosen@[tt]).0@ != (
                    #[trigger] chosen@[u]).0@,
                forall|tt: int|
                    0 <= tt < chosen@.len() ==> ((#[trigger] chosen@[tt]).1 as int) < hs.len(),
            decreases chosen@.len() - t,
        {
            let label = string_from_chars(&chosen[t].0);
            let (host, _) = hosts.entry(chosen[t].1);
            let hv = chars_of(host.as_str());
            let url = origin_exec(&hv);
            let ghost old_r = r@;
            proof {
                lemma_lookup_absent(old_r, label@, chosen@, t as int);
            }
            let added = r.insert_if_absent(label, url);
            t = t + 1;
        }
        proof {
            assert forall|l: Seq<char>|
                #![trigger lookup(r@, l)]
                lookup(r@, l) is Some <==> exists|i: int|
                    #![trigger label_spec(hosts@[i].0)]
                    eligible(hosts@, i) && label_spec(hosts@[i].0) == l by {
                lemma_lookup_index(r@, l);
                if lookup(r@, l) is Some {
                    let u = choose|u: int| 0 <= u < r@.len() && r@[u].0 == l;
                    let w = chosen@[u].1 as int;
                    assert(eligible(hs, w) && label_spec(hs[w].0) == l);
                }
                if exists|i: int| #![trigger label_spec(hosts@[i].0)] eligible(hosts@, i) && label_spec(hosts@[i].0) == l {
                    let i = choose|i: int| #![trigger label_spec(hosts@[i].0)] eligible(hosts@, i) && label_spec(hosts@[i].0) == l;
                    assert(eligible(hs, i));
                    let tj = choose|tj: int| 0 <= tj < chosen@.len() && (#[trigger] chosen@[tj]).0@ == label_spec(hs[i].0);
                    assert(r@[tj].0 == l);
                }
            }
            assert forall|i: int|
                #![trigger label_spec(hosts@[i].0)]
                label_winner(hosts@, i) implies lookup(r@, label_spec(hosts@[i].0)) == Some(
                    origin(hosts@[i].0),
                ) by {
                let l = label_spec(hs[i].0);
                assert(eligible(hs, i));
                let tj = choose|tj: int| 0 <= tj < chosen@.len() && (#[trigger] chosen@[tj]).0@ == label_spec(hs[i].0);
                let w = chosen@[tj].1 as int;
                if w != i {
                    assert(beats(hs, w, i));
                    assert(beats(hs, i, w));
                }
                lemma_lookup_at(r@, l, tj);
            }
            assert forall|u: int| 0 <= u < r@.len() implies exists|i: int|
                #![trigger label_winner(hosts@, i)]
                label_winner(hosts@, i) && #[trigger] r@[u] == (
                    label_spec(hosts@[i].0),
                    origin(hosts@[i].0),
                ) by {
                let w = chosen@[u].1 as int;
                assert(eligible(hs, w));
                assert(label_winner(hs, w));
            }
            assert forall|a: int, b: int| 0 <= a < b < r@.len() implies (#[trigger] r@[a]).0 != (
            #[trigger] r@[b]).0 by {
                assert(chosen@[a].0@ != chosen@[b].0@);
            }
        }
        r
    }
}

/// With distinct keys, `lookup` finds the entry at `u` for its key.
proof fn lemma_lookup_at<V>(t: Seq<(Seq<char>, V)>, k: Seq<char>, u: int)
    requires
        0 <= u < t.len(),
        t[u].0 == k,
        forall|a: int, b: int| 0 <= a < b < t.len() ==> (#[trigger] t[a]).0 != (#[trigger] t[b]).0,
    ensures
        lookup(t, k) == Some(t[u].1),
    decreases t.len(),
{
    if u > 0 {
        assert(t[0].0 != t[u].0);
        assert forall|a: int, b: int| 0 <= a < b < t.drop_first().len() implies (
        #[trigger] t.drop_first()[a]).0 != (#[trigger] t.drop_first()[b]).0 by {
            assert(t.drop_first()[a] == t[a + 1]);
            assert(t.drop_first()[b] == t[b + 1]);
        }
        lemma_lookup_at(t.drop_first(), k, u - 1);
    }
}

/// `lookup` finds something exactly when some entry has the key.
proof fn lemma_lookup_index<V>(t: Seq<(Seq<char>, V)>, k: Seq<char>)
    ensures
        lookup(t, k) is Some <==> exists|u: int| 0 <= u < t.len() && t[u].0 == k,
    decreases t.len(),
{
    if t.len() > 0 {
        lemma_lookup_index(t.drop_first(), k);
        if exists|u: int| 0 <= u < t.drop_first().len() && t.drop_first()[u].0 == k {
            let u = choose|u: int| 0 <= u < t.drop_first().len() && t.drop_first()[u].0 == k;
            assert(t[u + 1].0 == k);
        }
        if exists|u: int| 0 <= u < t.len() && t[u].0 == k {
            let u = choose|u: int| 0 <= u < t.len() && t[u].0 == k;
            if u > 0 {
                assert(t.drop_first()[u - 1].0 == k);
            }
        }
    }
}

/// A label not yet among the first `t` chosen ones is absent from the index built so far.
proof fn lemma_lookup_absent(
    r: Seq<(Seq<char>, Seq<char>)>,
    l: Seq<char>,
    chosen: Seq<(Vec<char>, usize)>,
    t: int,
)
    requires
        0 <= t < chosen.len(),
        r.len() == t,
        l == chosen[t].0@,
        forall|u: int| 0 <= u < t ==> (#[trigger] r[u]).0 == chosen[u].0@,
        forall|a: int, b: int|
            0 <= a < b < chosen.len() ==> (#[trigger] chosen[a]).0@ != (#[trigger] chosen[b]).0@,
    ensures
        lookup(r, l) is None,
{
    lemma_lookup_index(r, l);
    if exists|u: int| 0 <= u < r.len() && r[u].0 == l {
        let u = choose|u: int| 0 <= u < r.len() && r[u].0 == l;
        assert(chosen[u].0@ != chosen[t].0@);
    }
}

/// A host without a leading `www.` is kept whole: for a host with none of
/// `/ ? # @ :`, the host of `https://` + host is that host (lowercased, when
/// accepted). Only whole leading `www.` labels are removed.
pub proof fn lemma_plain_host_kept(h: Seq<char>)
    requires
        forall|i: int|
            0 <= i < h.len() ==> !ends_authority(#[trigger] h[i]) && h[i] != '@' && h[i] != ':',
        !starts_with(h, www_prefix()),
    ensures
        raw_host(https_prefix() + h) == Some(h),
        raw_host(https_prefix() + www_prefix() + h) == Some(h),
        host_of(https_prefix() + h) == (if host_accepted(lowercase(h)) {
            Some(lowercase(h))
        } else {
            None
        }),
{
    lemma_host_parts(h);
    let w = www_prefix() + h;
    assert forall|i: int| 0 <= i < w.len() implies !ends_authority(#[trigger] w[i]) && w[i]
        != '@' && w[i] != ':' by {
        if i >= 4 {
            assert(w[i] == h[i - 4]);
        }
    }
    lemma_host_parts(w);
    assert(w.skip(4) =~= h);
    assert(w.take(4) =~= www_prefix());
    assert((https_prefix() + www_prefix() + h) =~= https_prefix() + w);
}

/// The authority parts of `https://` + `h` are all of `h` when it holds none
/// of `/ ? # @ :`.
proof fn lemma_host_parts(h: Seq<char>)
    requires
        forall|i: int|
            0 <= i < h.len() ==> !ends_authority(#[trigger] h[i]) && h[i] != '@' && h[i] != ':',
    ensures
        strip_scheme(https_prefix() + h) == Some(h),
        take_until(h, |c: char| ends_authority(c)) == h,
        after_last(h, '@') == h,
        take_until(h, |c: char| c == ':') == h,
        raw_host(https_prefix() + h) == Some(trim_www(h)),
{
    let u = https_prefix() + h;
    assert(u.take(8) =~= https_prefix());
    assert(u.skip(8) =~= h);
    lemma_take_until_at(h, |c: char| ends_authority(c), h.len() as int);
    assert(h.take(h.len() as int) =~= h);
    lemma_after_last_at(h, '@', 0);
    assert(h.skip(0) =~= h);
    lemma_take_until_at(h, |c: char| c == ':', h.len() as int);
}

} // verus!
