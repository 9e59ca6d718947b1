//! The voice-command grammar: a phrase is acted on only when it holds the
//! wake word; it then names an application to start, or (with the browser
//! word) a site to open.
use vstd::prelude::*;
use crate::levenshtein::{lev, levenshtein_chars};
use crate::matching::{best_index, best_match, strings_view};
use crate::text::{
    after_first_word, chars_eq, chars_of, chars_of_all, find, find_exec, lemma_find_from,
    lemma_word_step, next_word, occurs_at, same_text, slice_chars, string_from_chars,
    take_word, trim, trim_chars, trim_start, words,
};
use crate::translit::{translit, translit_spec};
use crate::urlenc::{fill_search_template, replace_all, urlencode_bytes};

verus! {

/// How an application is started.
#[derive(Debug)]
pub enum Launch {
    /// A Start Menu shortcut (`.lnk`), opened through the shell.
    Shortcut(String),
    /// An executable file, started directly.
    Exe(String),
}

impl Launch {
    /// An equal copy of this launch description.
    pub fn duplicate(&self) -> (r: Launch)
        ensures
            r == *self,
    {
        match self {
            Launch::Shortcut(p) => Launch::Shortcut(p.clone()),
            Launch::Exe(p) => Launch::Exe(p.clone()),
        }
    }
}

/// What a recognized command asks for.
#[derive(Debug)]
pub enum Target {
    /// Start the application with this index name.
    App(String, Launch),
    /// Open this URL in the default browser.
    Url(String),
}

/// The model of a [`Target`].
pub enum TargetView {
    App(Seq<char>, Launch),
    Url(Seq<char>),
}

impl View for Target {
    type V = TargetView;

    open spec fn view(&self) -> TargetView {
        match self {
            Target::App(n, l) => TargetView::App(n@, *l),
            Target::Url(u) => TargetView::Url(u@),
        }
    }
}

/// The views of a table of string pairs.
pub open spec fn pairs_view(t: Seq<(String, String)>) -> Seq<(Seq<char>, Seq<char>)> {
    t.map_values(|e: (String, String)| (e.0@, e.1@))
}

/// The value of the first entry of `t` whose key is `k`.
pub open spec fn lookup<V>(t: Seq<(Seq<char>, V)>, k: Seq<char>) -> Option<V>
    decreases t.len(),
{
    if t.len() == 0 {
        None
    } else if t[0].0 == k {
        Some(t[0].1)
    } else {
        lookup(t.drop_first(), k)
    }
}

/// No key occurs twice in a table.
pub open spec fn keys_unique<V>(t: Seq<(Seq<char>, V)>) -> bool {
    forall|a: int, b: int| 0 <= a < b < t.len() ==> (#[trigger] t[a]).0 != (#[trigger] t[b]).0
}

/// A key that `lookup` does not find occurs nowhere in the table.
pub proof fn lemma_lookup_none<V>(t: Seq<(Seq<char>, V)>, k: Seq<char>, i: int)
    requires
        lookup(t, k) is None,
        0 <= i < t.len(),
    ensures
        t[i].0 != k,
    decreases t.len(),
{
    if i > 0 {
        assert(t.drop_first()[i - 1] == t[i]);
        lemma_lookup_none(t.drop_first(), k, i - 1);
    }
}

/// Appending a key that is not yet present keeps the keys distinct exactly
/// when they were distinct before.
pub proof fn lemma_push_absent_unique<V>(t: Seq<(Seq<char>, V)>, k: Seq<char>, v: V)
    requires
        lookup(t, k) is None,
    ensures
        keys_unique(t.push((k, v))) == keys_unique(t),
{
    let t2 = t.push((k, v));
    if keys_unique(t) {
        assert forall|a: int, b: int| 0 <= a < b < t2.len() implies (#[trigger] t2[a]).0 != (
        #[trigger] t2[b]).0 by {
            if b < t.len() {
                assert(t2[a] == t[a] && t2[b] == t[b]);
            } else {
                assert(t2[a] == t[a]);
                lemma_lookup_none(t, k, a);
            }
        }
    }
    if keys_unique(t2) {
        assert forall|a: int, b: int| 0 <= a < b < t.len() implies (#[trigger] t[a]).0 != (
        #[trigger] t[b]).0 by {
            assert(t2[a] == t[a] && t2[b] == t[b]);
        }
    }
}

/// The view of an optional string.
pub open spec fn opt_view(o: Option<String>) -> Option<Seq<char>> {
    match o {
        Some(s) => Some(s@),
        None => None,
    }
}

/// `lookup` reads the first matching entry at or after position `i`.
pub proof fn lemma_lookup_skip<V>(t: Seq<(Seq<char>, V)>, k: Seq<char>, i: int)
    requires
        0 <= i < t.len(),
    ensures
        lookup(t.skip(i), k) == if t[i].0 == k {
            Some(t[i].1)
        } else {
            lookup(t.skip(i + 1), k)
        },
{
    assert(t.skip(i)[0] == t[i]);
    assert(t.skip(i).drop_first() =~= t.skip(i + 1));
}

/// The value stored under key `k` in a table of string pairs.
pub fn lookup_pairs(t: &Vec<(String, String)>, k: &str) -> (r: Option<String>)
    ensures
        opt_view(r) == lookup(pairs_view(t@), k@),
{
    let ghost tv = pairs_view(t@);
    let mut i: usize = 0;
    proof {
        assert(tv.skip(0) =~= tv);
    }
    while i < t.len()
        invariant
            i <= t@.len(),
            tv == pairs_view(t@),
            lookup(tv, k@) == lookup(tv.skip(i as int), k@),
        decreases t@.len() - i,
    {
        proof {
            lemma_lookup_skip(tv, k@, i as int);
        }
        if same_text(t[i].0.as_str(), k) {
            return Some(t[i].1.clone());
        }
        i = i + 1;
    }
    None
}

/// Voice settings: the recognizer model, the wake word, the trigger verbs,
/// the browser word, spoken aliases of applications, spoken names of sites
/// and the search URL template (`{q}` stands for the query).
pub struct VoiceConfig {
    pub model: String,
    pub wake: String,
    pub verbs: Vec<String>,
    pub browser_word: String,
    pub alias: Vec<(String, String)>,
    pub site: Vec<(String, String)>,
    pub search_url: String,
}

/// The spoken-name tables of the settings have distinct keys (as they do
/// when read from a settings file, whose tables are maps).
pub open spec fn config_tables_unique(cfg: &VoiceConfig) -> bool {
    keys_unique(pairs_view(cfg.alias@)) && keys_unique(pairs_view(cfg.site@))
}

/// The default recognizer model path.
pub fn default_model() -> (r: String)
    ensures
        r@ == "models/vosk-model-small-ru-0.22"@,
{
    "models/vosk-model-small-ru-0.22".to_owned()
}

/// The default browser word.
pub fn default_browser_word() -> (r: String)
    ensures
        r@ == "браузер"@,
{
    "браузер".to_owned()
}

/// The default search URL template.
pub fn default_search_url() -> (r: String)
    ensures
        r@ == "https://www.google.com/search?q={q}"@,
{
    "https://www.google.com/search?q={q}".to_owned()
}

impl Default for VoiceConfig {
    fn default() -> (r: VoiceConfig)
        ensures
            r.model@ == "models/vosk-model-small-ru-0.22"@,
            r.wake@ == "помощник"@,
            strings_view(r.verbs@) == seq!["открой"@, "открыть"@, "запусти"@],
            r.browser_word@ == "браузер"@,
            r.alias@.len() == 0,
            r.site@.len() == 0,
            config_tables_unique(&r),
            r.search_url@ == "https://www.google.com/search?q={q}"@,
    {
        let mut verbs: Vec<String> = Vec::new();
        verbs.push("открой".to_owned());
        verbs.push("открыть".to_owned());
        verbs.push("запусти".to_owned());
        let r = VoiceConfig {
            model: default_model(),
            wake: "помощник".to_owned(),
            verbs,
            browser_word: default_browser_word(),
            alias: Vec::new(),
            site: Vec::new(),
            search_url: default_search_url(),
        };
        assert(strings_view(r.verbs@) =~= seq!["открой"@, "открыть"@, "запусти"@]);
        r
    }
}

/// Largest edit distance at which a word still counts as the wake word:
/// 1 for wake words of at most four characters, 2 otherwise.
pub open spec fn wake_threshold(wake: Seq<char>) -> nat {
    if wake.len() <= 4 {
        1
    } else {
        2
    }
}

/// Words close enough to the wake word.
pub open spec fn wake_pred(wake: Seq<char>) -> spec_fn(Seq<char>) -> bool {
    |w: Seq<char>| lev(w, wake) <= wake_threshold(wake)
}

/// The text after the wake word: after its first exact occurrence, or else
/// after the first word within `wake_threshold` edits of it.
pub open spec fn wake_rest(s: Seq<char>, wake: Seq<char>) -> Option<Seq<char>> {
    match find(s, wake) {
        Some(i) => Some(s.skip(i + wake.len())),
        None => after_first_word(s, wake_pred(wake)),
    }
}

/// The word scan shared by the wake word and the verbs: where the text
/// after the first word of `s[pos..]` that satisfies the tested predicate starts.
proof fn lemma_scan_done(s: Seq<char>, pos: int, p: spec_fn(Seq<char>) -> bool)
    requires
        0 <= pos <= s.len(),
        trim_start(s.skip(pos)).len() == 0,
    ensures
        after_first_word(s.skip(pos), p) is None,
        words(s.skip(pos)).len() == 0,
{
}

/// Finds the wake word in `s` (exactly, or as a close word) and returns
/// where the text after it starts.
pub fn strip_wake(s: &Vec<char>, wake: &Vec<char>) -> (r: Option<usize>)
    ensures
        r matches Some(k) ==> k <= s@.len() && wake_rest(s@, wake@) == Some(s@.skip(k as int)),
        r is None ==> wake_rest(s@, wake@) is None,
{
    let n = s.len();
    match find_exec(s, wake) {
        Some(i) => {
            proof {
                lemma_find_from(s@, wake@, 0);
                assert(occurs_at(s@, wake@, i as int));
            }
            return Some(i + wake.len());
        },
        None => {},
    }
    let thr: usize = if wake.len() <= 4 {
        1
    } else {
        2
    };
    let ghost p = wake_pred(wake@);
    let mut pos: usize = 0;
    proof {
        assert(s@.skip(0) =~= s@);
    }
    loop
        invariant
            pos <= s@.len(),
            n == s@.len(),
            thr == wake_threshold(wake@),
            p == wake_pred(wake@),
            find(s@, wake@) is None,
            after_first_word(s@, p) == after_first_word(s@.skip(pos as int), p),
        decreases s@.len() - pos,
    {
        match next_word(s, pos) {
            None => {
                proof {
                    lemma_scan_done(s@, pos as int, p);
                }
                return None;
            },
            Some((j, k)) => {
                proof {
                    lemma_word_step(s@, pos as int, j as int, k as int, p);
                }
                let w = slice_chars(s, j, k);
                if levenshtein_chars(&w, wake) <= thr {
                    return Some(k);
                }
                pos = k;
            },
        }
    }
}

/// Words that are one of the trigger verbs.
pub open spec fn verb_pred(verbs: Seq<Seq<char>>) -> spec_fn(Seq<char>) -> bool {
    |w: Seq<char>| verbs.contains(w)
}

/// Whether `w` is one of `verbs`.
fn is_verb(w: &Vec<char>, verbs: &Vec<Vec<char>>) -> (r: bool)
    ensures
        r == verbs@.map_values(|v: Vec<char>| v@).contains(w@),
{
    let ghost vv = verbs@.map_values(|v: Vec<char>| v@);
    let mut i: usize = 0;
    while i < verbs.len()
        invariant
            i <= verbs@.len(),
            vv == verbs@.map_values(|v: Vec<char>| v@),
            forall|j: int| 0 <= j < i ==> vv[j] != w@,
        decreases verbs@.len() - i,
    {
        if chars_eq(&verbs[i], w) {
            assert(vv[i as int] == w@);
            return true;
        }
        i = i + 1;
    }
    proof {
        if vv.contains(w@) {
            let j = choose|j: int| 0 <= j < vv.len() && vv[j] == w@;
            assert(vv[j] != w@);
        }
    }
    false
}

/// The text after the first word of `s` that is one of `verbs`, as the
/// position where it starts.
pub fn strip_leading_verb(s: &Vec<char>, verbs: &Vec<Vec<char>>) -> (r: Option<usize>)
    ensures
        r matches Some(k) ==> k <= s@.len() && after_first_word(
            s@,
            verb_pred(verbs@.map_values(|v: Vec<char>| v@)),
        ) == Some(s@.skip(k as int)),
        r is None ==> after_first_word(s@, verb_pred(verbs@.map_values(|v: Vec<char>| v@))) is None,
{
    let ghost p = verb_pred(verbs@.map_values(|v: Vec<char>| v@));
    let mut pos: usize = 0;
    proof {
        assert(s@.skip(0) =~= s@);
    }
    loop
        invariant
            pos <= s@.len(),
            p == verb_pred(verbs@.map_values(|v: Vec<char>| v@)),
            after_first_word(s@, p) == after_first_word(s@.skip(pos as int), p),
        decreases s@.len() - pos,
    {
        match next_word(s, pos) {
            None => {
                proof {
                    lemma_scan_done(s@, pos as int, p);
                }
                return None;
            },
            Some((j, k)) => {
                proof {
                    lemma_word_step(s@, pos as int, j as int, k as int, p);
                }
                let w = slice_chars(s, j, k);
                if is_verb(&w, verbs) {
                    return Some(k);
                }
                pos = k;
            },
        }
    }
}

/// Whether `w` names the browser: equal to the base word, starting with it,
/// or within two edits of it.
pub open spec fn is_browser(w: Seq<char>, base: Seq<char>) -> bool {
    ||| w == base
    ||| (base.len() <= w.len() && w.take(base.len() as int) == base)
    ||| lev(w, base) <= 2
}

/// Whether `w` is the browser word (by prefix of the base or fuzzily).
pub fn is_browser_word(w: &Vec<char>, base: &Vec<char>) -> (r: bool)
    ensures
        r == is_browser(w@, base@),
{
    if chars_eq(w, base) {
        return true;
    }
    if base.len() <= w.len() {
        let head = slice_chars(w, 0, base.len());
        if chars_eq(&head, base) {
            return true;
        }
    }
    levenshtein_chars(w, base) <= 2
}


/// Filler words dropped from a spoken name: «в», «во», «на», «и», "in",
/// "the", "on", "a", "to".
pub open spec fn is_filler(w: Seq<char>) -> bool {
    ||| w == seq!['в']
    ||| w == seq!['в', 'о']
    ||| w == seq!['н', 'а']
    ||| w == seq!['и']
    ||| w == seq!['i', 'n']
    ||| w == seq!['t', 'h', 'e']
    ||| w == seq!['o', 'n']
    ||| w == seq!['a']
    ||| w == seq!['t', 'o']
}

/// Whether `w` is a filler word.
pub fn is_filler_word(w: &Vec<char>) -> (r: bool)
    ensures
        r == is_filler(w@),
{
    let n = w.len();
    let r = if n == 1 {
        w[0] == 'в' || w[0] == 'и' || w[0] == 'a'
    } else if n == 2 {
        (w[0] == 'в' && w[1] == 'о') || (w[0] == 'н' && w[1] == 'а') || (w[0] == 'i' && w[1] == 'n')
            || (w[0] == 'o' && w[1] == 'n') || (w[0] == 't' && w[1] == 'o')
    } else if n == 3 {
        w[0] == 't' && w[1] == 'h' && w[2] == 'e'
    } else {
        false
    };
    proof {
        if n == 1 {
            assert(w@ =~= seq![w@[0]]);
        } else if n == 2 {
            assert(w@ =~= seq![w@[0], w@[1]]);
        } else if n == 3 {
            assert(w@ =~= seq![w@[0], w@[1], w@[2]]);
        }
    }
    r
}

/// The words that make up the spoken name: neither the browser word nor fillers.
pub open spec fn name_words(ws: Seq<Seq<char>>, base: Seq<char>) -> Seq<Seq<char>>
    decreases ws.len(),
{
    if ws.len() == 0 {
        Seq::empty()
    } else {
        let w = ws[0];
        let head = if !is_browser(w, base) && !is_filler(w) {
            seq![w]
        } else {
            Seq::empty()
        };
        head + name_words(ws.drop_first(), base)
    }
}

/// Whether some word names the browser.
pub open spec fn any_browser(ws: Seq<Seq<char>>, base: Seq<char>) -> bool
    decreases ws.len(),
{
    ws.len() > 0 && (is_browser(ws[0], base) || any_browser(ws.drop_first(), base))
}

/// Words joined by single spaces.
pub open spec fn join_words(ws: Seq<Seq<char>>) -> Seq<char>
    decreases ws.len(),
{
    if ws.len() == 0 {
        Seq::empty()
    } else if ws.len() == 1 {
        ws[0]
    } else {
        join_words(ws.drop_last()) + seq![' '] + ws.last()
    }
}

/// The views of a list of character vectors.
pub open spec fn vecs_view(v: Seq<Vec<char>>) -> Seq<Seq<char>> {
    v.map_values(|w: Vec<char>| w@)
}

/// Splits `rest` into words; returns the name words and whether the browser
/// word was heard.
fn split_name(rest: &Vec<char>, base: &Vec<char>) -> (r: (Vec<Vec<char>>, bool))
    ensures
        vecs_view(r.0@) =~= name_words(words(rest@), base@),
        r.1 == any_browser(words(rest@), base@),
{
    let mut acc: Vec<Vec<char>> = Vec::new();
    let mut hb = false;
    let mut pos: usize = 0;
    let ghost p = |w: Seq<char>| true;
    proof {
        assert(rest@.skip(0) =~= rest@);
    }
    loop
        invariant
            pos <= rest@.len(),
            name_words(words(rest@), base@) =~= vecs_view(acc@) + name_words(
                words(rest@.skip(pos as int)),
                base@,
            ),
            any_browser(words(rest@), base@) == (hb || any_browser(
                words(rest@.skip(pos as int)),
                base@,
            )),
        decreases rest@.len() - pos,
    {
        match next_word(rest, pos) {
            None => {
                proof {
                    lemma_scan_done(rest@, pos as int, p);
                }
                return (acc, hb);
            },
            Some((j, k)) => {
                proof {
                    lemma_word_step(rest@, pos as int, j as int, k as int, p);
                }
                let w = slice_chars(rest, j, k);
                let ghost ws = words(rest@.skip(pos as int));
                proof {
                    assert(ws[0] == w@);
                    assert(ws.drop_first() =~= words(rest@.skip(k as int)));
                }
                if is_browser_word(&w, base) {
                    hb = true;
                } else if !is_filler_word(&w) {
                    let ghost prev = acc@;
                    let ghost wv = w@;
                    acc.push(w);
                    proof {
                        assert(vecs_view(acc@) =~= vecs_view(prev).push(wv));
                    }
                }
                pos = k;
            },
        }
    }
}


/// Joins words with single spaces.
fn join_with_spaces(ws: &Vec<Vec<char>>) -> (r: Vec<char>)
    ensures
        r@ =~= join_words(vecs_view(ws@)),
{
    let ghost wv = vecs_view(ws@);
    let mut r: Vec<char> = Vec::new();
    let mut i: usize = 0;
    while i < ws.len()
        invariant
            i <= ws@.len(),
            wv == vecs_view(ws@),
            r@ =~= join_words(wv.take(i as int)),
        decreases ws@.len() - i,
    {
        proof {
            assert(wv.take(i + 1).drop_last() =~= wv.take(i as int));
            assert(wv.take(i + 1).last() == ws@[i as int]@);
        }
        if i > 0 {
            r.push(' ');
        } else {
            assert(wv.take(1) =~= seq![ws@[0]@]);
        }
        crate::text::append_chars(&mut r, &ws[i]);
        i = i + 1;
    }
    proof {
        assert(wv.take(ws@.len() as int) =~= wv);
    }
    r
}

/// Application index: spoken (lowercase) names and how to start them.
pub struct AppIndex {
    entries: Vec<(String, Launch)>,
}

/// Site index: domain labels (such as "payme") and the origin URL to open.
pub struct SiteIndex {
    entries: Vec<(String, String)>,
}

/// The names of a table, in order.
pub open spec fn table_keys<V>(t: Seq<(Seq<char>, V)>) -> Seq<Seq<char>> {
    t.map_values(|e: (Seq<char>, V)| e.0)
}

impl View for AppIndex {
    type V = Seq<(Seq<char>, Launch)>;

    closed spec fn view(&self) -> Seq<(Seq<char>, Launch)> {
        self.entries@.map_values(|e: (String, Launch)| (e.0@, e.1))
    }
}

impl View for SiteIndex {
    type V = Seq<(Seq<char>, Seq<char>)>;

    closed spec fn view(&self) -> Seq<(Seq<char>, Seq<char>)> {
        pairs_view(self.entries@)
    }
}

impl AppIndex {
    /// An empty index.
    pub fn new() -> (r: AppIndex)
        ensures
            r@.len() == 0,
            keys_unique(r@),
    {
        AppIndex { entries: Vec::new() }
    }

    /// Number of entries.
    pub fn len(&self) -> (r: usize)
        ensures
            r == self@.len(),
    {
        self.entries.len()
    }

    /// The names, in index order.
    pub fn keys(&self) -> (r: Vec<String>)
        ensures
            strings_view(r@) =~= table_keys(self@),
    {
        let mut r: Vec<String> = Vec::new();
        let mut i: usize = 0;
        while i < self.entries.len()
            invariant
                i <= self.entries@.len(),
                strings_view(r@) =~= table_keys(self@).take(i as int),
            decreases self.entries@.len() - i,
        {
            let ghost prev = r@;
            let k = self.entries[i].0.clone();
            r.push(k);
            proof {
                assert(strings_view(r@) =~= strings_view(prev).push(self.entries@[i as int].0@));
                assert(table_keys(self@)[i as int] == self.entries@[i as int].0@);
                assert(table_keys(self@).take(i + 1) =~= table_keys(self@).take(i as int).push(
                    table_keys(self@)[i as int],
                ));
            }
            i = i + 1;
        }
        proof {
            assert(table_keys(self@).take(self.entries@.len() as int) =~= table_keys(self@));
        }
        r
    }

    /// The launch stored under `name`.
    pub fn get(&self, name: &str) -> (r: Option<Launch>)
        ensures
            r == lookup(self@, name@),
    {
        let ghost tv = self@;
        let mut i: usize = 0;
        proof {
            assert(tv.skip(0) =~= tv);
        }
        while i < self.entries.len()
            invariant
                i <= self.entries@.len(),
                tv == self@,
                lookup(tv, name@) == lookup(tv.skip(i as int), name@),
            decreases self.entries@.len() - i,
        {
            proof {
                lemma_lookup_skip(tv, name@, i as int);
            }
            if same_text(self.entries[i].0.as_str(), name) {
                return Some(self.entries[i].1.duplicate());
            }
            i = i + 1;
        }
        None
    }

    /// Whether `name` is in the index.
    pub fn contains(&self, name: &str) -> (r: bool)
        ensures
            r == lookup(self@, name@) is Some,
    {
        self.get(name).is_some()
    }

    /// The entry at position `i`.
    pub fn entry(&self, i: usize) -> (r: (String, Launch))
        requires
            i < self@.len(),
        ensures
            r.0@ == self@[i as int].0,
            r.1 == self@[i as int].1,
    {
        (self.entries[i].0.clone(), self.entries[i].1.duplicate())
    }

    /// Adds `name` unless it is already present; an earlier entry is never
    /// overwritten. Returns whether it was added.
    pub fn insert_if_absent(&mut self, name: String, launch: Launch) -> (added: bool)
        ensures
            added == (lookup(old(self)@, name@) is None),
            final(self)@ == if added {
                old(self)@.push((name@, launch))
            } else {
                old(self)@
            },
            keys_unique(final(self)@) == keys_unique(old(self)@),
    {
        if self.contains(name.as_str()) {
            return false;
        }
        let ghost nv = name@;
        self.entries.push((name, launch));
        proof {
            assert(final(self)@ =~= old(self)@.push((nv, launch)));
            lemma_push_absent_unique(old(self)@, nv, launch);
        }
        true
    }
}

impl SiteIndex {
    /// An empty index.
    pub fn new() -> (r: SiteIndex)
        ensures
            r@.len() == 0,
            keys_unique(r@),
    {
        SiteIndex { entries: Vec::new() }
    }

    /// Number of entries.
    pub fn len(&self) -> (r: usize)
        ensures
            r == self@.len(),
    {
        self.entries.len()
    }

    /// The labels, in index order.
    pub fn keys(&self) -> (r: Vec<String>)
        ensures
            strings_view(r@) =~= table_keys(self@),
    {
        let mut r: Vec<String> = Vec::new();
        let mut i: usize = 0;
        while i < self.entries.len()
            invariant
                i <= self.entries@.len(),
                strings_view(r@) =~= table_keys(self@).take(i as int),
            decreases self.entries@.len() - i,
        {
            let ghost prev = r@;
            let k = self.entries[i].0.clone();
            r.push(k);
            proof {
                assert(strings_view(r@) =~= strings_view(prev).push(self.entries@[i as int].0@));
                assert(table_keys(self@)[i as int] == self.entries@[i as int].0@);
                assert(table_keys(self@).take(i + 1) =~= table_keys(self@).take(i as int).push(
                    table_keys(self@)[i as int],
                ));
            }
            i = i + 1;
        }
        proof {
            assert(table_keys(self@).take(self.entries@.len() as int) =~= table_keys(self@));
        }
        r
    }

    /// The URL at position `i`.
    pub fn url_at(&self, i: usize) -> (r: String)
        requires
            i < self@.len(),
        ensures
            r@ == self@[i as int].1,
    {
        self.entries[i].1.clone()
    }

    /// The URL stored under `label`.
    pub fn get(&self, label: &str) -> (r: Option<String>)
        ensures
            opt_view(r) == lookup(self@, label@),
    {
        lookup_pairs(&self.entries, label)
    }

    /// Adds `label` -> `url` unless the label is already present.
    pub fn insert_if_absent(&mut self, label: String, url: String) -> (added: bool)
        ensures
            added == (lookup(old(self)@, label@) is None),
            final(self)@ == if added {
                old(self)@.push((label@, url@))
            } else {
                old(self)@
            },
            keys_unique(final(self)@) == keys_unique(old(self)@),
    {
        if self.get(label.as_str()).is_some() {
            return false;
        }
        let ghost lv = label@;
        let ghost uv = url@;
        self.entries.push((label, url));
        proof {
            assert(final(self)@ =~= old(self)@.push((lv, uv)));
            lemma_push_absent_unique(old(self)@, lv, uv);
        }
        true
    }
}

/// The site a phrase names in the configured table: the phrase looked up
/// exactly, then its transliteration, then the best fuzzy match over the
/// table's names.
pub open spec fn resolve_site_spec(phrase: Seq<char>, site: Seq<(Seq<char>, Seq<char>)>) -> Option<
    Seq<char>,
> {
    match lookup(site, phrase) {
        Some(u) => Some(u),
        None => match lookup(site, translit_spec(phrase)) {
            Some(u) => Some(u),
            None => match best_index(phrase, table_keys(site)) {
                Some(i) => Some(site[i].1),
                None => None,
            },
        },
    }
}

/// The names of a table of string pairs, in order.
fn pair_keys(t: &Vec<(String, String)>) -> (r: Vec<String>)
    ensures
        strings_view(r@) =~= table_keys(pairs_view(t@)),
{
    let mut r: Vec<String> = Vec::new();
    let mut i: usize = 0;
    while i < t.len()
        invariant
            i <= t@.len(),
            strings_view(r@) =~= table_keys(pairs_view(t@)).take(i as int),
        decreases t@.len() - i,
    {
        let ghost prev = r@;
        r.push(t[i].0.clone());
        proof {
            assert(strings_view(r@) =~= strings_view(prev).push(t@[i as int].0@));
            assert(table_keys(pairs_view(t@))[i as int] == t@[i as int].0@);
            assert(table_keys(pairs_view(t@)).take(i + 1) =~= table_keys(pairs_view(t@)).take(
                i as int,
            ).push(table_keys(pairs_view(t@))[i as int]));
        }
        i = i + 1;
    }
    proof {
        assert(table_keys(pairs_view(t@)).take(t@.len() as int) =~= table_keys(pairs_view(t@)));
    }
    r
}

/// The site `phrase` names in the configured table: exactly, then by its
/// transliteration, then fuzzily over the table's names.
pub fn resolve_site(phrase: &str, cfg: &VoiceConfig) -> (r: Option<String>)
    ensures
        opt_view(r) == resolve_site_spec(phrase@, pairs_view(cfg.site@)),
{
    match lookup_pairs(&cfg.site, phrase) {
        Some(u) => {
            return Some(u);
        },
        None => {},
    }
    let t = translit(phrase);
    match lookup_pairs(&cfg.site, t.as_str()) {
        Some(u) => {
            return Some(u);
        },
        None => {},
    }
    let keys = pair_keys(&cfg.site);
    match best_match(phrase, &keys) {
        Some(i) => {
            proof {
                crate::matching::lemma_best_index_bound(phrase@, table_keys(pairs_view(cfg.site@)), i as int);
            }
            Some(cfg.site[i].1.clone())
        },
        None => None,
    }
}

/// The URL of the site from the browser history that best matches `phrase`.
pub open spec fn history_site(phrase: Seq<char>, sites: Seq<(Seq<char>, Seq<char>)>) -> Option<
    Seq<char>,
> {
    match best_index(phrase, table_keys(sites)) {
        Some(i) => Some(sites[i].1),
        None => None,
    }
}

/// The site from the browser history whose label best matches `phrase`.
pub fn resolve_history_site(phrase: &str, sites: &SiteIndex) -> (r: Option<String>)
    ensures
        opt_view(r) == history_site(phrase@, sites@),
{
    let keys = sites.keys();
    match best_match(phrase, &keys) {
        Some(i) => {
            proof {
                crate::matching::lemma_best_index_bound(phrase@, table_keys(sites@), i as int);
            }
            Some(sites.url_at(i))
        },
        None => None,
    }
}

/// The search URL of the configured template for `query`.
pub open spec fn search_spec(query: Seq<char>, template: Seq<char>) -> Seq<char> {
    replace_all(template, seq!['{', 'q', '}'], urlencode_bytes(vstd::utf8::encode_utf8(query)))
}

/// URL for a site outside the tables: the search template with the
/// URL-encoded query in place of `{q}`.
pub fn search_url(query: &str, cfg: &VoiceConfig) -> (r: String)
    ensures
        r@ == search_spec(query@, cfg.search_url@),
{
    fill_search_template(cfg.search_url.as_str(), query)
}

/// Name candidates for an application: its alias (if configured), its
/// transliteration, and the phrase itself.
pub open spec fn app_candidates(phrase: Seq<char>, alias: Seq<(Seq<char>, Seq<char>)>) -> Seq<
    Seq<char>,
> {
    let a = match lookup(alias, phrase) {
        Some(v) => seq![v],
        None => Seq::empty(),
    };
    a + seq![translit_spec(phrase), phrase]
}

/// What one candidate name finds in the index: the exact entry, or else the
/// best fuzzy match.
pub open spec fn try_candidate(c: Seq<char>, index: Seq<(Seq<char>, Launch)>) -> Option<
    (Seq<char>, Launch),
> {
    match lookup(index, c) {
        Some(l) => Some((c, l)),
        None => match best_index(c, table_keys(index)) {
            Some(i) => Some((index[i].0, index[i].1)),
            None => None,
        },
    }
}

/// The result of the first candidate that finds something.
pub open spec fn first_found(cands: Seq<Seq<char>>, index: Seq<(Seq<char>, Launch)>) -> Option<
    (Seq<char>, Launch),
>
    decreases cands.len(),
{
    if cands.len() == 0 {
        None
    } else {
        match try_candidate(cands[0], index) {
            Some(r) => Some(r),
            None => first_found(cands.drop_first(), index),
        }
    }
}

/// The application a phrase names: alias, then transliteration, then the
/// phrase itself, each looked up exactly and then fuzzily.
pub open spec fn resolve_app_spec(
    phrase: Seq<char>,
    alias: Seq<(Seq<char>, Seq<char>)>,
    index: Seq<(Seq<char>, Launch)>,
) -> Option<(Seq<char>, Launch)> {
    first_found(app_candidates(phrase, alias), index)
}

/// The view of a found application.
pub open spec fn found_view(o: Option<(String, Launch)>) -> Option<(Seq<char>, Launch)> {
    match o {
        Some((n, l)) => Some((n@, l)),
        None => None,
    }
}

/// Looks one candidate name up in the index.
fn try_candidate_exec(c: &String, index: &AppIndex, keys: &Vec<String>) -> (r: Option<(String, Launch)>)
    requires
        strings_view(keys@) =~= table_keys(index@),
    ensures
        found_view(r) == try_candidate(c@, index@),
{
    match index.get(c.as_str()) {
        Some(l) => Some((c.clone(), l)),
        None => match best_match(c.as_str(), keys) {
            Some(i) => {
                proof {
                    crate::matching::lemma_best_index_bound(c@, table_keys(index@), i as int);
                }
                Some(index.entry(i))
            },
            None => None,
        },
    }
}

/// Application by phrase: alias -> transliteration -> fuzzy over the index names.
pub fn resolve_app(phrase: &str, cfg: &VoiceConfig, index: &AppIndex) -> (r: Option<(String, Launch)>)
    ensures
        found_view(r) == resolve_app_spec(phrase@, pairs_view(cfg.alias@), index@),
{
    let mut cands: Vec<String> = Vec::new();
    match lookup_pairs(&cfg.alias, phrase) {
        Some(a) => cands.push(a),
        None => {},
    }
    cands.push(translit(phrase));
    cands.push(phrase.to_owned());
    let ghost cv = app_candidates(phrase@, pairs_view(cfg.alias@));
    assert(strings_view(cands@) =~= cv);
    let keys = index.keys();
    let mut i: usize = 0;
    proof {
        assert(cv.skip(0) =~= cv);
    }
    while i < cands.len()
        invariant
            i <= cands@.len(),
            strings_view(cands@) == cv,
            strings_view(keys@) =~= table_keys(index@),
            resolve_app_spec(phrase@, pairs_view(cfg.alias@), index@) == first_found(
                cv.skip(i as int),
                index@,
            ),
        decreases cands@.len() - i,
    {
        proof {
            assert(cv.skip(i as int)[0] == cands@[i as int]@);
            assert(cv.skip(i as int).drop_first() =~= cv.skip(i + 1));
        }
        match try_candidate_exec(&cands[i], index, &keys) {
            Some(found) => {
                return Some(found);
            },
            None => {},
        }
        i = i + 1;
    }
    None
}


/// Where a site name leads: the configured table, else the browser history,
/// else the search template.
pub open spec fn site_target(name: Seq<char>, cfg: &VoiceConfig, sites: Seq<(Seq<char>, Seq<char>)>) -> Seq<
    char,
> {
    match resolve_site_spec(name, pairs_view(cfg.site@)) {
        Some(u) => u,
        None => match history_site(name, sites) {
            Some(u) => u,
            None => search_spec(name, cfg.search_url@),
        },
    }
}

/// The command a lowercased phrase gives.
///
/// The wake word must be heard; a trigger verb after it is cut off; the
/// rest, trimmed, must not be empty. Its words other than the browser word
/// and fillers, joined by spaces, name the target. With the browser word the
/// target is a site (no verb needed); otherwise a verb is required, and the
/// name is an application, or else a site from the configured table only.
pub open spec fn parse_spec(
    lower: Seq<char>,
    cfg: &VoiceConfig,
    index: Seq<(Seq<char>, Launch)>,
    sites: Seq<(Seq<char>, Seq<char>)>,
) -> Option<TargetView> {
    match wake_rest(lower, cfg.wake@) {
        None => None,
        Some(after) => {
            let (rest, had_verb) = match after_first_word(after, verb_pred(strings_view(cfg.verbs@))) {
                Some(r) => (trim(r), true),
                None => (trim(after), false),
            };
            let ws = words(rest);
            let name = join_words(name_words(ws, cfg.browser_word@));
            if rest.len() == 0 || name.len() == 0 {
                None
            } else if any_browser(ws, cfg.browser_word@) {
                Some(TargetView::Url(site_target(name, cfg, sites)))
            } else if !had_verb {
                None
            } else {
                match resolve_app_spec(name, pairs_view(cfg.alias@), index) {
                    Some((n, l)) => Some(TargetView::App(n, l)),
                    None => match resolve_site_spec(name, pairs_view(cfg.site@)) {
                        Some(u) => Some(TargetView::Url(u)),
                        None => None,
                    },
                }
            }
        },
    }
}

/// The view of an optional target.
pub open spec fn target_view(o: Option<Target>) -> Option<TargetView> {
    match o {
        Some(t) => Some(t@),
        None => None,
    }
}

/// Parses an already lowercased phrase by the grammar of [`parse_spec`].
pub fn parse_lowered(lower: &str, cfg: &VoiceConfig, index: &AppIndex, sites: &SiteIndex) -> (r:
    Option<Target>)
    ensures
        target_view(r) == parse_spec(lower@, cfg, index@, sites@),
{
    let v = chars_of(lower);
    let wake = chars_of(cfg.wake.as_str());
    let k = match strip_wake(&v, &wake) {
        Some(k) => k,
        None => {
            return None;
        },
    };
    let after = slice_chars(&v, k, v.len());
    assert(after@ =~= v@.skip(k as int));
    let verbs = chars_of_all(&cfg.verbs);
    assert(verbs@.map_values(|w: Vec<char>| w@) =~= strings_view(cfg.verbs@));
    let (rest, had_verb) = match strip_leading_verb(&after, &verbs) {
        Some(k2) => {
            let tail = slice_chars(&after, k2, after.len());
            assert(tail@ =~= after@.skip(k2 as int));
            (trim_chars(&tail), true)
        },
        None => (trim_chars(&after), false),
    };
    let base = chars_of(cfg.browser_word.as_str());
    let (name_list, has_browser) = split_name(&rest, &base);
    let name_chars = join_with_spaces(&name_list);
    if rest.len() == 0 || name_chars.len() == 0 {
        return None;
    }
    let name = string_from_chars(&name_chars);
    if has_browser {
        let url = match resolve_site(name.as_str(), cfg) {
            Some(u) => u,
            None => match resolve_history_site(name.as_str(), sites) {
                Some(u) => u,
                None => search_url(name.as_str(), cfg),
            },
        };
        return Some(Target::Url(url));
    }
    if !had_verb {
        return None;
    }
    match resolve_app(name.as_str(), cfg, index) {
        Some((app_name, launch)) => Some(Target::App(app_name, launch)),
        None => match resolve_site(name.as_str(), cfg) {
            Some(u) => Some(Target::Url(u)),
            None => None,
        },
    }
}

/// Parses a recognized phrase: lowercases it, then applies the grammar.
/// `None` without the wake word or when no target is found.
pub fn parse_command(text: &str, cfg: &VoiceConfig, index: &AppIndex, sites: &SiteIndex) -> (r:
    Option<Target>)
    ensures
        target_view(r) == parse_spec(crate::text::lowercase(text@), cfg, index@, sites@),
{
    let lower = crate::text::to_lowercase(text);
    parse_lowered(lower.as_str(), cfg, index, sites)
}


/// Without the wake word no command is taken.
pub proof fn lemma_no_wake_no_command(
    lower: Seq<char>,
    cfg: &VoiceConfig,
    index: Seq<(Seq<char>, Launch)>,
    sites: Seq<(Seq<char>, Seq<char>)>,
)
    requires
        wake_rest(lower, cfg.wake@) is None,
    ensures
        parse_spec(lower, cfg, index, sites) is None,
{
}

/// Starting an application needs a trigger verb after the wake word and no
/// browser word; the application found is the one the name resolves to.
pub proof fn lemma_app_needs_verb(
    lower: Seq<char>,
    cfg: &VoiceConfig,
    index: Seq<(Seq<char>, Launch)>,
    sites: Seq<(Seq<char>, Seq<char>)>,
)
    requires
        parse_spec(lower, cfg, index, sites) matches Some(TargetView::App(_, _)),
    ensures
        wake_rest(lower, cfg.wake@) matches Some(after) && after_first_word(
            after,
            verb_pred(strings_view(cfg.verbs@)),
        ) matches Some(r) && !any_browser(words(trim(r)), cfg.browser_word@),
{
}

/// With the browser word heard (and a name), the command opens a URL.
pub proof fn lemma_browser_word_opens_url(
    lower: Seq<char>,
    cfg: &VoiceConfig,
    index: Seq<(Seq<char>, Launch)>,
    sites: Seq<(Seq<char>, Seq<char>)>,
    after: Seq<char>,
    rest: Seq<char>,
)
    requires
        wake_rest(lower, cfg.wake@) == Some(after),
        rest == match after_first_word(after, verb_pred(strings_view(cfg.verbs@))) {
            Some(r) => trim(r),
            None => trim(after),
        },
        rest.len() > 0,
        join_words(name_words(words(rest), cfg.browser_word@)).len() > 0,
        any_browser(words(rest), cfg.browser_word@),
    ensures
        parse_spec(lower, cfg, index, sites) == Some(
            TargetView::Url(
                site_target(join_words(name_words(words(rest), cfg.browser_word@)), cfg, sites),
            ),
        ),
{
}


/// Whether a heard phrase holds the wake word as it is written (an
/// unrecognized command is only reported for such phrases).
pub fn mentions_wake(text: &str, wake: &str) -> (r: bool)
    ensures
        r == crate::text::contains(text@, wake@),
{
    let t = chars_of(text);
    let w = chars_of(wake);
    find_exec(&t, &w).is_some()
}

/// Without the browser word, a command opens a URL only from the configured
/// site table, and only when no application matched: a misheard application
/// name never turns into a web search.
pub proof fn lemma_no_browser_word_no_search(
    lower: Seq<char>,
    cfg: &VoiceConfig,
    index: Seq<(Seq<char>, Launch)>,
    sites: Seq<(Seq<char>, Seq<char>)>,
    after: Seq<char>,
    rest: Seq<char>,
    url: Seq<char>,
)
    requires
        wake_rest(lower, cfg.wake@) == Some(after),
        rest == match after_first_word(after, verb_pred(strings_view(cfg.verbs@))) {
            Some(r) => trim(r),
            None => trim(after),
        },
        !any_browser(words(rest), cfg.browser_word@),
        parse_spec(lower, cfg, index, sites) == Some(TargetView::Url(url)),
    ensures
        resolve_app_spec(
            join_words(name_words(words(rest), cfg.browser_word@)),
            pairs_view(cfg.alias@),
            index,
        ) is None,
        resolve_site_spec(
            join_words(name_words(words(rest), cfg.browser_word@)),
            pairs_view(cfg.site@),
        ) == Some(url),
{
}

/// With the browser word, the hand-written site table comes first: when it
/// maps the name to `url`, that URL is opened whatever the browser history
/// holds.
pub proof fn lemma_site_table_before_history(
    lower: Seq<char>,
    cfg: &VoiceConfig,
    index: Seq<(Seq<char>, Launch)>,
    sites: Seq<(Seq<char>, Seq<char>)>,
    after: Seq<char>,
    rest: Seq<char>,
    url: Seq<char>,
)
    requires
        wake_rest(lower, cfg.wake@) == Some(after),
        rest == match after_first_word(after, verb_pred(strings_view(cfg.verbs@))) {
            Some(r) => trim(r),
            None => trim(after),
        },
        rest.len() > 0,
        join_words(name_words(words(rest), cfg.browser_word@)).len() > 0,
        any_browser(words(rest), cfg.browser_word@),
        lookup(pairs_view(cfg.site@), join_words(name_words(words(rest), cfg.browser_word@)))
            == Some(url),
    ensures
        parse_spec(lower, cfg, index, sites) == Some(TargetView::Url(url)),
{
}

/// The browser history is consulted only when the site table finds nothing
/// for the name (not exactly, not by transliteration, not fuzzily); then its
/// best label wins over the web search.
pub proof fn lemma_history_before_search(
    lower: Seq<char>,
    cfg: &VoiceConfig,
    index: Seq<(Seq<char>, Launch)>,
    sites: Seq<(Seq<char>, Seq<char>)>,
    after: Seq<char>,
    rest: Seq<char>,
    i: int,
)
    requires
        wake_rest(lower, cfg.wake@) == Some(after),
        rest == match after_first_word(after, verb_pred(strings_view(cfg.verbs@))) {
            Some(r) => trim(r),
            None => trim(after),
        },
        rest.len() > 0,
        join_words(name_words(words(rest), cfg.browser_word@)).len() > 0,
        any_browser(words(rest), cfg.browser_word@),
        lookup(pairs_view(cfg.site@), join_words(name_words(words(rest), cfg.browser_word@))) is None,
        lookup(
            pairs_view(cfg.site@),
            translit_spec(join_words(name_words(words(rest), cfg.browser_word@))),
        ) is None,
        best_index(
            join_words(name_words(words(rest), cfg.browser_word@)),
            table_keys(pairs_view(cfg.site@)),
        ) is None,
        best_index(join_words(name_words(words(rest), cfg.browser_word@)), table_keys(sites))
            == Some(i),
    ensures
        parse_spec(lower, cfg, index, sites) == Some(TargetView::Url(sites[i].1)),
{
}

/// The site table is read exactly first, then by the transliterated phrase,
/// and only then fuzzily.
pub proof fn lemma_site_table_order(phrase: Seq<char>, site: Seq<(Seq<char>, Seq<char>)>)
    ensures
        lookup(site, phrase) matches Some(u) ==> resolve_site_spec(phrase, site) == Some(u),
        lookup(site, phrase) is None ==> (lookup(site, translit_spec(phrase)) matches Some(u)
            ==> resolve_site_spec(phrase, site) == Some(u)),
        resolve_site_spec(phrase, site) is None ==> lookup(site, phrase) is None && lookup(
            site,
            translit_spec(phrase),
        ) is None && best_index(phrase, table_keys(site)) is None,
{
}

/// A configured alias is tried before anything else: when the alias of the
/// phrase names an application of the index, that application is started,
/// whatever the transliteration or the phrase itself would match; when it
/// names none exactly, its best fuzzy match comes first.
pub proof fn lemma_alias_first(
    phrase: Seq<char>,
    alias: Seq<(Seq<char>, Seq<char>)>,
    index: Seq<(Seq<char>, Launch)>,
    a: Seq<char>,
)
    requires
        lookup(alias, phrase) == Some(a),
    ensures
        lookup(index, a) matches Some(l) ==> resolve_app_spec(phrase, alias, index) == Some((a, l)),
        lookup(index, a) is None ==> (best_index(a, table_keys(index)) matches Some(i)
            ==> resolve_app_spec(phrase, alias, index) == Some((index[i].0, index[i].1))),
{
    let c = app_candidates(phrase, alias);
    assert(c[0] == a);
}

/// Without an alias, the transliteration is tried before the phrase itself.
pub proof fn lemma_translit_before_phrase(
    phrase: Seq<char>,
    alias: Seq<(Seq<char>, Seq<char>)>,
    index: Seq<(Seq<char>, Launch)>,
)
    requires
        lookup(alias, phrase) is None,
    ensures
        lookup(index, translit_spec(phrase)) matches Some(l) ==> resolve_app_spec(
            phrase,
            alias,
            index,
        ) == Some((translit_spec(phrase), l)),
{
    let c = app_candidates(phrase, alias);
    assert(c[0] == translit_spec(phrase));
}

} // verus!
