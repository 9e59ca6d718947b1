//! Fuzzy name matching: each candidate key gets a similarity score in
//! [0, 1], compared exactly as a fraction; the first best key wins if it
//! scores at least 3/5.
use vstd::prelude::*;
use crate::levenshtein::{lemma_lev_bounds, lev, levenshtein_chars};
use crate::text::{chars_eq, chars_of, contains, find_exec, string_from_chars, trim, trim_chars, utf8_len, utf8_len_chars};
use crate::translit::{skeleton_chars, skeleton_spec};

verus! {

/// A score as a fraction `(numerator, denominator)`.
pub type Score = (int, int);

/// `x < y` for fractions with positive denominators.
pub open spec fn score_lt(x: Score, y: Score) -> bool {
    x.0 * y.1 < y.0 * x.1
}

/// A well-formed score: a fraction in [0, 1] with a positive denominator.
pub open spec fn score_wf(x: Score) -> bool {
    0 <= x.0 <= x.1 && x.1 > 0
}

pub open spec fn max_nat(a: nat, b: nat) -> nat {
    if a >= b {
        a
    } else {
        b
    }
}

pub open spec fn min_nat(a: nat, b: nat) -> nat {
    if a <= b {
        a
    } else {
        b
    }
}

/// Direct similarity of a query and a key: 1 when equal; 0.6 + 0.3 * (shorter
/// / longer byte length) when one contains the other; otherwise
/// 1 - distance / longer length in characters.
pub open spec fn direct_score(q: Seq<char>, k: Seq<char>) -> Score {
    if k == q {
        (1, 1)
    } else if contains(k, q) || contains(q, k) {
        let a = min_nat(utf8_len(k), utf8_len(q));
        let b = max_nat(utf8_len(k), utf8_len(q));
        ((6 * b + 3 * a) as int, (10 * b) as int)
    } else {
        let m = max_nat(max_nat(q.len(), k.len()), 1);
        (m - lev(q, k), m as int)
    }
}

/// Similarity of two sound skeletons: 0 unless both have at least three
/// characters; 0.85 when equal; otherwise 0.8 * (1 - distance / longer length).
pub open spec fn skeleton_score(qs: Seq<char>, ks: Seq<char>) -> Score {
    if qs.len() >= 3 && ks.len() >= 3 {
        if qs == ks {
            (17, 20)
        } else {
            let m = max_nat(qs.len(), ks.len());
            (4 * (m - lev(qs, ks)), (5 * m) as int)
        }
    } else {
        (0, 1)
    }
}

/// The score of key `k` for the (trimmed) query `q`: the larger of the
/// direct and the skeleton similarity.
pub open spec fn key_score(q: Seq<char>, k: Seq<char>) -> Score {
    let d = direct_score(q, k);
    let s = skeleton_score(skeleton_spec(q), skeleton_spec(k));
    if score_lt(d, s) {
        s
    } else {
        d
    }
}

/// The least score that counts as a match.
pub open spec fn threshold() -> Score {
    (3, 5)
}

/// Whether key `i` of `keys` is the match for query `q`: the trimmed query is
/// not empty, key `i` scores at least
/// 3/5, no key scores higher, and every earlier key scores lower.
pub open spec fn is_best(q: Seq<char>, keys: Seq<Seq<char>>, i: int) -> bool {
    &&& trim(q).len() > 0
    &&& 0 <= i < keys.len()
    &&& !score_lt(key_score(trim(q), keys[i]), threshold())
    &&& forall|j: int| 0 <= j < keys.len() ==> !score_lt(key_score(trim(q), keys[i]), #[trigger] key_score(trim(q), keys[j]))
    &&& forall|j: int| 0 <= j < i ==> score_lt(#[trigger] key_score(trim(q), keys[j]), key_score(trim(q), keys[i]))
}

/// The index of the key that best matches query `q`, if any key matches.
pub open spec fn best_index(q: Seq<char>, keys: Seq<Seq<char>>) -> Option<int> {
    if exists|i: int| is_best(q, keys, i) {
        Some(choose|i: int| is_best(q, keys, i))
    } else {
        None
    }
}

/// At most one key is the best match.
pub proof fn lemma_best_unique(q: Seq<char>, keys: Seq<Seq<char>>, i: int, j: int)
    requires
        is_best(q, keys, i),
        is_best(q, keys, j),
    ensures
        i == j,
{
    if i < j {
        assert(score_lt(key_score(trim(q), keys[i]), key_score(trim(q), keys[j])));
        assert(!score_lt(key_score(trim(q), keys[i]), key_score(trim(q), keys[j])));
    } else if j < i {
        assert(score_lt(key_score(trim(q), keys[j]), key_score(trim(q), keys[i])));
        assert(!score_lt(key_score(trim(q), keys[j]), key_score(trim(q), keys[i])));
    }
}

/// A best index lies within the keys.
pub proof fn lemma_best_index_bound(q: Seq<char>, keys: Seq<Seq<char>>, i: int)
    requires
        best_index(q, keys) == Some(i),
    ensures
        0 <= i < keys.len(),
{
    let c = choose|j: int| is_best(q, keys, j);
    assert(is_best(q, keys, c));
}

/// The views of a list of strings.
pub open spec fn strings_view(v: Seq<String>) -> Seq<Seq<char>> {
    v.map_values(|k: String| k@)
}

/// `x <= y < z` gives `x < z`, for fractions with positive denominators.
proof fn lemma_le_lt_trans(x: Score, y: Score, z: Score)
    requires
        x.1 > 0,
        y.1 > 0,
        z.1 > 0,
        !score_lt(y, x),
        score_lt(y, z),
    ensures
        score_lt(x, z),
{
    assert(x.0 * y.1 * z.1 <= y.0 * x.1 * z.1) by (nonlinear_arith)
        requires
            x.0 * y.1 <= y.0 * x.1,
            z.1 > 0,
    ;
    assert(y.0 * z.1 * x.1 < z.0 * y.1 * x.1) by (nonlinear_arith)
        requires
            y.0 * z.1 < z.0 * y.1,
            x.1 > 0,
    ;
    assert(y.0 * x.1 * z.1 == y.0 * z.1 * x.1) by (nonlinear_arith);
    assert(z.0 * y.1 * x.1 == y.1 * (z.0 * x.1)) by (nonlinear_arith);
    assert(x.0 * y.1 * z.1 == y.1 * (x.0 * z.1)) by (nonlinear_arith);
    assert(x.0 * z.1 < z.0 * x.1) by (nonlinear_arith)
        requires
            y.1 * (x.0 * z.1) < y.1 * (z.0 * x.1),
            y.1 > 0,
    ;
}

/// Every score is a fraction in [0, 1]; it is exactly 1 for the key that
/// equals the query, and below 1 for every other key.
pub proof fn lemma_key_score_facts(q: Seq<char>, k: Seq<char>)
    requires
        q.len() > 0,
    ensures
        score_wf(key_score(q, k)),
        k == q ==> key_score(q, k) == (1int, 1int),
        k != q ==> score_lt(key_score(q, k), (1, 1)),
{
    crate::text::lemma_utf8_len_ge(q);
    lemma_lev_bounds(q, k);
    crate::levenshtein::lemma_lev_zero(q, k);
    let qs = skeleton_spec(q);
    let ks = skeleton_spec(k);
    lemma_lev_bounds(qs, ks);
    let d = direct_score(q, k);
    let s = skeleton_score(qs, ks);
    assert(score_wf(d));
    assert(score_wf(s));
    if qs.len() >= 3 && ks.len() >= 3 && qs != ks {
        let m = max_nat(qs.len(), ks.len());
        assert(s.0 == 4 * (m - lev(qs, ks)));
        assert(s.1 == 5 * m);
        assert(s.0 * 1 < 1 * s.1);
    }
    assert(score_lt(s, (1, 1)));
    if k != q {
        assert(score_lt(d, (1, 1)));
    }
}

/// `a/b < c/d`, decided exactly by comparing integer parts and recursing on
/// the reciprocals of the remainders (no products, so no overflow).
pub fn frac_less(a: u128, b: u128, c: u128, d: u128) -> (r: bool)
    requires
        b > 0,
        d > 0,
    ensures
        r == (a * d < c * b),
    decreases b + d,
{
    let qa = a / b;
    let qc = c / d;
    let ra = a % b;
    let rc = c % d;
    proof {
        assert(a == b * qa + ra) by (nonlinear_arith)
            requires
                b > 0,
                qa == a / b,
                ra == a % b,
        ;
        assert(c == d * qc + rc) by (nonlinear_arith)
            requires
                d > 0,
                qc == c / d,
                rc == c % d,
        ;
    }
    if qa < qc {
        proof {
            assert(a * d < c * b) by (nonlinear_arith)
                requires
                    a == b * qa + ra,
                    c == d * qc + rc,
                    0 <= ra < b,
                    0 <= rc < d,
                    qa < qc,
                    b > 0,
                    d > 0,
            ;
        }
        return true;
    }
    if qa > qc {
        proof {
            assert(c * b < a * d) by (nonlinear_arith)
                requires
                    a == b * qa + ra,
                    c == d * qc + rc,
                    0 <= ra < b,
                    0 <= rc < d,
                    qc < qa,
                    b > 0,
                    d > 0,
            ;
        }
        return false;
    }
    proof {
        assert(a * d - c * b == ra * d - rc * b) by (nonlinear_arith)
            requires
                a == b * qa + ra,
                c == d * qc + rc,
                qa == qc,
        ;
    }
    if ra == 0 {
        proof {
            assert(rc * b > 0 <==> rc > 0) by (nonlinear_arith)
                requires
                    b > 0,
                    rc >= 0,
            ;
        }
        assert(ra * d == 0) by (nonlinear_arith)
            requires
                ra == 0,
        ;
        return rc != 0;
    }
    if rc == 0 {
        proof {
            assert(rc * b == 0) by (nonlinear_arith)
                requires
                    rc == 0,
            ;
            assert(ra * d > 0) by (nonlinear_arith)
                requires
                    ra > 0,
                    d > 0,
            ;
        }
        return false;
    }
    let r = frac_less(d, rc, b, ra);
    proof {
        assert(d * ra == ra * d && b * rc == rc * b) by (nonlinear_arith);
    }
    r
}

/// The larger of two counts.
fn max_u128(a: u128, b: u128) -> (r: u128)
    ensures
        r == max_nat(a as nat, b as nat),
{
    if a >= b {
        a
    } else {
        b
    }
}

/// Direct similarity score of key `k` for query `q`, as a fraction.
fn direct_score_exec(q: &Vec<char>, k: &Vec<char>, qb: u128) -> (r: (u128, u128))
    requires
        q@.len() > 0,
        qb == utf8_len(q@),
        qb <= 4 * q@.len(),
    ensures
        r.0 == direct_score(q@, k@).0,
        r.1 == direct_score(q@, k@).1,
        score_wf(direct_score(q@, k@)),
{
    if chars_eq(k, q) {
        return (1, 1);
    }
    let ql = q.len();
    let kl = k.len();
    let in_key = find_exec(k, q).is_some();
    let in_query = find_exec(q, k).is_some();
    if in_key || in_query {
        let kb = utf8_len_chars(k);
        proof {
            crate::text::lemma_utf8_len_ge(q@);
        }
        let a = if kb <= qb {
            kb
        } else {
            qb
        };
        let b = max_u128(kb, qb);
        return (6 * b + 3 * a, 10 * b);
    }
    let d = levenshtein_chars(q, k);
    proof {
        lemma_lev_bounds(q@, k@);
    }
    let m = if q.len() >= k.len() {
        q.len()
    } else {
        k.len()
    };
    let m = if m >= 1 {
        m
    } else {
        1
    };
    ((m - d) as u128, m as u128)
}

/// Skeleton similarity score, as a fraction.
fn skeleton_score_exec(qs: &Vec<char>, ks: &Vec<char>) -> (r: (u128, u128))
    ensures
        r.0 == skeleton_score(qs@, ks@).0,
        r.1 == skeleton_score(qs@, ks@).1,
        score_wf(skeleton_score(qs@, ks@)),
{
    if qs.len() >= 3 && ks.len() >= 3 {
        if chars_eq(qs, ks) {
            (17, 20)
        } else {
            let d = levenshtein_chars(qs, ks);
            proof {
                lemma_lev_bounds(qs@, ks@);
            }
            let m = if qs.len() >= ks.len() {
                qs.len()
            } else {
                ks.len()
            };
            (4 * ((m - d) as u128), 5 * (m as u128))
        }
    } else {
        (0, 1)
    }
}

/// The key that best matches `query`: its index in `keys`, or `None` when the
/// trimmed query is empty or no key scores at least 3/5. Ties go to the
/// earlier key.
pub fn best_match(query: &str, keys: &Vec<String>) -> (r: Option<usize>)
    ensures
        r matches Some(i) ==> best_index(query@, strings_view(keys@)) == Some(i as int),
        r is None ==> best_index(query@, strings_view(keys@)) is None,
        trim(query@).len() == 0 ==> r is None,
        trim(query@).len() > 0 ==> (r is None <==> forall|j: int|
            0 <= j < keys@.len() ==> score_lt(#[trigger] key_score(trim(query@), keys@[j]@), threshold())),
        r matches Some(i) ==> {
            &&& i < keys@.len()
            &&& !score_lt(key_score(trim(query@), keys@[i as int]@), threshold())
            &&& forall|j: int|
                0 <= j < keys@.len() ==> !score_lt(
                    key_score(trim(query@), keys@[i as int]@),
                    #[trigger] key_score(trim(query@), keys@[j]@),
                )
            &&& forall|j: int|
                0 <= j < i ==> score_lt(
                    #[trigger] key_score(trim(query@), keys@[j]@),
                    key_score(trim(query@), keys@[i as int]@),
                )
        },
{
    let qv = chars_of(query);
    let q = trim_chars(&qv);
    if q.len() == 0 {
        proof {
            assert forall|i: int| !is_best(query@, strings_view(keys@), i) by {}
        }
        return None;
    }
    let ghost qq = q@;
    let qstr = string_from_chars(&q);
    let qs = skeleton_chars(qstr.as_str());
    let qb = utf8_len_chars(&q);
    let mut best: Option<(usize, u128, u128)> = None;
    let mut i: usize = 0;
    while i < keys.len()
        invariant
            i <= keys@.len(),
            qq == trim(query@),
            q@ == qq,
            qq.len() > 0,
            qs@ == skeleton_spec(qq),
            qb == utf8_len(qq),
            qb <= 4 * q@.len(),
            i == 0 <==> best is None,
            best matches Some((bi, bn, bd)) ==> {
                &&& bi < i
                &&& bn == key_score(qq, keys@[bi as int]@).0
                &&& bd == key_score(qq, keys@[bi as int]@).1
                &&& forall|j: int|
                    0 <= j < i ==> !score_lt((bn as int, bd as int), #[trigger] key_score(qq, keys@[j]@))
                &&& forall|j: int|
                    0 <= j < bi ==> score_lt(#[trigger] key_score(qq, keys@[j]@), (bn as int, bd as int))
            },
            forall|j: int| 0 <= j < i ==> score_wf(#[trigger] key_score(qq, keys@[j]@)),
        decreases keys@.len() - i,
    {
        let key = &keys[i];
        let k = chars_of(key.as_str());
        let (dn, dd) = direct_score_exec(&q, &k, qb);
        let ks = skeleton_chars(key.as_str());
        let (sn, sd) = skeleton_score_exec(&qs, &ks);
        let (n, d) = if frac_less(dn, dd, sn, sd) {
            (sn, sd)
        } else {
            (dn, dd)
        };
        let ghost sc = key_score(qq, keys@[i as int]@);
        assert(n == sc.0 && d == sc.1);
        match best {
            None => {
                best = Some((i, n, d));
            },
            Some((bi, bn, bd)) => {
                if frac_less(bn, bd, n, d) {
                    proof {
                        assert forall|j: int| 0 <= j < i + 1 implies !score_lt(
                            (n as int, d as int),
                            #[trigger] key_score(qq, keys@[j]@),
                        ) by {
                            if j < i {
                                lemma_le_lt_trans(key_score(qq, keys@[j]@), (bn as int, bd as int), sc);
                            }
                        }
                        assert forall|j: int| 0 <= j < i implies score_lt(
                            #[trigger] key_score(qq, keys@[j]@),
                            (n as int, d as int),
                        ) by {
                            lemma_le_lt_trans(key_score(qq, keys@[j]@), (bn as int, bd as int), sc);
                        }
                    }
                    best = Some((i, n, d));
                }
            },
        }
        i = i + 1;
    }
    proof {
        assert forall|j: int| 0 <= j < keys@.len() implies {
            &&& score_wf(#[trigger] key_score(qq, keys@[j]@))
            &&& keys@[j]@ == qq ==> key_score(qq, keys@[j]@) == (1int, 1int)
            &&& keys@[j]@ != qq ==> score_lt(key_score(qq, keys@[j]@), (1, 1))
        } by {
            lemma_key_score_facts(qq, keys@[j]@);
        }
    }
    match best {
        None => {
            proof {
                assert(keys@.len() == 0);
                assert forall|i: int| !is_best(query@, strings_view(keys@), i) by {}
            }
            None
        },
        Some((bi, bn, bd)) => {
            if frac_less(bn, bd, 3, 5) {
                proof {
                    assert forall|i: int| !is_best(query@, strings_view(keys@), i) by {
                        if is_best(query@, strings_view(keys@), i) {
                            assert(strings_view(keys@)[i] == keys@[i]@);
                            lemma_le_lt_trans(key_score(qq, keys@[i]@), (bn as int, bd as int), threshold());
                        }
                    }
                    assert forall|j: int| 0 <= j < keys@.len() implies score_lt(
                        #[trigger] key_score(qq, keys@[j]@),
                        threshold(),
                    ) by {
                        lemma_le_lt_trans(key_score(qq, keys@[j]@), (bn as int, bd as int), threshold());
                    }
                }
                None
            } else {
                proof {
                    let kv = strings_view(keys@);
                    assert forall|j: int| 0 <= j < kv.len() implies #[trigger] kv[j] == keys@[j]@ by {}
                    assert(is_best(query@, kv, bi as int));
                    let c = choose|i: int| is_best(query@, kv, i);
                    lemma_best_unique(query@, kv, c, bi as int);
                }
                Some(bi)
            }
        },
    }
}

/// Direct similarity does not depend on which text is the query: whether
/// the key lies inside the query or the query inside the key, or neither,
/// both orders score the same.
pub proof fn lemma_direct_score_symmetric(q: Seq<char>, k: Seq<char>)
    ensures
        direct_score(q, k) == direct_score(k, q),
{
    crate::levenshtein::lemma_lev_symmetric(q, k);
}

/// A key that occurs inside the query, or contains it, always counts as a
/// match: its score is at least 3/5.
pub proof fn lemma_contained_key_matches(q: Seq<char>, k: Seq<char>)
    requires
        contains(q, k) || contains(k, q),
    ensures
        !score_lt(direct_score(q, k), threshold()),
        !score_lt(key_score(q, k), threshold()),
{
    let d = direct_score(q, k);
    let s = skeleton_score(skeleton_spec(q), skeleton_spec(k));
    crate::text::lemma_utf8_len_ge(q);
    crate::text::lemma_utf8_len_ge(k);
    if k != q && q.len() == 0 && k.len() == 0 {
        assert(q =~= k);
    }
    if score_lt(d, s) {
        assert(s.1 > 0);
        if score_lt(s, threshold()) {
            lemma_le_lt_trans(d, s, threshold());
        }
    }
}

} // verus!
