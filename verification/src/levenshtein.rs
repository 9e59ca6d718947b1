//! Levenshtein (edit) distance over characters.
use vstd::prelude::*;
use crate::text::chars_of;

verus! {

pub open spec fn min2(x: nat, y: nat) -> nat {
    if x <= y {
        x
    } else {
        y
    }
}

/// The edit distance between `a` and `b`: the least number of one-character
/// insertions, deletions and substitutions that turn `a` into `b`.
pub open spec fn lev(a: Seq<char>, b: Seq<char>) -> nat
    decreases a.len() + b.len(),
{
    if a.len() == 0 {
        b.len()
    } else if b.len() == 0 {
        a.len()
    } else {
        let cost: nat = if a.last() == b.last() {
            0
        } else {
            1
        };
        min2(
            min2(lev(a.drop_last(), b) + 1, lev(a, b.drop_last()) + 1),
            lev(a.drop_last(), b.drop_last()) + cost,
        )
    }
}

/// A text is at distance zero from itself.
pub proof fn lemma_lev_refl(a: Seq<char>)
    ensures
        lev(a, a) == 0,
    decreases a.len(),
{
    if a.len() > 0 {
        lemma_lev_refl(a.drop_last());
    }
}

/// The distance does not depend on the order of its arguments.
pub proof fn lemma_lev_symmetric(a: Seq<char>, b: Seq<char>)
    ensures
        lev(a, b) == lev(b, a),
    decreases a.len() + b.len(),
{
    if a.len() > 0 && b.len() > 0 {
        lemma_lev_symmetric(a.drop_last(), b);
        lemma_lev_symmetric(a, b.drop_last());
        lemma_lev_symmetric(a.drop_last(), b.drop_last());
    }
}

/// The distance is at most the length of the longer text and at least the
/// difference of the two lengths.
pub proof fn lemma_lev_bounds(a: Seq<char>, b: Seq<char>)
    ensures
        lev(a, b) <= if a.len() >= b.len() {
            a.len()
        } else {
            b.len()
        },
        lev(a, b) >= a.len() - b.len(),
        lev(a, b) >= b.len() - a.len(),
    decreases a.len() + b.len(),
{
    if a.len() > 0 && b.len() > 0 {
        lemma_lev_bounds(a.drop_last(), b);
        lemma_lev_bounds(a, b.drop_last());
        lemma_lev_bounds(a.drop_last(), b.drop_last());
    }
}

/// Only equal texts are at distance zero.
pub proof fn lemma_lev_zero(a: Seq<char>, b: Seq<char>)
    ensures
        lev(a, b) == 0 <==> a == b,
    decreases a.len() + b.len(),
{
    if a == b {
        lemma_lev_refl(a);
    } else if a.len() > 0 && b.len() > 0 {
        lemma_lev_zero(a.drop_last(), b.drop_last());
        if lev(a, b) == 0 {
            assert(a.drop_last() == b.drop_last());
            assert(a.last() == b.last());
            assert(a =~= a.drop_last().push(a.last()));
            assert(b =~= b.drop_last().push(b.last()));
        }
    } else if a.len() == 0 {
        if b.len() == 0 {
            assert(a =~= b);
        }
    } else {
        if a.len() == 0 {
            assert(a =~= b);
        }
    }
}

/// The distance obeys the triangle inequality.
pub proof fn lemma_lev_triangle(a: Seq<char>, b: Seq<char>, c: Seq<char>)
    ensures
        lev(a, c) <= lev(a, b) + lev(b, c),
    decreases a.len() + b.len() + c.len(),
{
    if a.len() == 0 || c.len() == 0 {
        lemma_lev_bounds(a, b);
        lemma_lev_bounds(b, c);
        lemma_lev_bounds(a, c);
    } else if b.len() == 0 {
        lemma_lev_bounds(a, c);
    } else {
        let a1 = a.drop_last();
        let b1 = b.drop_last();
        let c1 = c.drop_last();
        let cab: nat = if a.last() == b.last() {
            0
        } else {
            1
        };
        let cbc: nat = if b.last() == c.last() {
            0
        } else {
            1
        };
        let dab = lev(a, b);
        let dbc = lev(b, c);
        if dab == lev(a1, b) + 1 {
            lemma_lev_triangle(a1, b, c);
        } else if dbc == lev(b, c1) + 1 {
            lemma_lev_triangle(a, b, c1);
        } else if dab == lev(a, b1) + 1 {
            if dbc == lev(b1, c) + 1 {
                lemma_lev_triangle(a, b1, c);
            } else {
                assert(dbc == lev(b1, c1) + cbc);
                lemma_lev_triangle(a, b1, c1);
            }
        } else {
            assert(dab == lev(a1, b1) + cab);
            if dbc == lev(b1, c) + 1 {
                lemma_lev_triangle(a1, b1, c);
            } else {
                assert(dbc == lev(b1, c1) + cbc);
                lemma_lev_triangle(a1, b1, c1);
            }
        }
    }
}

/// Minimum of two candidates that may have been capped at `usize::MAX`.
fn min_usize(x: usize, y: usize) -> (r: usize)
    ensures
        r == min2(x as nat, y as nat),
{
    if x <= y {
        x
    } else {
        y
    }
}

/// Edit distance between two character vectors (dynamic programming by rows).
pub fn levenshtein_chars(a: &Vec<char>, b: &Vec<char>) -> (r: usize)
    ensures
        r == lev(a@, b@),
{
    let n = a.len();
    let m = b.len();
    let mut prev: Vec<usize> = Vec::new();
    let mut j: usize = 0;
    while j < m
        invariant
            j <= m,
            m == b@.len(),
            prev@.len() == j,
            forall|t: int| 0 <= t < j ==> prev@[t] == t,
        decreases m - j,
    {
        prev.push(j);
        j = j + 1;
    }
    prev.push(m);
    proof {
        assert forall|t: int| 0 <= t <= m implies prev@[t] == lev(a@.take(0), b@.take(t)) by {
            assert(a@.take(0).len() == 0);
        }
    }
    let mut cur: Vec<usize> = prev.clone();
    let mut i: usize = 0;
    while i < n
        invariant
            i <= n,
            n == a@.len(),
            m == b@.len(),
            prev@.len() == m + 1,
            cur@.len() == m + 1,
            forall|t: int| 0 <= t <= m ==> prev@[t] == lev(a@.take(i as int), b@.take(t)),
        decreases n - i,
    {
        let ghost ai = a@.take(i as int);
        let ghost ai1 = a@.take(i + 1);
        cur.set(0, i + 1);
        proof {
            assert(b@.take(0).len() == 0);
        }
        let mut j: usize = 0;
        while j < m
            invariant
                i < n,
                n == a@.len(),
                m == b@.len(),
                j <= m,
                prev@.len() == m + 1,
                cur@.len() == m + 1,
                ai == a@.take(i as int),
                ai1 == a@.take(i + 1),
                forall|t: int| 0 <= t <= m ==> prev@[t] == lev(ai, b@.take(t)),
                forall|t: int| 0 <= t <= j ==> cur@[t] == lev(ai1, b@.take(t)),
            decreases m - j,
        {
            let cost: usize = if a[i] == b[j] {
                0
            } else {
                1
            };
            let best_edit = min_usize(prev[j + 1], cur[j]).saturating_add(1);
            let diag = prev[j].saturating_add(cost);
            let v = min_usize(best_edit, diag);
            proof {
                let bj1 = b@.take(j + 1);
                assert(ai1.drop_last() =~= ai);
                assert(bj1.drop_last() =~= b@.take(j as int));
                assert(ai1.last() == a@[i as int]);
                assert(bj1.last() == b@[j as int]);
                lemma_lev_bounds(ai1, bj1);
            }
            cur.set(j + 1, v);
            j = j + 1;
        }
        std::mem::swap(&mut prev, &mut cur);
        i = i + 1;
    }
    proof {
        assert(a@.take(n as int) =~= a@);
        assert(b@.take(m as int) =~= b@);
    }
    prev[m]
}

/// Levenshtein distance between two texts, counted in characters.
pub fn levenshtein(a: &str, b: &str) -> (r: usize)
    ensures
        r == lev(a@, b@),
{
    let av = chars_of(a);
    let bv = chars_of(b);
    levenshtein_chars(&av, &bv)
}

} // verus!
