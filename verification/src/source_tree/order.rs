//! The order of paths: component by component, each component in the
//! lexicographic order of its characters (the order of `Path`'s `Ord`).

use vstd::prelude::*;
use crate::ordering::{lex_lt, lemma_lex_lt_transitive, lemma_lex_lt_total, lemma_lex_lt_asymmetric, str_lt};
use crate::paths::str_eq;

verus! {

/// Strictly-less between paths given by their components.
pub open spec fn path_lt(a: Seq<Seq<char>>, b: Seq<Seq<char>>) -> bool
    decreases a.len(),
{
    if a.len() == 0 {
        b.len() > 0
    } else if b.len() == 0 {
        false
    } else if a[0] == b[0] {
        path_lt(a.drop_first(), b.drop_first())
    } else {
        lex_lt(a[0], b[0])
    }
}

pub proof fn lemma_path_lt_irreflexive(a: Seq<Seq<char>>)
    ensures
        !path_lt(a, a),
    decreases a.len(),
{
    if a.len() > 0 {
        lemma_path_lt_irreflexive(a.drop_first());
    }
}

pub proof fn lemma_path_lt_transitive(a: Seq<Seq<char>>, b: Seq<Seq<char>>, c: Seq<Seq<char>>)
    requires
        path_lt(a, b),
        path_lt(b, c),
    ensures
        path_lt(a, c),
    decreases a.len(),
{
    if a.len() > 0 && b.len() > 0 && c.len() > 0 {
        if a[0] == b[0] && b[0] == c[0] {
            lemma_path_lt_transitive(a.drop_first(), b.drop_first(), c.drop_first());
        } else if a[0] == b[0] {
            assert(lex_lt(b[0], c[0]));
        } else if b[0] == c[0] {
            assert(lex_lt(a[0], b[0]));
        } else {
            lemma_lex_lt_transitive(a[0], b[0], c[0]);
            if a[0] == c[0] {
                lemma_lex_lt_asymmetric(a[0], b[0]);
            }
        }
    }
}

pub proof fn lemma_path_lt_total(a: Seq<Seq<char>>, b: Seq<Seq<char>>)
    ensures
        path_lt(a, b) || path_lt(b, a) || a == b,
    decreases a.len(),
{
    if a.len() > 0 && b.len() > 0 {
        if a[0] == b[0] {
            lemma_path_lt_total(a.drop_first(), b.drop_first());
            if a.drop_first() == b.drop_first() {
                assert(a =~= seq![a[0]] + a.drop_first());
                assert(b =~= seq![b[0]] + b.drop_first());
            }
        } else {
            lemma_lex_lt_total(a[0], b[0]);
        }
    } else if a.len() == 0 && b.len() == 0 {
        assert(a =~= b);
    }
}

pub proof fn lemma_path_lt_asymmetric(a: Seq<Seq<char>>, b: Seq<Seq<char>>)
    requires
        path_lt(a, b),
    ensures
        !path_lt(b, a),
    decreases a.len(),
{
    if a.len() > 0 && b.len() > 0 {
        if a[0] == b[0] {
            lemma_path_lt_asymmetric(a.drop_first(), b.drop_first());
        } else {
            lemma_lex_lt_asymmetric(a[0], b[0]);
        }
    }
}

/// Paths under a common prefix compare as their parts after it.
pub proof fn lemma_path_lt_common_prefix(r: Seq<Seq<char>>, a: Seq<Seq<char>>, b: Seq<Seq<char>>)
    requires
        r.len() <= a.len(),
        r.len() <= b.len(),
        a.subrange(0, r.len() as int) == r,
        b.subrange(0, r.len() as int) == r,
    ensures
        path_lt(a, b) == path_lt(a.subrange(r.len() as int, a.len() as int), b.subrange(r.len() as int, b.len() as int)),
    decreases r.len(),
{
    if r.len() > 0 {
        assert(a[0] == r[0]);
        assert(b[0] == r[0]);
        let r1 = r.drop_first();
        assert(a.drop_first().subrange(0, r1.len() as int) =~= r1);
        assert(b.drop_first().subrange(0, r1.len() as int) =~= r1);
        lemma_path_lt_common_prefix(r1, a.drop_first(), b.drop_first());
        assert(a.drop_first().subrange(r1.len() as int, a.drop_first().len() as int) =~= a.subrange(r.len() as int, a.len() as int));
        assert(b.drop_first().subrange(r1.len() as int, b.drop_first().len() as int) =~= b.subrange(r.len() as int, b.len() as int));
    } else {
        assert(a.subrange(0, a.len() as int) =~= a);
        assert(b.subrange(0, b.len() as int) =~= b);
    }
}

/// The components of a list of strings.
pub open spec fn strs(v: Seq<String>) -> Seq<Seq<char>> {
    v.map_values(|s: String| s@)
}

/// Compares the components of `a` from `ai` on with those of `b` from `bi` on.
pub fn components_lt(a: &Vec<String>, ai: usize, b: &Vec<String>, bi: usize) -> (r: bool)
    requires
        ai <= a@.len(),
        bi <= b@.len(),
    ensures
        r == path_lt(strs(a@).subrange(ai as int, a@.len() as int), strs(b@).subrange(bi as int, b@.len() as int)),
{
    let ghost goal = path_lt(strs(a@).subrange(ai as int, a@.len() as int), strs(b@).subrange(bi as int, b@.len() as int));
    let mut i = ai;
    let mut j = bi;
    while i < a.len() && j < b.len()
        invariant
            ai <= i <= a@.len(),
            bi <= j <= b@.len(),
            i - ai == j - bi,
            goal == path_lt(strs(a@).subrange(ai as int, a@.len() as int), strs(b@).subrange(bi as int, b@.len() as int)),
            goal == path_lt(strs(a@).subrange(i as int, a@.len() as int), strs(b@).subrange(j as int, b@.len() as int)),
        decreases a@.len() - i,
    {
        let ghost sa = strs(a@).subrange(i as int, a@.len() as int);
        let ghost sb = strs(b@).subrange(j as int, b@.len() as int);
        assert(sa[0] == a@[i as int]@);
        assert(sb[0] == b@[j as int]@);
        let x = a[i].as_str();
        let y = b[j].as_str();
        assert(x@ == sa[0] && y@ == sb[0]);
        if !str_eq(x, y) {
            assert(goal == lex_lt(sa[0], sb[0]));
            return str_lt(x, y);
        }
        assert(sa.drop_first() =~= strs(a@).subrange(i + 1, a@.len() as int));
        assert(sb.drop_first() =~= strs(b@).subrange(j + 1, b@.len() as int));
        i = i + 1;
        j = j + 1;
    }
    i == a.len() && j < b.len()
}

} // verus!
