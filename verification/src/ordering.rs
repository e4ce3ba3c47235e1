//! Stable orderings: the lexicographic order of strings and stable
//! insertion orders of indices by a key.

use vstd::prelude::*;

verus! {

/// Strictly-less in the lexicographic order of character sequences (the
/// order of `str`'s `Ord`, which compares UTF-8 bytes and so code points).
pub open spec fn lex_lt(a: Seq<char>, b: Seq<char>) -> bool
    decreases a.len(),
{
    if a.len() == 0 {
        b.len() > 0
    } else if b.len() == 0 {
        false
    } else if a[0] < b[0] {
        true
    } else if a[0] > b[0] {
        false
    } else {
        lex_lt(a.drop_first(), b.drop_first())
    }
}

pub proof fn lemma_lex_lt_irreflexive(a: Seq<char>)
    ensures
        !lex_lt(a, a),
    decreases a.len(),
{
    if a.len() > 0 {
        lemma_lex_lt_irreflexive(a.drop_first());
    }
}

pub proof fn lemma_lex_lt_transitive(a: Seq<char>, b: Seq<char>, c: Seq<char>)
    requires
        lex_lt(a, b),
        lex_lt(b, c),
    ensures
        lex_lt(a, c),
    decreases a.len(),
{
    if a.len() > 0 && b.len() > 0 && c.len() > 0 {
        if a[0] == b[0] && b[0] == c[0] {
            lemma_lex_lt_transitive(a.drop_first(), b.drop_first(), c.drop_first());
        }
    }
}

pub proof fn lemma_lex_lt_total(a: Seq<char>, b: Seq<char>)
    ensures
        lex_lt(a, b) || lex_lt(b, a) || a == b,
    decreases a.len(),
{
    if a.len() > 0 && b.len() > 0 {
        if a[0] == b[0] {
            lemma_lex_lt_total(a.drop_first(), b.drop_first());
            if a.drop_first() == b.drop_first() {
                assert(a[0] == b[0]);
                assert(a =~= seq![a[0]] + a.drop_first());
                assert(b =~= seq![b[0]] + b.drop_first());
            }
        }
    } else if a.len() == 0 && b.len() == 0 {
        assert(a =~= b);
    }
}

pub proof fn lemma_lex_lt_asymmetric(a: Seq<char>, b: Seq<char>)
    requires
        lex_lt(a, b),
    ensures
        !lex_lt(b, a),
    decreases a.len(),
{
    if a.len() > 0 && b.len() > 0 && a[0] == b[0] {
        lemma_lex_lt_asymmetric(a.drop_first(), b.drop_first());
    }
}

/// Compares two strings in the lexicographic order.
pub fn str_lt(a: &str, b: &str) -> (r: bool)
    ensures
        r == lex_lt(a@, b@),
{
    let la = a.unicode_len();
    let lb = b.unicode_len();
    let mut i: usize = 0;
    assert(a@.subrange(0, la as int) =~= a@);
    assert(b@.subrange(0, lb as int) =~= b@);
    while i < la && i < lb
        invariant
            la == a@.len(),
            lb == b@.len(),
            i <= la,
            i <= lb,
            lex_lt(a@, b@) == lex_lt(a@.subrange(i as int, la as int), b@.subrange(i as int, lb as int)),
        decreases la - i,
    {
        let ca = a.get_char(i);
        let cb = b.get_char(i);
        let ghost sa = a@.subrange(i as int, la as int);
        let ghost sb = b@.subrange(i as int, lb as int);
        assert(sa[0] == ca && sb[0] == cb);
        if ca < cb {
            return true;
        }
        if ca > cb {
            return false;
        }
        assert(sa.drop_first() =~= a@.subrange(i + 1, la as int));
        assert(sb.drop_first() =~= b@.subrange(i + 1, lb as int));
        i = i + 1;
    }
    i == la && i < lb
}

/// The position at which `j` goes into `order` when inserted after every
/// index that `j` is not strictly below: the first position holding an
/// index strictly above `j` in `lt`, or the end.
pub open spec fn insertion_point(order: Seq<int>, j: int, lt: spec_fn(int, int) -> bool) -> int
    decreases order.len(),
{
    if order.len() == 0 {
        0
    } else if insertion_point(order.drop_last(), j, lt) < order.len() - 1 {
        insertion_point(order.drop_last(), j, lt)
    } else if lt(j, order.last()) {
        order.len() - 1
    } else {
        order.len() as int
    }
}

/// The indices `0..n` ordered by `lt`, stably: each index goes in after all
/// earlier ones that are not strictly above it.
pub open spec fn insertion_order(n: nat, lt: spec_fn(int, int) -> bool) -> Seq<int>
    decreases n,
{
    if n == 0 {
        Seq::empty()
    } else {
        let prev = insertion_order((n - 1) as nat, lt);
        prev.insert(insertion_point(prev, n - 1, lt), n - 1)
    }
}

pub proof fn lemma_insertion_point_bounds(order: Seq<int>, j: int, lt: spec_fn(int, int) -> bool)
    ensures
        0 <= insertion_point(order, j, lt) <= order.len(),
        forall|p: int|
            0 <= p < insertion_point(order, j, lt) ==> !lt(j, #[trigger] order[p]),
        insertion_point(order, j, lt) < order.len() ==> lt(j, order[insertion_point(order, j, lt)]),
    decreases order.len(),
{
    if order.len() > 0 {
        lemma_insertion_point_bounds(order.drop_last(), j, lt);
        assert forall|p: int| 0 <= p < insertion_point(order, j, lt) implies !lt(j, #[trigger] order[p]) by {
            if p < order.len() - 1 {
                assert(order[p] == order.drop_last()[p]);
            }
        }
    }
}

pub proof fn lemma_insertion_order_len(n: nat, lt: spec_fn(int, int) -> bool)
    ensures
        insertion_order(n, lt).len() == n,
    decreases n,
{
    if n > 0 {
        lemma_insertion_order_len((n - 1) as nat, lt);
        lemma_insertion_point_bounds(insertion_order((n - 1) as nat, lt), n - 1, lt);
    }
}

pub proof fn lemma_insertion_order_elements(n: nat, lt: spec_fn(int, int) -> bool)
    ensures
        insertion_order(n, lt).len() == n,
        forall|p: int| 0 <= p < n ==> 0 <= #[trigger] insertion_order(n, lt)[p] < n,
        insertion_order(n, lt).no_duplicates(),
    decreases n,
{
    lemma_insertion_order_len(n, lt);
    if n > 0 {
        let prev = insertion_order((n - 1) as nat, lt);
        lemma_insertion_order_elements((n - 1) as nat, lt);
        lemma_insertion_point_bounds(prev, n - 1, lt);
        let ip = insertion_point(prev, n - 1, lt);
        let cur = prev.insert(ip, n - 1);
        assert forall|p: int| 0 <= p < n implies 0 <= #[trigger] cur[p] < n by {
            if p < ip {
                assert(cur[p] == prev[p]);
            } else if p > ip {
                assert(cur[p] == prev[p - 1]);
            }
        }
        assert forall|a: int, b: int| 0 <= a < cur.len() && 0 <= b < cur.len() && a != b implies cur[a] != cur[b] by {
            if a != ip && b != ip {
                let pa = if a < ip { a } else { a - 1 };
                let pb = if b < ip { b } else { b - 1 };
                assert(cur[a] == prev[pa]);
                assert(cur[b] == prev[pb]);
            } else if a == ip {
                let pb = if b < ip { b } else { b - 1 };
                assert(cur[b] == prev[pb]);
            } else {
                let pa = if a < ip { a } else { a - 1 };
                assert(cur[a] == prev[pa]);
            }
        }
    }
}

/// Finds where `j` goes into `order` (see [`insertion_point`]), given the
/// strict comparison of `j` with each element as `above[p]`.
pub fn find_insertion_point(above: &Vec<bool>, Ghost(order): Ghost<Seq<int>>, Ghost(j): Ghost<int>, Ghost(lt): Ghost<spec_fn(int, int) -> bool>) -> (r: usize)
    requires
        above@.len() == order.len(),
        forall|p: int| 0 <= p < order.len() ==> #[trigger] above@[p] == lt(j, order[p]),
    ensures
        r == insertion_point(order, j, lt),
{
    let n = above.len();
    let mut p: usize = 0;
    while p < n && !above[p]
        invariant
            n == order.len(),
            n == above@.len(),
            p <= n,
            forall|q: int| 0 <= q < p ==> !lt(j, #[trigger] order[q]),
            forall|q: int| 0 <= q < order.len() ==> #[trigger] above@[q] == lt(j, order[q]),
        decreases n - p,
    {
        p = p + 1;
    }
    proof {
        lemma_insertion_point_first_above(order, j, lt, p as int);
    }
    p
}

/// The insertion point is the first position whose element is strictly
/// above `j`.
pub proof fn lemma_insertion_point_first_above(order: Seq<int>, j: int, lt: spec_fn(int, int) -> bool, p: int)
    requires
        0 <= p <= order.len(),
        forall|q: int| 0 <= q < p ==> !lt(j, #[trigger] order[q]),
        p < order.len() ==> lt(j, order[p]),
    ensures
        insertion_point(order, j, lt) == p,
    decreases order.len(),
{
    if order.len() > 0 {
        let prev = order.drop_last();
        if p < order.len() {
            lemma_insertion_point_first_above(prev, j, lt, if p < prev.len() { p } else { prev.len() as int });
            if p < prev.len() {
                assert(lt(j, prev[p]));
            } else {
                assert forall|q: int| 0 <= q < prev.len() implies !lt(j, #[trigger] prev[q]) by {
                    assert(prev[q] == order[q]);
                }
            }
        } else {
            assert forall|q: int| 0 <= q < prev.len() implies !lt(j, #[trigger] prev[q]) by {
                assert(prev[q] == order[q]);
            }
            lemma_insertion_point_first_above(prev, j, lt, prev.len() as int);
        }
    }
}


/// `lt` is a strict order on `0..n`: irreflexive and transitive.
pub open spec fn strict_order_on(n: nat, lt: spec_fn(int, int) -> bool) -> bool {
    &&& forall|a: int| 0 <= a < n ==> !#[trigger] lt(a, a)
    &&& forall|a: int, b: int, c: int|
        0 <= a < n && 0 <= b < n && 0 <= c < n && #[trigger] lt(a, b) && #[trigger] lt(b, c) ==> lt(a, c)
}

/// The insertion order is sorted: no index comes after one that it is
/// strictly below.
pub proof fn lemma_insertion_order_sorted(n: nat, lt: spec_fn(int, int) -> bool)
    requires
        strict_order_on(n, lt),
    ensures
        forall|p: int, q: int|
            0 <= p < q < n ==> !lt(#[trigger] insertion_order(n, lt)[q], #[trigger] insertion_order(n, lt)[p]),
    decreases n,
{
    if n > 0 {
        let prev = insertion_order((n - 1) as nat, lt);
        assert(strict_order_on((n - 1) as nat, lt));
        lemma_insertion_order_sorted((n - 1) as nat, lt);
        lemma_insertion_order_elements((n - 1) as nat, lt);
        lemma_insertion_point_bounds(prev, n - 1, lt);
        let ip = insertion_point(prev, n - 1, lt);
        let cur = prev.insert(ip, n - 1);
        let j = n - 1;
        assert(cur == insertion_order(n, lt));
        assert forall|p: int, q: int| 0 <= p < q < n implies !lt(#[trigger] cur[q], #[trigger] cur[p]) by {
            if q < ip {
                assert(cur[p] == prev[p] && cur[q] == prev[q]);
            } else if p > ip {
                assert(cur[p] == prev[p - 1] && cur[q] == prev[q - 1]);
            } else if q == ip {
                assert(cur[p] == prev[p]);
            } else if p == ip {
                assert(cur[q] == prev[q - 1]);
                assert(lt(j, prev[ip]));
                if lt(prev[q - 1], j) {
                    assert(lt(prev[q - 1], prev[ip]));
                    if q - 1 > ip {
                        assert(!lt(prev[q - 1], prev[ip]));
                    }
                }
            } else {
                assert(cur[p] == prev[p] && cur[q] == prev[q - 1]);
            }
        }
    }
}

} // verus!
