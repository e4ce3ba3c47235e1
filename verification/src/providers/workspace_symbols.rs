//! Answering workspace symbol queries: the symbols whose identifying string
//! fuzzy-matches the query, best match first.

use fuzzy_matcher::FuzzyMatcher;
use fuzzy_matcher::skim::SkimMatcherV2;
use vstd::prelude::*;
use crate::ordering::{find_insertion_point, insertion_order, lemma_insertion_order_elements, lemma_insertion_order_sorted, lemma_insertion_point_bounds, lemma_lex_lt_irreflexive, lemma_lex_lt_transitive, lex_lt, str_lt};

verus! {

/// What a symbol offers to queries: the string it is matched by, and its
/// name, which orders symbols of equal rank.
pub struct WorkspaceSymbolData {
    /// A string identifying the symbol; queries match against it.
    pub id_string: String,
    pub name: String,
}

/// The score of matching `pattern` against `choice` with the skim
/// algorithm's default settings, if it matches.
pub uninterp spec fn skim_fuzzy_match(choice: Seq<char>, pattern: Seq<char>) -> Option<i64>;

/// `SkimMatcherV2::default().fuzzy_match(choice, pattern)` from
/// fuzzy-matcher: the score of the match, or `None` where the pattern does
/// not match. Its result is taken as a function of the two strings alone
/// (the matcher's caches only hold buffers); nothing more is stated of it.
#[verifier::external_body]
fn fuzzy_match(choice: &str, pattern: &str) -> (r: Option<i64>)
    ensures
        r == skim_fuzzy_match(choice@, pattern@),
{
    SkimMatcherV2::default().fuzzy_match(choice, pattern)
}

/// Positions of the symbols that matched, in order.
pub open spec fn matched_positions(ranks: Seq<Option<i64>>) -> Seq<int>
    decreases ranks.len(),
{
    if ranks.len() == 0 {
        Seq::empty()
    } else {
        let r = matched_positions(ranks.drop_last());
        if ranks.last() is Some {
            r.push(ranks.len() - 1)
        } else {
            r
        }
    }
}

/// Symbol `a` ranks strictly before symbol `b`: a higher rank, or an equal
/// rank and a name later in lexicographic order (the order is descending).
pub open spec fn ranks_before(rank_a: Option<i64>, name_a: Seq<char>, rank_b: Option<i64>, name_b: Seq<char>) -> bool {
    let ra = match rank_a { Some(x) => x as int, None => i64::MIN - 1 };
    let rb = match rank_b { Some(x) => x as int, None => i64::MIN - 1 };
    ra > rb || (ra == rb && lex_lt(name_b, name_a))
}

/// Strict order between positions of `matched`.
pub open spec fn match_lt(data: Seq<WorkspaceSymbolData>, ranks: Seq<Option<i64>>, matched: Seq<int>) -> spec_fn(int, int) -> bool {
    |a: int, b: int| ranks_before(ranks[matched[a]], data[matched[a]].name@, ranks[matched[b]], data[matched[b]].name@)
}

/// The symbols that matched, best first (stably among equals).
pub open spec fn ranked(data: Seq<WorkspaceSymbolData>, ranks: Seq<Option<i64>>) -> Seq<int> {
    let matched = matched_positions(ranks);
    insertion_order(matched.len(), match_lt(data, ranks, matched)).map_values(|p: int| matched[p])
}

/// The ranks that a query gives the symbols.
pub open spec fn query_ranks(data: Seq<WorkspaceSymbolData>, query: Seq<char>) -> Seq<Option<i64>> {
    Seq::new(data.len(), |i: int| skim_fuzzy_match(data[i].id_string@, query))
}

pub proof fn lemma_matched_positions(ranks: Seq<Option<i64>>)
    ensures
        forall|k: int| 0 <= k < matched_positions(ranks).len() ==> 0 <= #[trigger] matched_positions(ranks)[k] < ranks.len()
            && ranks[matched_positions(ranks)[k]] is Some,
    decreases ranks.len(),
{
    if ranks.len() > 0 {
        lemma_matched_positions(ranks.drop_last());
    }
}

fn rank_lt(ra: Option<i64>, na: &str, rb: Option<i64>, nb: &str) -> (r: bool)
    ensures
        r == ranks_before(ra, na@, rb, nb@),
{
    let ka: i128 = match ra { Some(x) => x as i128, None => (i64::MIN as i128) - 1 };
    let kb: i128 = match rb { Some(x) => x as i128, None => (i64::MIN as i128) - 1 };
    ka > kb || (ka == kb && str_lt(nb, na))
}

/// Orders the symbols by the ranks that a query gave them: those that
/// matched, best first; among equal ranks, later names first.
pub fn rank_symbols(data: &Vec<WorkspaceSymbolData>, ranks: &Vec<Option<i64>>) -> (r: Vec<usize>)
    requires
        ranks@.len() == data@.len(),
    ensures
        r@.map_values(|x: usize| x as int) == ranked(data@, ranks@),
{
    let ghost rv = ranks@;
    let mut matched: Vec<usize> = Vec::new();
    let mut i: usize = 0;
    while i < ranks.len()
        invariant
            i <= rv.len(),
            rv == ranks@,
            matched@.map_values(|x: usize| x as int) == matched_positions(rv.take(i as int)),
            forall|k: int| 0 <= k < matched@.len() ==> #[trigger] matched@[k] < i,
        decreases rv.len() - i,
    {
        assert(rv.take(i + 1).drop_last() =~= rv.take(i as int));
        let ghost before = matched@;
        if ranks[i].is_some() {
            matched.push(i);
            assert(matched@.map_values(|x: usize| x as int) =~= before.map_values(|x: usize| x as int).push(i as int));
        }
        i = i + 1;
    }
    assert(rv.take(rv.len() as int) =~= rv);
    let ghost mv = matched@.map_values(|x: usize| x as int);
    let ghost lt = match_lt(data@, ranks@, mv);
    let mut order: Vec<usize> = Vec::new();
    let mut j: usize = 0;
    while j < matched.len()
        invariant
            j <= matched@.len(),
            mv == matched@.map_values(|x: usize| x as int),
            lt == match_lt(data@, ranks@, mv),
            ranks@.len() == data@.len(),
            forall|k: int| 0 <= k < matched@.len() ==> #[trigger] matched@[k] < data@.len(),
            order@.map_values(|x: usize| x as int) == insertion_order(j as nat, lt),
            order@.len() == j,
            forall|q: int| 0 <= q < order@.len() ==> #[trigger] order@[q] < j,
        decreases matched@.len() - j,
    {
        let ghost ov = order@.map_values(|x: usize| x as int);
        let mut above: Vec<bool> = Vec::new();
        let mut p: usize = 0;
        while p < order.len()
            invariant
                p <= order@.len(),
                j < matched@.len(),
                mv == matched@.map_values(|x: usize| x as int),
                lt == match_lt(data@, ranks@, mv),
                ranks@.len() == data@.len(),
                forall|k: int| 0 <= k < matched@.len() ==> #[trigger] matched@[k] < data@.len(),
                ov == order@.map_values(|x: usize| x as int),
                forall|q: int| 0 <= q < order@.len() ==> #[trigger] order@[q] < j,
                above@.len() == p,
                forall|q: int| 0 <= q < p ==> #[trigger] above@[q] == lt(j as int, ov[q]),
            decreases order@.len() - p,
        {
            let a = matched[j];
            let b = matched[order[p]];
            above.push(rank_lt(ranks[a], data[a].name.as_str(), ranks[b], data[b].name.as_str()));
            p = p + 1;
        }
        let ip = find_insertion_point(&above, Ghost(ov), Ghost(j as int), Ghost(lt));
        proof {
            lemma_insertion_point_bounds(ov, j as int, lt);
        }
        order.insert(ip, j);
        proof {
            assert(order@.map_values(|x: usize| x as int) =~= ov.insert(ip as int, j as int));
        }
        j = j + 1;
        assert forall|q: int| 0 <= q < order@.len() implies #[trigger] order@[q] < j by {
            lemma_insertion_order_elements(j as nat, lt);
            assert(order@.map_values(|x: usize| x as int)[q] == order@[q] as int);
        }
    }
    proof {
        lemma_insertion_order_elements(mv.len(), lt);
    }
    let mut r: Vec<usize> = Vec::new();
    let mut k: usize = 0;
    while k < order.len()
        invariant
            k <= order@.len(),
            order@.len() == matched@.len(),
            order@.map_values(|x: usize| x as int) == insertion_order(mv.len(), lt),
            forall|q: int| 0 <= q < order@.len() ==> #[trigger] order@[q] < matched@.len(),
            mv == matched@.map_values(|x: usize| x as int),
            r@.len() == k,
            forall|q: int| 0 <= q < k ==> #[trigger] r@[q] == matched@[order@[q] as int],
        decreases order@.len() - k,
    {
        r.push(matched[order[k]]);
        k = k + 1;
    }
    assert(r@.map_values(|x: usize| x as int) =~= ranked(data@, ranks@)) by {
        assert forall|q: int| 0 <= q < r@.len() implies r@.map_values(|x: usize| x as int)[q] == ranked(data@, ranks@)[q] by {
            assert(order@.map_values(|x: usize| x as int)[q] == order@[q] as int);
        }
    }
    r
}

/// The symbols that answer a query, as positions in `data`: all of them in
/// order for an empty query; otherwise those whose identifying string
/// fuzzy-matches the query, best first.
pub fn query_workspace_symbols(data: &Vec<WorkspaceSymbolData>, query: &str) -> (r: Vec<usize>)
    ensures
        query@.len() == 0 ==> r@.map_values(|x: usize| x as int) == Seq::new(data@.len(), |i: int| i),
        query@.len() > 0 ==> r@.map_values(|x: usize| x as int) == ranked(data@, query_ranks(data@, query@)),
{
    if query.unicode_len() == 0 {
        let mut r: Vec<usize> = Vec::new();
        let mut i: usize = 0;
        while i < data.len()
            invariant
                i <= data@.len(),
                r@.len() == i,
                forall|q: int| 0 <= q < i ==> #[trigger] r@[q] == q,
            decreases data@.len() - i,
        {
            r.push(i);
            i = i + 1;
        }
        assert(r@.map_values(|x: usize| x as int) =~= Seq::new(data@.len(), |i: int| i));
        return r;
    }
    let mut ranks: Vec<Option<i64>> = Vec::new();
    let mut i: usize = 0;
    while i < data.len()
        invariant
            i <= data@.len(),
            ranks@.len() == i,
            forall|q: int| 0 <= q < i ==> #[trigger] ranks@[q] == skim_fuzzy_match(data@[q].id_string@, query@),
        decreases data@.len() - i,
    {
        ranks.push(fuzzy_match(data[i].id_string.as_str(), query));
        i = i + 1;
    }
    assert(ranks@ =~= query_ranks(data@, query@));
    rank_symbols(data, &ranks)
}

/// The answer to a query is ordered best first: no symbol comes after one
/// that it ranks strictly before.
pub proof fn lemma_ranked_in_order(data: Seq<WorkspaceSymbolData>, ranks: Seq<Option<i64>>)
    requires
        ranks.len() == data.len(),
    ensures
        forall|p: int, q: int|
            0 <= p < q < ranked(data, ranks).len() ==> !ranks_before(
                ranks[#[trigger] ranked(data, ranks)[q]],
                data[ranked(data, ranks)[q]].name@,
                ranks[#[trigger] ranked(data, ranks)[p]],
                data[ranked(data, ranks)[p]].name@,
            ),
{
    let matched = matched_positions(ranks);
    let lt = match_lt(data, ranks, matched);
    let n = matched.len();
    lemma_matched_positions(ranks);
    assert forall|a: int| 0 <= a < n implies !#[trigger] lt(a, a) by {
        lemma_lex_lt_irreflexive(data[matched[a]].name@);
    }
    assert forall|a: int, b: int, c: int|
        0 <= a < n && 0 <= b < n && 0 <= c < n && #[trigger] lt(a, b) && #[trigger] lt(b, c) implies lt(a, c) by {
        let (na, nb, nc) = (data[matched[a]].name@, data[matched[b]].name@, data[matched[c]].name@);
        if lex_lt(nb, na) && lex_lt(nc, nb) {
            lemma_lex_lt_transitive(nc, nb, na);
        }
    }
    lemma_insertion_order_sorted(n, lt);
    lemma_insertion_order_elements(n, lt);
    let o = insertion_order(n, lt);
    assert forall|p: int, q: int| 0 <= p < q < ranked(data, ranks).len() implies !ranks_before(
        ranks[#[trigger] ranked(data, ranks)[q]],
        data[ranked(data, ranks)[q]].name@,
        ranks[#[trigger] ranked(data, ranks)[p]],
        data[ranked(data, ranks)[p]].name@,
    ) by {
        assert(ranked(data, ranks)[q] == matched[o[q]]);
        assert(ranked(data, ranks)[p] == matched[o[p]]);
        assert(!lt(o[q], o[p]));
    }
}

} // verus!
