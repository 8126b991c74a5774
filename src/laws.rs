use vstd::prelude::*;

use vstd::string::StringSliceAdditionalSpecFns;
use vstd::utf8::encode_utf8_decode_utf8;

use crate::lines::lines_of;
use crate::matching::occurs_in;
use crate::search::{bytes_of, folded, line_matches, matching_lines, MatchMode};

verus! {

/// The empty sequence occurs in every sequence.
pub proof fn lemma_occurs_empty<A>(hay: Seq<A>)
    ensures
        occurs_in(hay, Seq::<A>::empty()),
{
    let e = Seq::<A>::empty();
    assert(hay.subrange(0, 0int + e.len()) =~= e);
}

/// Filtering by a predicate that every element passes keeps the sequence whole.
pub proof fn lemma_filter_all<A>(s: Seq<A>, pred: spec_fn(A) -> bool)
    requires
        forall|i: int| 0 <= i < s.len() ==> #[trigger] pred(s[i]),
    ensures
        s.filter(pred) == s,
    decreases s.len(),
{
    reveal(Seq::filter);
    if s.len() > 0 {
        lemma_filter_all(s.drop_last(), pred);
        assert(s.drop_last().push(s.last()) =~= s);
    }
}

/// `idx` lists, in increasing order, positions of `all` whose elements make up
/// `picked` one for one, and it lists every position of `all` whose element
/// passes `pred`.
pub open spec fn is_ordered_selection<A>(
    picked: Seq<A>,
    all: Seq<A>,
    idx: Seq<int>,
    pred: spec_fn(A) -> bool,
) -> bool {
    &&& idx.len() == picked.len()
    &&& forall|k: int|
        0 <= k < idx.len() ==> 0 <= #[trigger] idx[k] < all.len() && picked[k] == all[idx[k]]
    &&& forall|k1: int, k2: int|
        0 <= k1 < k2 < idx.len() ==> #[trigger] idx[k1] < #[trigger] idx[k2]
    &&& forall|j: int|
        0 <= j < all.len() && pred(#[trigger] all[j]) ==> exists|k: int|
            0 <= k < idx.len() && #[trigger] idx[k] == j
}

/// A filter keeps, in order, exactly the elements that pass.
pub proof fn lemma_filter_selects<A>(s: Seq<A>, pred: spec_fn(A) -> bool) -> (idx: Seq<int>)
    ensures
        is_ordered_selection(s.filter(pred), s, idx, pred),
        forall|k: int| 0 <= k < s.filter(pred).len() ==> pred(#[trigger] s.filter(pred)[k]),
    decreases s.len(),
{
    reveal(Seq::filter);
    if s.len() == 0 {
        Seq::<int>::empty()
    } else {
        let rest = s.drop_last();
        let sub = lemma_filter_selects(rest, pred);
        let n = s.len() - 1;
        let out = s.filter(pred);
        if pred(s.last()) {
            let idx = sub.push(n);
            assert forall|j: int| 0 <= j < s.len() && pred(#[trigger] s[j]) implies exists|k: int|
                0 <= k < idx.len() && #[trigger] idx[k] == j by {
                if j == n {
                    assert(idx[sub.len() as int] == j);
                } else {
                    assert(rest[j] == s[j]);
                    let k = choose|k: int| 0 <= k < sub.len() && #[trigger] sub[k] == j;
                    assert(idx[k] == j);
                }
            }
            assert forall|k: int| 0 <= k < idx.len() implies 0 <= #[trigger] idx[k] < s.len()
                && out[k] == s[idx[k]] by {
                if k < sub.len() {
                    assert(rest[sub[k]] == s[sub[k]]);
                }
            }
            idx
        } else {
            assert forall|j: int| 0 <= j < s.len() && pred(#[trigger] s[j]) implies exists|k: int|
                0 <= k < sub.len() && #[trigger] sub[k] == j by {
                assert(rest[j] == s[j]);
            }
            assert forall|k: int| 0 <= k < sub.len() implies 0 <= #[trigger] sub[k] < s.len()
                && out[k] == s[sub[k]] by {
                assert(rest[sub[k]] == s[sub[k]]);
            }
            sub
        }
    }
}

/// Case-sensitive search is exact: every line it returns holds the query, and
/// it returns, in document order, every line of the text that holds the query.
pub proof fn lemma_case_sensitive_exact(query: Seq<u8>, text: Seq<u8>) -> (idx: Seq<int>)
    ensures
        forall|k: int|
            0 <= k < matching_lines(query, text, MatchMode::CaseSensitive).len() ==> occurs_in(
                #[trigger] matching_lines(query, text, MatchMode::CaseSensitive)[k],
                query,
            ),
        is_ordered_selection(
            matching_lines(query, text, MatchMode::CaseSensitive),
            lines_of(text),
            idx,
            |l: Seq<u8>| occurs_in(l, query),
        ),
{
    let pred = |l: Seq<u8>| line_matches(l, query, MatchMode::CaseSensitive);
    let idx = lemma_filter_selects(lines_of(text), pred);
    idx
}

/// Every line that case-sensitive search returns is also returned by
/// case-insensitive search for the same query and text, exactly when
/// lowercasing keeps every exact occurrence of the query in a line of the text.
/// (Lowercasing can break one: a capital sigma lowercases by its position in
/// a word, so the lowercased line and query may end up with different sigmas.)
pub proof fn lemma_insensitive_covers_sensitive(query: Seq<u8>, text: Seq<u8>)
    ensures
        (forall|k: int|
            0 <= k < matching_lines(query, text, MatchMode::CaseSensitive).len()
                ==> matching_lines(query, text, MatchMode::CaseInsensitive).contains(
                #[trigger] matching_lines(query, text, MatchMode::CaseSensitive)[k],
            )) <==> (forall|j: int|
            0 <= j < lines_of(text).len() && occurs_in(#[trigger] lines_of(text)[j], query)
                ==> occurs_in(folded(lines_of(text)[j]), folded(query))),
{
    let lines = lines_of(text);
    let ps = |l: Seq<u8>| line_matches(l, query, MatchMode::CaseSensitive);
    let pi = |l: Seq<u8>| line_matches(l, query, MatchMode::CaseInsensitive);
    let sens = lines.filter(ps);
    let insens = lines.filter(pi);
    let idx = lemma_filter_selects(lines, ps);
    lemma_filter_selects(lines, pi);
    assert(matching_lines(query, text, MatchMode::CaseSensitive) == sens);
    assert(matching_lines(query, text, MatchMode::CaseInsensitive) == insens);
    assert forall|j: int| 0 <= j < lines.len() implies (occurs_in(#[trigger] lines[j], query)
        == ps(lines[j])) && (occurs_in(folded(lines[j]), folded(query)) == pi(lines[j])) by {}
    if forall|k: int| 0 <= k < sens.len() ==> insens.contains(#[trigger] sens[k]) {
        assert forall|j: int|
            0 <= j < lines.len() && occurs_in(#[trigger] lines[j], query) implies occurs_in(
            folded(lines[j]),
            folded(query),
        ) by {
            assert(ps(lines[j]));
            let k = choose|k: int| 0 <= k < idx.len() && #[trigger] idx[k] == j;
            assert(sens[k] == lines[j]);
            assert(insens.contains(sens[k]));
            let m = choose|m: int| 0 <= m < insens.len() && insens[m] == sens[k];
            assert(pi(insens[m]));
        }
    }
    if forall|j: int|
        0 <= j < lines.len() && occurs_in(#[trigger] lines[j], query) ==> occurs_in(
            folded(lines[j]),
            folded(query),
        ) {
        assert forall|k: int| 0 <= k < sens.len() implies insens.contains(#[trigger] sens[k]) by {
            let j = idx[k];
            assert(sens[k] == lines[j]);
            assert(ps(sens[k]));
            lines.lemma_filter_contains(pi, j);
        }
    }
}

/// An empty text has no lines, so no search returns anything from it.
pub proof fn lemma_empty_text(query: Seq<u8>, mode: MatchMode)
    ensures
        matching_lines(query, Seq::<u8>::empty(), mode) == Seq::<Seq<u8>>::empty(),
{
    reveal(Seq::filter);
    assert(lines_of(Seq::<u8>::empty()) =~= Seq::<Seq<u8>>::empty());
}

/// Two results that both meet the search contract for the same query, text
/// and mode hold the same lines in the same order: a repeated search gives
/// what the first one gave.
pub proof fn lemma_search_repeatable(
    query: &str,
    contents: &str,
    mode: MatchMode,
    first: Seq<&str>,
    second: Seq<&str>,
)
    requires
        bytes_of(first) == matching_lines(query.spec_bytes(), contents.spec_bytes(), mode),
        bytes_of(second) == matching_lines(query.spec_bytes(), contents.spec_bytes(), mode),
    ensures
        first.len() == second.len(),
        forall|i: int| 0 <= i < first.len() ==> (#[trigger] first[i])@ == second[i]@,
{
    assert(bytes_of(first).len() == first.len());
    assert(bytes_of(second).len() == second.len());
    assert forall|i: int| 0 <= i < first.len() implies (#[trigger] first[i])@ == second[i]@ by {
        assert(bytes_of(first)[i] == first[i].spec_bytes());
        assert(bytes_of(second)[i] == second[i].spec_bytes());
        encode_utf8_decode_utf8(first[i]@);
        encode_utf8_decode_utf8(second[i]@);
    }
}

} // verus!
