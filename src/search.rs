use vstd::prelude::*;
use vstd::string::StringSliceAdditionalSpecFns;
use vstd::utf8::*;

use crate::lines::{lines_of, split_first_line};
use crate::laws::{lemma_filter_all, lemma_occurs_empty};
use crate::matching::{contains, occurs_in};

verus! {

/// What `str::to_lowercase` makes of the characters `s`.
pub uninterp spec fn lower_of(s: Seq<char>) -> Seq<char>;

/// Relies on `str::to_lowercase`: the result depends on the characters alone,
/// and an empty string stays empty.
#[verifier::external_body]
fn lowercase(s: &str) -> (r: String)
    ensures
        r@ == lower_of(s@),
        s@.len() == 0 ==> r@.len() == 0,
{
    s.to_lowercase()
}

/// How a line is compared with the query.
#[derive(Clone, Copy, Debug, PartialEq, Eq)]
pub enum MatchMode {
    /// The query's bytes must occur in the line as they are.
    CaseSensitive,
    /// The lowercased query must occur in the lowercased line.
    CaseInsensitive,
}

/// The UTF-8 bytes of the lowercased text whose UTF-8 bytes are `b`.
pub open spec fn folded(b: Seq<u8>) -> Seq<u8> {
    encode_utf8(lower_of(decode_utf8(b)))
}

/// Whether `line` is selected for `query` under `mode`.
pub open spec fn line_matches(line: Seq<u8>, query: Seq<u8>, mode: MatchMode) -> bool {
    match mode {
        MatchMode::CaseSensitive => occurs_in(line, query),
        MatchMode::CaseInsensitive => occurs_in(folded(line), folded(query)),
    }
}

/// The lines of `text` selected for `query` under `mode`, in document order.
pub open spec fn matching_lines(query: Seq<u8>, text: Seq<u8>, mode: MatchMode) -> Seq<Seq<u8>> {
    lines_of(text).filter(|l: Seq<u8>| line_matches(l, query, mode))
}

/// The bytes of each string of `r`.
pub open spec fn bytes_of(r: Seq<&str>) -> Seq<Seq<u8>> {
    r.map_values(|s: &str| s.spec_bytes())
}

/// Filtering a one-element sequence keeps the element exactly when it passes.
proof fn lemma_filter_single<A>(x: A, pred: spec_fn(A) -> bool)
    ensures
        seq![x].filter(pred) == (if pred(x) {
            seq![x]
        } else {
            Seq::<A>::empty()
        }),
{
    reveal_with_fuel(Seq::filter, 2);
    assert(seq![x].drop_last() =~= Seq::<A>::empty());
    assert(Seq::<A>::empty().push(x) =~= seq![x]);
}

/// The lines of `contents` that hold `query`, compared as `mode` says, in
/// document order and as slices of `contents`. An empty query selects every line.
pub fn search_with_mode<'a>(query: &str, contents: &'a str, mode: MatchMode) -> (r: Vec<&'a str>)
    ensures
        bytes_of(r@) == matching_lines(query.spec_bytes(), contents.spec_bytes(), mode),
        query@.len() == 0 ==> bytes_of(r@) == lines_of(contents.spec_bytes()),
{
    let ghost q = query.spec_bytes();
    let ghost d = contents.spec_bytes();
    let ghost pred = |l: Seq<u8>| line_matches(l, q, mode);
    let folded_query = match mode {
        MatchMode::CaseSensitive => String::new(),
        MatchMode::CaseInsensitive => lowercase(query),
    };
    proof {
        broadcast use encode_utf8_decode_utf8;
        if mode == MatchMode::CaseInsensitive {
            assert(folded(q) == encode_utf8(folded_query@));
        }
    }
    let mut out: Vec<&'a str> = Vec::new();
    let mut rest: &'a str = contents;
    while rest.as_bytes().len() > 0
        invariant
            q == query.spec_bytes(),
            pred == (|l: Seq<u8>| line_matches(l, q, mode)),
            mode == MatchMode::CaseInsensitive ==> folded(q) == encode_utf8(folded_query@),
            matching_lines(q, d, mode) == bytes_of(out@) + matching_lines(q, rest.spec_bytes(), mode),
        decreases rest.spec_bytes().len(),
    {
        let (line, next) = split_first_line(rest);
        let keep = match mode {
            MatchMode::CaseSensitive => contains(line, query),
            MatchMode::CaseInsensitive => {
                let folded_line = lowercase(line);
                proof {
                    broadcast use encode_utf8_decode_utf8;
                    assert(folded(line.spec_bytes()) == encode_utf8(folded_line@));
                }
                contains(folded_line.as_str(), folded_query.as_str())
            },
        };
        proof {
            let lb = line.spec_bytes();
            assert(keep == pred(lb));
            Seq::filter_distributes_over_add(seq![lb], lines_of(next.spec_bytes()), pred);
            lemma_filter_single(lb, pred);
        }
        let ghost before = out@;
        if keep {
            out.push(line);
            assert(bytes_of(out@) =~= bytes_of(before) + seq![line.spec_bytes()]);
        }
        rest = next;
    }
    proof {
        assert(lines_of(rest.spec_bytes()) =~= Seq::<Seq<u8>>::empty());
        reveal(Seq::filter);
        assert(bytes_of(out@) =~= matching_lines(q, d, mode));
        if query@.len() == 0 {
            assert(q =~= Seq::<u8>::empty());
            if mode == MatchMode::CaseInsensitive {
                assert(folded(q) =~= Seq::<u8>::empty());
            }
            assert forall|i: int| 0 <= i < lines_of(d).len() implies #[trigger] pred(
                lines_of(d)[i],
            ) by {
                lemma_occurs_empty(lines_of(d)[i]);
                lemma_occurs_empty(folded(lines_of(d)[i]));
            }
            lemma_filter_all(lines_of(d), pred);
        }
    }
    out
}

/// The lines of `contents` that hold `query` exactly, in document order.
pub fn search<'a>(query: &str, contents: &'a str) -> (r: Vec<&'a str>)
    ensures
        bytes_of(r@) == matching_lines(
            query.spec_bytes(),
            contents.spec_bytes(),
            MatchMode::CaseSensitive,
        ),
        query@.len() == 0 ==> bytes_of(r@) == lines_of(contents.spec_bytes()),
{
    search_with_mode(query, contents, MatchMode::CaseSensitive)
}

/// The lines of `contents` whose lowercased text holds the lowercased `query`,
/// in document order. The lines come back as written in `contents`.
pub fn search_case_insensitive<'a>(query: &str, contents: &'a str) -> (r: Vec<&'a str>)
    ensures
        bytes_of(r@) == matching_lines(
            query.spec_bytes(),
            contents.spec_bytes(),
            MatchMode::CaseInsensitive,
        ),
        query@.len() == 0 ==> bytes_of(r@) == lines_of(contents.spec_bytes()),
{
    search_with_mode(query, contents, MatchMode::CaseInsensitive)
}

} // verus!
