//! Text search results.
//!
//! A search runs page by page and collects every match with its highlight
//! rectangles, at most `MAX_SEARCH_HITS` of them; the results are marked
//! truncated when matches remained beyond those. Once the limit is reached
//! the search only looks on until it finds one more match. The rectangles
//! are carried through unchanged, so their type is a parameter.

use crate::error::ErrorView;
use vstd::prelude::*;

verus! {

/// The most matches that a search collects for one document.
pub const MAX_SEARCH_HITS: usize = 500;

/// One match: the page it is on and the rectangles that highlight it.
pub struct SearchHit<R> {
    pub page_index: u16,
    pub rects: Vec<R>,
}

/// All matches of a search, in page order, and whether `MAX_SEARCH_HITS`
/// was reached with matches remaining that were not collected.
pub struct SearchResults<R> {
    pub hits: Vec<SearchHit<R>>,
    pub truncated: bool,
}

/// The value of a match: its page and its rectangles.
pub open spec fn hit_view<R>(h: SearchHit<R>) -> (u16, Seq<R>) {
    (h.page_index, h.rects@)
}

/// The values of a list of matches.
pub open spec fn hits_view<R>(s: Seq<SearchHit<R>>) -> Seq<(u16, Seq<R>)> {
    s.map_values(|h: SearchHit<R>| hit_view(h))
}

impl<R> SearchResults<R> {
    /// No matches, not truncated.
    pub fn empty() -> (r: Self)
        ensures
            r.hits@.len() == 0,
            !r.truncated,
    {
        SearchResults { hits: Vec::new(), truncated: false }
    }
}

/// The rectangle lists of a page's matches.
pub open spec fn found_lists_view<R>(s: Seq<Vec<R>>) -> Seq<Seq<R>> {
    s.map_values(|v: Vec<R>| v@)
}

/// The matches found on page `page`, each given by its rectangles.
pub open spec fn page_hits<R>(page: u16, found: Seq<Seq<R>>) -> Seq<(u16, Seq<R>)> {
    found.map_values(|rects: Seq<R>| (page, rects))
}

/// Where a search stands after some pages: still going with the matches so
/// far (at most `MAX_SEARCH_HITS`; with that many, it only looks for one
/// more), or finished with its outcome.
pub enum SearchStep<R> {
    Going(Seq<(u16, Seq<R>)>),
    Finished(Result<(Seq<(u16, Seq<R>)>, bool), ErrorView>),
}

/// A search that has collected `acc` so far and gets, for page `page`, the
/// outcome `out` of looking for the query there: a failure ends the search
/// with that error; otherwise the page's matches are appended, and when that
/// makes more than `MAX_SEARCH_HITS` the search ends, truncated, with the
/// first `MAX_SEARCH_HITS`.
pub open spec fn search_step<R>(
    acc: Seq<(u16, Seq<R>)>,
    page: int,
    out: Result<Seq<Seq<R>>, ErrorView>,
) -> SearchStep<R> {
    match out {
        Err(e) => SearchStep::Finished(Err(e)),
        Ok(found) => {
            let all = acc + page_hits(page as u16, found);
            if all.len() > MAX_SEARCH_HITS {
                SearchStep::Finished(Ok((all.take(MAX_SEARCH_HITS as int), true)))
            } else {
                SearchStep::Going(all)
            }
        },
    }
}

/// The search after the pages `first`, `first + 1`, ... gave the outcomes
/// `outs`, starting from the matches `acc`.
pub open spec fn search_run<R>(
    outs: Seq<Result<Seq<Seq<R>>, ErrorView>>,
    first: int,
    acc: Seq<(u16, Seq<R>)>,
) -> SearchStep<R>
    decreases outs.len(),
{
    if outs.len() == 0 {
        SearchStep::Going(acc)
    } else {
        match search_step(acc, first, outs[0]) {
            SearchStep::Going(next) => search_run(outs.drop_first(), first + 1, next),
            SearchStep::Finished(r) => SearchStep::Finished(r),
        }
    }
}

/// Running one more page after `outs` continues from where `outs` left the
/// search.
pub proof fn lemma_search_run_push<R>(
    outs: Seq<Result<Seq<Seq<R>>, ErrorView>>,
    first: int,
    acc: Seq<(u16, Seq<R>)>,
    out: Result<Seq<Seq<R>>, ErrorView>,
)
    ensures
        search_run(outs.push(out), first, acc) == match search_run(outs, first, acc) {
            SearchStep::Going(a) => search_step(a, first + outs.len(), out),
            SearchStep::Finished(r) => SearchStep::Finished(r),
        },
    decreases outs.len(),
{
    if outs.len() == 0 {
        let p = outs.push(out);
        assert(p.drop_first() =~= Seq::<Result<Seq<Seq<R>>, ErrorView>>::empty());
        match search_step(acc, first, out) {
            SearchStep::Going(next) => {
                assert(search_run(p.drop_first(), first + 1, next) == SearchStep::<R>::Going(next));
            },
            SearchStep::Finished(_) => {},
        }
    } else {
        assert(outs.push(out).drop_first() =~= outs.drop_first().push(out));
        match search_step(acc, first, outs[0]) {
            SearchStep::Going(next) => {
                lemma_search_run_push(outs.drop_first(), first + 1, next, out);
            },
            SearchStep::Finished(_) => {},
        }
    }
}

/// What a search over `page_count` pages gives when the pages looked at gave
/// the outcomes `outs`: `outs` covers every page and the search is still
/// going (the matches, not truncated), or the search finished on the last
/// page of `outs` and not before.
pub open spec fn search_outcome<R>(
    outs: Seq<Result<Seq<Seq<R>>, ErrorView>>,
    page_count: nat,
    result: Result<(Seq<(u16, Seq<R>)>, bool), ErrorView>,
) -> bool {
    ||| (outs.len() == page_count && search_run(outs, 0, Seq::empty()) == SearchStep::Going(
        result->Ok_0.0,
    ) && result is Ok && !result->Ok_0.1)
    ||| (outs.len() > 0 && search_run(outs, 0, Seq::empty()) == SearchStep::Finished(result)
        && search_run(outs.drop_last(), 0, Seq::empty()) is Going)
}

/// The value of search results: the matches, and whether they were truncated.
pub open spec fn results_view<R>(r: SearchResults<R>) -> (Seq<(u16, Seq<R>)>, bool) {
    (hits_view(r.hits@), r.truncated)
}

/// Unicode `White_Space` characters, which `str::trim` removes.
pub open spec fn is_white_space(c: char) -> bool {
    ||| c == '\t'
    ||| c == '\n'
    ||| c == '\x0B'
    ||| c == '\x0C'
    ||| c == '\r'
    ||| c == ' '
    ||| c == '\u{85}'
    ||| c == '\u{A0}'
    ||| c == '\u{1680}'
    ||| ('\u{2000}' <= c && c <= '\u{200A}')
    ||| c == '\u{2028}'
    ||| c == '\u{2029}'
    ||| c == '\u{202F}'
    ||| c == '\u{205F}'
    ||| c == '\u{3000}'
}

/// A query is blank when trimming it leaves nothing: every character is
/// white space.
pub open spec fn is_blank_spec(q: Seq<char>) -> bool {
    forall|i: int| 0 <= i < q.len() ==> #[trigger] is_white_space(q[i])
}

fn white_space(c: char) -> (b: bool)
    ensures
        b == is_white_space(c),
{
    c == '\t' || c == '\n' || c == '\x0B' || c == '\x0C' || c == '\r' || c == ' ' || c == '\u{85}'
        || c == '\u{A0}' || c == '\u{1680}' || ('\u{2000}' <= c && c <= '\u{200A}') || c
        == '\u{2028}' || c == '\u{2029}' || c == '\u{202F}' || c == '\u{205F}' || c == '\u{3000}'
}

/// Whether trimming `query` leaves it empty.
pub fn is_blank(query: &str) -> (b: bool)
    ensures
        b == is_blank_spec(query@),
{
    let v = crate::text::str_chars(query);
    let mut i: usize = 0;
    while i < v.len()
        invariant
            v@ == query@,
            i <= v@.len(),
            forall|j: int| 0 <= j < i ==> #[trigger] is_white_space(v@[j]),
        decreases v@.len() - i,
    {
        if !white_space(v[i]) {
            return false;
        }
        i += 1;
    }
    true
}

/// Appends the matches of page `page` to `results`, keeping at most
/// `MAX_SEARCH_HITS`; returns whether the search is over because a match
/// beyond the limit was found (the results are then marked truncated).
pub fn push_page_hits<R>(results: &mut SearchResults<R>, page: u16, found: Vec<Vec<R>>) -> (stop:
    bool)
    requires
        old(results).hits@.len() <= MAX_SEARCH_HITS,
        !old(results).truncated,
    ensures
        ({
            let found_view = found_lists_view(found@);
            match search_step(hits_view(old(results).hits@), page as int, Ok(found_view)) {
                SearchStep::Going(all) => !stop && results_view(*final(results)) == (all, false),
                SearchStep::Finished(r) => stop && r == Ok::<(Seq<(u16, Seq<R>)>, bool), ErrorView>(results_view(*final(results))),
            }
        }),
{
    let ghost acc = hits_view(results.hits@);
    let ghost found_view = found_lists_view(found@);
    let ghost all = acc + page_hits(page, found_view);
    let mut stop = false;
    for rects in it: found
        invariant
            it.seq() == found@,
            found_view == found_lists_view(found@),
            acc == hits_view(old(results).hits@),
            acc.len() <= MAX_SEARCH_HITS,
            all == acc + page_hits(page, found_view),
            hits_view(results.hits@) == all.take(results.hits@.len() as int),
            results.hits@.len() <= all.len(),
            results.hits@.len() <= MAX_SEARCH_HITS,
            stop == results.truncated,
            stop ==> results.hits@.len() == MAX_SEARCH_HITS && all.len() > MAX_SEARCH_HITS,
            !stop ==> results.hits@.len() == acc.len() + it.index(),
    {
        if !stop {
            if results.hits.len() < MAX_SEARCH_HITS {
                let ghost before = results.hits@;
                results.hits.push(SearchHit { page_index: page, rects });
                proof {
                    assert(results.hits@.drop_last() =~= before);
                    assert(hits_view(results.hits@) =~= hits_view(before).push(
                        (page, found@[it.index() as int]@),
                    ));
                    assert(all[before.len() as int] == (page, found_view[it.index() as int]));
                    assert(all.take(results.hits@.len() as int) =~= all.take(before.len() as int).push(
                        all[before.len() as int],
                    ));
                }
            } else {
                results.truncated = true;
                stop = true;
            }
        }
    }
    proof {
        if !stop {
            assert(all.take(results.hits@.len() as int) =~= all);
        }
    }
    stop
}

/// The number of matches in the outcomes of the pages looked at.
pub open spec fn total_found<R>(outs: Seq<Result<Seq<Seq<R>>, ErrorView>>) -> nat
    decreases outs.len(),
{
    if outs.len() == 0 {
        0
    } else {
        (match outs[0] {
            Ok(found) => found.len(),
            Err(_) => 0,
        }) + total_found(outs.drop_first())
    }
}

proof fn lemma_search_run_bounded<R>(
    outs: Seq<Result<Seq<Seq<R>>, ErrorView>>,
    first: int,
    acc: Seq<(u16, Seq<R>)>,
)
    requires
        acc.len() <= MAX_SEARCH_HITS,
    ensures
        match search_run(outs, first, acc) {
            SearchStep::Going(h) => h.len() <= MAX_SEARCH_HITS && h.len() == acc.len() + total_found(
                outs,
            ),
            SearchStep::Finished(Ok((h, t))) => t && h.len() == MAX_SEARCH_HITS && acc.len()
                + total_found(outs) > MAX_SEARCH_HITS,
            SearchStep::Finished(Err(_)) => true,
        },
    decreases outs.len(),
{
    if outs.len() > 0 {
        match search_step(acc, first, outs[0]) {
            SearchStep::Going(next) => {
                lemma_search_run_bounded(outs.drop_first(), first + 1, next);
            },
            SearchStep::Finished(_) => {},
        }
    }
}

/// A search never returns more than `MAX_SEARCH_HITS` matches. It says that
/// it was truncated exactly when the pages it looked at hold more matches
/// than that; when it is not truncated, it looked at every page and returns
/// all their matches.
pub proof fn law_search_bounded<R>(
    outs: Seq<Result<Seq<Seq<R>>, ErrorView>>,
    page_count: nat,
    result: Result<(Seq<(u16, Seq<R>)>, bool), ErrorView>,
)
    requires
        search_outcome(outs, page_count, result),
    ensures
        result matches Ok((hits, truncated)) ==> {
            &&& hits.len() <= MAX_SEARCH_HITS
            &&& truncated <==> total_found(outs) > MAX_SEARCH_HITS
            &&& !truncated ==> outs.len() == page_count && hits.len() == total_found(outs)
        },
{
    lemma_search_run_bounded(outs, 0, Seq::empty());
}

} // verus!
