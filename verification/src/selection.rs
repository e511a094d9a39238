//! Text selection by dragging within one page.
//!
//! The two ends of a drag are matched to the characters nearest to them; the
//! selection is every character between those two, in text order, whichever
//! end came first. Its text is the text of its segments joined by spaces.

use vstd::prelude::*;

verus! {

broadcast use vstd::string::group_string_axioms;

/// A selection within one page: its text and the rectangles that highlight
/// it (their type is carried through unchanged).
pub struct TextSelection<R> {
    pub page_index: u16,
    pub text: String,
    pub rects: Vec<R>,
}

/// The characters selected between the characters at the two ends of a
/// drag: `(first index, count)`, or nothing when either end is not near a
/// character.
pub open spec fn selection_span_spec(a: Option<usize>, b: Option<usize>) -> Option<(usize, usize)> {
    match (a, b) {
        (Some(x), Some(y)) => {
            let lo = if x <= y {
                x
            } else {
                y
            };
            let hi = if x <= y {
                y
            } else {
                x
            };
            Some((lo, (hi - lo + 1) as usize))
        },
        _ => None,
    }
}

/// The span of a selection (see `selection_span_spec`). Character indices
/// are positions in a page's text, so they are below `usize::MAX`.
pub fn selection_span(a: Option<usize>, b: Option<usize>) -> (r: Option<(usize, usize)>)
    requires
        a matches Some(x) ==> x < usize::MAX,
        b matches Some(y) ==> y < usize::MAX,
    ensures
        r == selection_span_spec(a, b),
{
    match (a, b) {
        (Some(x), Some(y)) => {
            let lo = if x <= y {
                x
            } else {
                y
            };
            let hi = if x <= y {
                y
            } else {
                x
            };
            Some((lo, hi - lo + 1))
        },
        _ => None,
    }
}

/// Dragging backwards selects the same characters: the span does not depend
/// on which end of the drag came first.
pub proof fn law_selection_symmetric(a: Option<usize>, b: Option<usize>)
    ensures
        selection_span_spec(a, b) == selection_span_spec(b, a),
{
}

/// A drag between two characters selects a run that starts at one end,
/// stops at the other, and so holds every character from the earlier end
/// through the later one, both included; with an end near no character,
/// nothing is selected.
pub proof fn law_selection_covers_drag(a: Option<usize>, b: Option<usize>)
    requires
        a matches Some(x) ==> x < usize::MAX,
        b matches Some(y) ==> y < usize::MAX,
    ensures
        (a is Some && b is Some) <==> selection_span_spec(a, b) is Some,
        selection_span_spec(a, b) matches Some(r) ==> {
            let (x, y) = (a->Some_0 as int, b->Some_0 as int);
            let (first, last) = (r.0 as int, r.0 + r.1 - 1);
            &&& r.1 >= 1
            &&& first <= x <= last
            &&& first <= y <= last
            &&& (first == x || first == y)
            &&& (last == x || last == y)
        },
{
}

/// `parts` joined, with one space between consecutive parts.
pub open spec fn join_with_spaces(parts: Seq<Seq<char>>) -> Seq<char>
    decreases parts.len(),
{
    if parts.len() == 0 {
        Seq::empty()
    } else if parts.len() == 1 {
        parts[0]
    } else {
        join_with_spaces(parts.drop_last()) + seq![' '] + parts.last()
    }
}

/// The text of a selection: the texts of its segments joined by spaces.
pub fn join_segment_texts(parts: &Vec<String>) -> (r: String)
    ensures
        r@ == join_with_spaces(parts@.map_values(|s: String| s@)),
{
    let ghost views = parts@.map_values(|s: String| s@);
    let mut r = String::new();
    let mut i: usize = 0;
    proof {
        reveal_strlit(" ");
    }
    while i < parts.len()
        invariant
            i <= parts@.len(),
            views == parts@.map_values(|s: String| s@),
            r@ == join_with_spaces(views.take(i as int)),
        decreases parts@.len() - i,
    {
        if i > 0 {
            r.append(" ");
        }
        r.append(parts[i].as_str());
        proof {
            assert(views.take(i + 1).drop_last() =~= views.take(i as int));
            if i == 0 {
                assert(views.take(1).len() == 1);
                assert(r@ =~= views.take(1)[0]);
            } else {
                reveal_strlit(" ");
                assert(" "@ =~= seq![' ']);
            }
        }
        i += 1;
    }
    assert(views.take(parts@.len() as int) =~= views);
    r
}

} // verus!
