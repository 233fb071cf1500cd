//! What holds of the two searches on every query and every text.

use vstd::prelude::*;
use crate::lines::lines_of;
use crate::search::{
    holds,
    holds_lowercased,
    lowercased,
    matching_lines,
    matching_lines_ignoring_case,
};
use crate::text::{has_substring, occurs_at};

verus! {

/// The positions in `lines` of the lines that pass the test `keep`, from the
/// first to the last.
pub open spec fn selected_positions(lines: Seq<Seq<char>>, keep: spec_fn(Seq<char>) -> bool) -> Seq<
    int,
>
    decreases lines.len(),
{
    if lines.len() == 0 {
        Seq::empty()
    } else if keep(lines.last()) {
        selected_positions(lines.drop_last(), keep).push(lines.len() - 1)
    } else {
        selected_positions(lines.drop_last(), keep)
    }
}

/// `positions` names places in `lines`, each further on than the one before,
/// and `found` holds the lines at those places in that order.
pub open spec fn taken_in_order(
    found: Seq<Seq<char>>,
    lines: Seq<Seq<char>>,
    positions: Seq<int>,
) -> bool {
    &&& positions.len() == found.len()
    &&& forall|k: int|
        0 <= k < positions.len() ==> 0 <= #[trigger] positions[k] < lines.len() && found[k]
            == lines[positions[k]]
    &&& forall|j: int, k: int|
        0 <= j < k < positions.len() ==> #[trigger] positions[j] < #[trigger] positions[k]
}

/// Every text holds the empty text.
pub proof fn lemma_empty_is_substring(hay: Seq<char>)
    ensures
        has_substring(hay, Seq::<char>::empty()),
{
    assert(hay.subrange(0, 0) =~= Seq::<char>::empty());
    assert(occurs_at(hay, Seq::<char>::empty(), 0));
}

/// A selection by a test that every line passes is all the lines.
pub proof fn lemma_select_all(lines: Seq<Seq<char>>, keep: spec_fn(Seq<char>) -> bool)
    requires
        forall|i: int| 0 <= i < lines.len() ==> keep(#[trigger] lines[i]),
    ensures
        lines.filter(keep) == lines,
    decreases lines.len(),
{
    reveal(Seq::filter);
    if lines.len() > 0 {
        assert forall|i: int| 0 <= i < lines.drop_last().len() implies keep(
            #[trigger] lines.drop_last()[i],
        ) by {
            assert(lines.drop_last()[i] == lines[i]);
        }
        lemma_select_all(lines.drop_last(), keep);
    }
}

/// Where every line that passes `narrow` passes `wide` too, selecting by
/// `narrow` gives what selecting by `wide` and then by `narrow` gives.
pub proof fn lemma_select_within(
    lines: Seq<Seq<char>>,
    narrow: spec_fn(Seq<char>) -> bool,
    wide: spec_fn(Seq<char>) -> bool,
)
    requires
        forall|i: int| 0 <= i < lines.len() && narrow(#[trigger] lines[i]) ==> wide(lines[i]),
    ensures
        lines.filter(narrow) == lines.filter(wide).filter(narrow),
        lines.filter(narrow).len() <= lines.filter(wide).len(),
    decreases lines.len(),
{
    if lines.len() == 0 {
        reveal(Seq::filter);
    } else {
        let before = lines.drop_last();
        let last = lines.last();
        assert forall|i: int| 0 <= i < before.len() && narrow(#[trigger] before[i]) implies wide(
            before[i],
        ) by {
            assert(before[i] == lines[i]);
        }
        lemma_select_within(before, narrow, wide);
        assert(lines =~= before.push(last));
        before.lemma_filter_push(last, narrow);
        before.lemma_filter_push(last, wide);
        before.filter(wide).lemma_filter_push(last, narrow);
    }
}

/// A selection holds the lines at the selected positions, in the order of
/// those positions, and the selected positions are those of the lines that
/// pass the test: each such place once, none other.
pub proof fn lemma_selection_in_order(lines: Seq<Seq<char>>, keep: spec_fn(Seq<char>) -> bool)
    ensures
        taken_in_order(lines.filter(keep), lines, selected_positions(lines, keep)),
        forall|i: int|
            0 <= i < lines.len() ==> (keep(lines[i]) <==> #[trigger] selected_positions(
                lines,
                keep,
            ).contains(i)),
    decreases lines.len(),
{
    let positions = selected_positions(lines, keep);
    if lines.len() == 0 {
        reveal(Seq::filter);
    } else {
        let before = lines.drop_last();
        let last = lines.last();
        let earlier = selected_positions(before, keep);
        lemma_selection_in_order(before, keep);
        assert(lines =~= before.push(last));
        before.lemma_filter_push(last, keep);
        assert forall|i: int| 0 <= i < lines.len() implies (keep(lines[i])
            <==> #[trigger] positions.contains(i)) by {
            if i < before.len() {
                assert(before[i] == lines[i]);
                if keep(lines[i]) {
                    assert(earlier.contains(i));
                    let k = choose|k: int| 0 <= k < earlier.len() && earlier[k] == i;
                    assert(positions[k] == i);
                }
                if positions.contains(i) {
                    let k = choose|k: int| 0 <= k < positions.len() && positions[k] == i;
                    assert(earlier[k] == i);
                }
            } else {
                if keep(last) {
                    assert(positions[positions.len() - 1] == i);
                }
                if positions.contains(i) {
                    let k = choose|k: int| 0 <= k < positions.len() && positions[k] == i;
                    assert(k == earlier.len());
                }
            }
        }
    }
}

/// A line is among those that `search` finds exactly when it is a line of
/// the contents and holds the query.
pub proof fn lemma_found_iff_line_holds_query(
    query: Seq<char>,
    contents: Seq<char>,
    line: Seq<char>,
)
    ensures
        matching_lines(query, contents).contains(line) <==> lines_of(contents).contains(line)
            && has_substring(line, query),
{
    let lines = lines_of(contents);
    let keep = holds(query);
    if lines.filter(keep).contains(line) {
        lines.lemma_filter_contains_rev(keep, line);
        let k = choose|k: int| 0 <= k < lines.filter(keep).len() && lines.filter(keep)[k] == line;
        lines.lemma_filter_pred(keep, k);
    }
    if lines.contains(line) && has_substring(line, query) {
        let i = choose|i: int| 0 <= i < lines.len() && lines[i] == line;
        lines.lemma_filter_contains(keep, i);
    }
}

/// A line is among those that `search_case_insensitive` finds exactly when
/// it is a line of the contents and its lowercase form holds the lowercase
/// form of the query.
pub proof fn lemma_found_ignoring_case_iff_line_holds_query(
    query: Seq<char>,
    contents: Seq<char>,
    line: Seq<char>,
)
    ensures
        matching_lines_ignoring_case(query, contents).contains(line) <==> lines_of(
            contents,
        ).contains(line) && has_substring(lowercased(line), lowercased(query)),
{
    let lines = lines_of(contents);
    let keep = holds_lowercased(lowercased(query));
    if lines.filter(keep).contains(line) {
        lines.lemma_filter_contains_rev(keep, line);
        let k = choose|k: int| 0 <= k < lines.filter(keep).len() && lines.filter(keep)[k] == line;
        lines.lemma_filter_pred(keep, k);
    }
    if lines.contains(line) && has_substring(lowercased(line), lowercased(query)) {
        let i = choose|i: int| 0 <= i < lines.len() && lines[i] == line;
        lines.lemma_filter_contains(keep, i);
    }
}

/// Lowercasing keeps `query` in the lines of `contents`: each line that
/// holds the query holds, once lowercased, the lowercased query.
pub open spec fn lowercasing_keeps_query(query: Seq<char>, contents: Seq<char>) -> bool {
    forall|i: int|
        0 <= i < lines_of(contents).len() && has_substring(#[trigger] lines_of(contents)[i], query)
            ==> has_substring(lowercased(lines_of(contents)[i]), lowercased(query))
}

/// Where lowercasing keeps the query in the lines, the search that ignores
/// case finds every line that the exact search finds: the exact search finds
/// those of its lines that hold the query as written, so it finds no more
/// lines than the other.
pub proof fn lemma_ignoring_case_finds_no_less(query: Seq<char>, contents: Seq<char>)
    requires
        lowercasing_keeps_query(query, contents),
    ensures
        matching_lines(query, contents) == matching_lines_ignoring_case(query, contents).filter(
            holds(query),
        ),
        matching_lines(query, contents).len() <= matching_lines_ignoring_case(
            query,
            contents,
        ).len(),
{
    lemma_select_within(lines_of(contents), holds(query), holds_lowercased(lowercased(query)));
}

/// Searching among the lines found finds all of them again.
pub proof fn lemma_search_again_finds_the_same(query: Seq<char>, contents: Seq<char>)
    ensures
        matching_lines(query, contents).filter(holds(query)) == matching_lines(query, contents),
        matching_lines_ignoring_case(query, contents).filter(
            holds_lowercased(lowercased(query)),
        ) == matching_lines_ignoring_case(query, contents),
{
    let lines = lines_of(contents);
    lemma_select_within(lines, holds(query), holds(query));
    lemma_select_within(
        lines,
        holds_lowercased(lowercased(query)),
        holds_lowercased(lowercased(query)),
    );
}

/// The lines found stand in the order of the contents: they are the lines at
/// the positions of the lines that hold the query, from the first such
/// position to the last, so none is moved, left out or merged with its like.
pub proof fn lemma_found_in_order_of_contents(query: Seq<char>, contents: Seq<char>)
    ensures
        taken_in_order(
            matching_lines(query, contents),
            lines_of(contents),
            selected_positions(lines_of(contents), holds(query)),
        ),
        forall|i: int|
            0 <= i < lines_of(contents).len() ==> (has_substring(lines_of(contents)[i], query)
                <==> #[trigger] selected_positions(lines_of(contents), holds(query)).contains(i)),
        taken_in_order(
            matching_lines_ignoring_case(query, contents),
            lines_of(contents),
            selected_positions(lines_of(contents), holds_lowercased(lowercased(query))),
        ),
        forall|i: int|
            0 <= i < lines_of(contents).len() ==> (has_substring(
                lowercased(lines_of(contents)[i]),
                lowercased(query),
            ) <==> #[trigger] selected_positions(
                lines_of(contents),
                holds_lowercased(lowercased(query)),
            ).contains(i)),
{
    lemma_selection_in_order(lines_of(contents), holds(query));
    lemma_selection_in_order(lines_of(contents), holds_lowercased(lowercased(query)));
}

/// In an empty text nothing is found, whatever the query.
pub proof fn lemma_nothing_found_in_empty_contents(query: Seq<char>)
    ensures
        matching_lines(query, Seq::empty()) == Seq::<Seq<char>>::empty(),
        matching_lines_ignoring_case(query, Seq::empty()) == Seq::<Seq<char>>::empty(),
{
    reveal(Seq::filter);
}

/// The empty query is found in every line.
pub proof fn lemma_empty_query_finds_every_line(contents: Seq<char>)
    ensures
        matching_lines(Seq::empty(), contents) == lines_of(contents),
{
    let lines = lines_of(contents);
    assert forall|i: int| 0 <= i < lines.len() implies holds(Seq::empty())(
        #[trigger] lines[i],
    ) by {
        lemma_empty_is_substring(lines[i]);
    }
    lemma_select_all(lines, holds(Seq::empty()));
}

} // verus!
