//! The two searches: the lines of a text that hold a query exactly as it is
//! written, and those that hold it once line and query are both lowercased.

use vstd::prelude::*;
use crate::laws::{
    lemma_empty_is_substring,
    lemma_empty_query_finds_every_line,
    lemma_select_all,
};
use crate::lines::{lines, lines_of, views_of};
use crate::text::{contains, has_substring};

verus! {

/// The lowercase form of a text, as `str::to_lowercase` computes it. It
/// follows Unicode's rules, under which a character may become several and
/// may depend on its neighbours, so it is named here and not written out.
pub uninterp spec fn lowercased(text: Seq<char>) -> Seq<char>;

/// What is taken on trust of `str::to_lowercase`: its result depends on
/// nothing but the characters of the text, and the empty text stays empty.
pub assume_specification[ str::to_lowercase ](text: &str) -> (lowered: String)
    ensures
        lowered@ == lowercased(text@),
        text@.len() == 0 ==> lowered@.len() == 0,
;

/// The test that a line passes when it holds `query` as it is written.
pub open spec fn holds(query: Seq<char>) -> spec_fn(Seq<char>) -> bool {
    |line: Seq<char>| has_substring(line, query)
}

/// The test that a line passes when its lowercase form holds `lowered_query`.
pub open spec fn holds_lowercased(lowered_query: Seq<char>) -> spec_fn(Seq<char>) -> bool {
    |line: Seq<char>| has_substring(lowercased(line), lowered_query)
}

/// The lines of `contents` that hold `query`, in the order in which they
/// stand in `contents`, each as often as it stands there.
pub open spec fn matching_lines(query: Seq<char>, contents: Seq<char>) -> Seq<Seq<char>> {
    lines_of(contents).filter(holds(query))
}

/// The lines of `contents` whose lowercase form holds the lowercase form of
/// `query`, in the order in which they stand in `contents`, each as it is
/// written there.
pub open spec fn matching_lines_ignoring_case(query: Seq<char>, contents: Seq<char>) -> Seq<
    Seq<char>,
> {
    lines_of(contents).filter(holds_lowercased(lowercased(query)))
}

/// Taking one more line into account extends the selection by that line or
/// leaves it as it is.
proof fn lemma_select_next(all: Seq<&str>, i: int, keep: spec_fn(Seq<char>) -> bool)
    requires
        0 <= i < all.len(),
    ensures
        views_of(all).take(i + 1).filter(keep) == if keep(all[i]@) {
            views_of(all).take(i).filter(keep).push(all[i]@)
        } else {
            views_of(all).take(i).filter(keep)
        },
{
    let texts = views_of(all);
    assert(texts.take(i + 1) =~= texts.take(i).push(all[i]@));
    texts.take(i).lemma_filter_push(all[i]@, keep);
}

/// The lines of `contents` that hold `query`, compared character by
/// character. An empty `query` selects every line.
pub fn search<'a>(query: &str, contents: &'a str) -> (found: Vec<&'a str>)
    ensures
        views_of(found@) == matching_lines(query@, contents@),
        query@.len() == 0 ==> views_of(found@) == lines_of(contents@),
{
    proof {
        if query@.len() == 0 {
            assert(query@ =~= Seq::<char>::empty());
            lemma_empty_query_finds_every_line(contents@);
        }
    }
    let all = lines(contents);
    let mut found: Vec<&'a str> = Vec::new();
    let ghost keep = holds(query@);
    assert(views_of(found@) =~= views_of(all@).take(0).filter(keep)) by {
        reveal(Seq::filter);
    }
    for i in 0..all.len()
        invariant
            keep == holds(query@),
            views_of(found@) == views_of(all@).take(i as int).filter(keep),
    {
        let line = all[i];
        proof {
            lemma_select_next(all@, i as int, keep);
        }
        if contains(line, query) {
            found.push(line);
        }
    }
    assert(views_of(all@).take(all@.len() as int) =~= views_of(all@));
    found
}

/// The lines of `contents` that hold `query` when no account is taken of
/// case: a line is selected when its lowercase form holds the lowercase form
/// of `query`. The lines come back as they are written in `contents`.
pub fn search_case_insensitive<'a>(query: &str, contents: &'a str) -> (found: Vec<&'a str>)
    ensures
        views_of(found@) == matching_lines_ignoring_case(query@, contents@),
        query@.len() == 0 ==> views_of(found@) == lines_of(contents@),
{
    let all = lines(contents);
    let lowered_query = query.to_lowercase();
    let mut found: Vec<&'a str> = Vec::new();
    let ghost keep = holds_lowercased(lowercased(query@));
    assert(views_of(found@) =~= views_of(all@).take(0).filter(keep)) by {
        reveal(Seq::filter);
    }
    for i in 0..all.len()
        invariant
            keep == holds_lowercased(lowercased(query@)),
            lowered_query@ == lowercased(query@),
            views_of(found@) == views_of(all@).take(i as int).filter(keep),
    {
        let line = all[i];
        let lowered_line = line.to_lowercase();
        proof {
            lemma_select_next(all@, i as int, keep);
        }
        if contains(lowered_line.as_str(), lowered_query.as_str()) {
            found.push(line);
        }
    }
    assert(views_of(all@).take(all@.len() as int) =~= views_of(all@));
    proof {
        if query@.len() == 0 {
            assert(lowered_query@ =~= Seq::<char>::empty());
            let every = lines_of(contents@);
            assert forall|i: int| 0 <= i < every.len() implies keep(#[trigger] every[i]) by {
                lemma_empty_is_substring(lowercased(every[i]));
            }
            lemma_select_all(every, keep);
        }
    }
    found
}

} // verus!
