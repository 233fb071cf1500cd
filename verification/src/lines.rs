//! The lines of a text.
//!
//! A line ends at a line feed. The line feed is not part of the line, and
//! neither is one carriage return directly before it. What follows the last
//! line feed is a line too, unless it is empty.

use vstd::prelude::*;
use crate::encoding::{
    lemma_absent_byte_is_absent_char,
    lemma_empty_encoding,
    lemma_encode_around_ascii_char,
    split_around,
};

verus! {

/// The position of the first line feed in `text`, or the length of `text`
/// where it holds none.
pub open spec fn line_end(text: Seq<char>) -> nat
    decreases text.len(),
{
    if text.len() == 0 || text[0] == '\n' {
        0
    } else {
        1 + line_end(text.drop_first())
    }
}

/// `line` without the carriage return at its end, if it has one there.
pub open spec fn without_carriage_return(line: Seq<char>) -> Seq<char> {
    if line.len() > 0 && line.last() == '\r' {
        line.drop_last()
    } else {
        line
    }
}

/// The lines of `text`, in the order in which they stand in it.
pub open spec fn lines_of(text: Seq<char>) -> Seq<Seq<char>>
    decreases text.len(),
{
    let end = line_end(text) as int;
    if text.len() == 0 {
        Seq::empty()
    } else if end >= text.len() {
        seq![text]
    } else {
        seq![without_carriage_return(text.subrange(0, end))] + lines_of(
            text.subrange(end + 1, text.len() as int),
        )
    }
}

/// The texts that a sequence of string slices stands for.
pub open spec fn views_of(slices: Seq<&str>) -> Seq<Seq<char>> {
    slices.map_values(|slice: &str| slice@)
}

/// A position with no line feed before it, which holds a line feed or is the
/// end of the text, is where the first line ends.
pub proof fn lemma_line_end_found(text: Seq<char>, end: int)
    requires
        0 <= end <= text.len(),
        forall|i: int| 0 <= i < end ==> text[i] != '\n',
        end < text.len() ==> text[end] == '\n',
    ensures
        line_end(text) == end,
    decreases text.len(),
{
    if end > 0 {
        let rest = text.drop_first();
        assert forall|i: int| 0 <= i < end - 1 implies rest[i] != '\n' by {
            assert(rest[i] == text[i + 1]);
        }
        lemma_line_end_found(rest, end - 1);
    }
}

/// The position of the first line feed among `bytes`, or their number where
/// there is none.
fn first_line_feed(bytes: &[u8]) -> (end: usize)
    ensures
        end <= bytes@.len(),
        forall|at: int| 0 <= at < end ==> bytes@[at] != 0x0a,
        end < bytes@.len() ==> bytes@[end as int] == 0x0a,
{
    let mut end: usize = 0;
    while end < bytes.len() && bytes[end] != 0x0a
        invariant
            end <= bytes.len(),
            forall|at: int| 0 <= at < end ==> bytes@[at] != 0x0a,
        decreases bytes.len() - end,
    {
        end += 1;
    }
    end
}

/// Drops the carriage return at the end of `line`, if it has one there.
fn strip_carriage_return<'a>(line: &'a str) -> (stripped: &'a str)
    ensures
        stripped@ == without_carriage_return(line@),
{
    let bytes = line.as_bytes();
    let n = bytes.len();
    if n > 0 && bytes[n - 1] == 0x0d {
        let (stripped, after) = split_around(line, n - 1);
        proof {
            lemma_empty_encoding(after@);
        }
        stripped
    } else {
        proof {
            if line@.len() > 0 && line@.last() == '\r' {
                lemma_encode_around_ascii_char(line@, line@.len() - 1);
                lemma_empty_encoding(line@.subrange(line@.len() as int, line@.len() as int));
            }
        }
        line
    }
}

/// The lines of `text`, each a slice of it.
pub fn lines<'a>(text: &'a str) -> (found: Vec<&'a str>)
    ensures
        views_of(found@) == lines_of(text@),
{
    let mut found: Vec<&'a str> = Vec::new();
    let mut rest: &'a str = text;
    loop
        invariant
            views_of(found@) + lines_of(rest@) == lines_of(text@),
        decreases rest@.len(),
    {
        if rest.is_empty() {
            return found;
        }
        let bytes = rest.as_bytes();
        let end = first_line_feed(bytes);
        if end == bytes.len() {
            proof {
                lemma_absent_byte_is_absent_char(rest@, '\n');
                lemma_line_end_found(rest@, rest@.len() as int);
            }
            found.push(rest);
            return found;
        }
        let (head, tail) = split_around(rest, end);
        let line = strip_carriage_return(head);
        proof {
            lemma_absent_byte_is_absent_char(head@, '\n');
            let at = head@.len() as int;
            lemma_line_end_found(rest@, at);
            assert(rest@.subrange(0, at) =~= head@);
            assert(rest@.subrange(at + 1, rest@.len() as int) =~= tail@);
        }
        found.push(line);
        rest = tail;
    }
}

} // verus!
