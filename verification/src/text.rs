use vstd::prelude::*;

verus! {

/// The number of characters that come before the first line feed of `text`,
/// or the length of `text` where it holds no line feed.
pub open spec fn first_line_len(text: Seq<char>) -> nat
    decreases text.len(),
{
    if text.len() == 0 || text[0] == '\n' {
        0
    } else {
        1 + first_line_len(text.drop_first())
    }
}

/// `first_line_len` finds the first line feed: no character before that
/// position is a line feed, and the position is either the end of the text or
/// holds one.
pub proof fn lemma_first_line_len(text: Seq<char>)
    ensures
        first_line_len(text) <= text.len(),
        forall|i: int| 0 <= i < first_line_len(text) ==> text[i] != '\n',
        first_line_len(text) < text.len() ==> text[first_line_len(text) as int] == '\n',
    decreases text.len(),
{
    if text.len() == 0 || text[0] == '\n' {
    } else {
        let rest = text.drop_first();
        lemma_first_line_len(rest);
        assert forall|i: int| 0 <= i < first_line_len(text) implies text[i] != '\n' by {
            if i > 0 {
                assert(text[i] == rest[i - 1]);
            }
        }
    }
}

/// A position that holds the first line feed of `text`, or the end of a text
/// without one, is `first_line_len(text)`.
pub proof fn lemma_first_line_len_is(text: Seq<char>, at: int)
    requires
        0 <= at <= text.len(),
        forall|i: int| 0 <= i < at ==> text[i] != '\n',
        at < text.len() ==> text[at] == '\n',
    ensures
        first_line_len(text) == at,
{
    lemma_first_line_len(text);
}

/// A line without the carriage return that may end it.
pub open spec fn strip_carriage_return(line: Seq<char>) -> Seq<char> {
    if line.len() > 0 && line.last() == '\r' {
        line.drop_last()
    } else {
        line
    }
}

/// The lines of `text`. A line ends at a line feed, or at a carriage return
/// directly followed by a line feed; neither belongs to the line. What follows
/// the last line feed is a line of its own, kept as it is, unless it is empty.
pub open spec fn lines(text: Seq<char>) -> Seq<Seq<char>>
    decreases text.len(),
{
    let first = first_line_len(text) as int;
    if text.len() == 0 {
        Seq::empty()
    } else if first >= text.len() {
        seq![text]
    } else {
        seq![strip_carriage_return(text.take(first))] + lines(text.skip(first + 1))
    }
}

/// Whether `needle` stands in `hay` at position `at`.
pub open spec fn occurs_at(needle: Seq<char>, hay: Seq<char>, at: int) -> bool {
    0 <= at && at + needle.len() <= hay.len() && hay.subrange(at, at + needle.len()) == needle
}

/// Whether `needle` is a substring of `hay`.
pub open spec fn occurs_in(needle: Seq<char>, hay: Seq<char>) -> bool {
    exists|at: int| occurs_at(needle, hay, at)
}

/// The lower-case form of an ASCII upper-case letter; any other character
/// unchanged.
pub open spec fn lowercase(c: char) -> char {
    if 'A' <= c <= 'Z' {
        ((c as u8) + 32) as char
    } else {
        c
    }
}

/// `text` with its ASCII upper-case letters turned into lower case.
pub open spec fn fold_case(text: Seq<char>) -> Seq<char> {
    Seq::new(text.len(), |i: int| lowercase(text[i]))
}

/// Whether `line` is a match for `query`: whether it contains `query`, in
/// case-insensitive mode after both were folded to lower case.
pub open spec fn line_matches(line: Seq<char>, query: Seq<char>, case_insensitive: bool) -> bool {
    if case_insensitive {
        occurs_in(fold_case(query), fold_case(line))
    } else {
        occurs_in(query, line)
    }
}

/// The lines of `text` that match `query`, in the order of the text and as
/// the text spells them.
pub open spec fn matching_lines(query: Seq<char>, text: Seq<char>, case_insensitive: bool) -> Seq<
    Seq<char>,
> {
    lines(text).filter(|line: Seq<char>| line_matches(line, query, case_insensitive))
}

/// Whether `part` holds the items of `whole` found at `places`, which run
/// from left to right.
pub open spec fn picks<A>(part: Seq<A>, whole: Seq<A>, places: Seq<int>) -> bool {
    &&& places.len() == part.len()
    &&& forall|k: int|
        0 <= k < places.len() ==> 0 <= #[trigger] places[k] < whole.len() && part[k]
            == whole[places[k]]
    &&& forall|j: int, k: int| 0 <= j < k < places.len() ==> places[j] < places[k]
}

/// Whether `part` is `whole` with some items left out and the others in
/// their original order.
pub open spec fn keeps_order<A>(part: Seq<A>, whole: Seq<A>) -> bool {
    exists|places: Seq<int>| picks(part, whole, places)
}

/// Filtering leaves the remaining items in their original order.
pub proof fn lemma_filter_keeps_order<A>(whole: Seq<A>, pred: spec_fn(A) -> bool)
    ensures
        keeps_order(whole.filter(pred), whole),
    decreases whole.len(),
{
    reveal(Seq::filter);
    if whole.len() == 0 {
        assert(picks(whole.filter(pred), whole, Seq::<int>::empty()));
    } else {
        let front = whole.drop_last();
        lemma_filter_keeps_order(front, pred);
        let places = choose|places: Seq<int>| picks(front.filter(pred), front, places);
        if pred(whole.last()) {
            assert(picks(whole.filter(pred), whole, places.push(whole.len() - 1)));
        } else {
            assert(picks(whole.filter(pred), whole, places));
        }
    }
}

} // verus!
