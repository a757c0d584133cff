use vstd::prelude::*;
use vstd::string::*;
use crate::lines::split_lines;
use crate::matcher::{chars_of, find, folded_chars_of};
use crate::text::{
    fold_case, keeps_order, lemma_filter_keeps_order, line_matches, lines, matching_lines,
    occurs_at, occurs_in,
};

verus! {

/// Every line that a search reports is a line of the text that matches the
/// query, and every matching line of the text is reported.
pub proof fn lemma_exactly_the_matches(query: Seq<char>, text: Seq<char>, case_insensitive: bool)
    ensures
        forall|i: int|
            0 <= i < matching_lines(query, text, case_insensitive).len() ==> {
                let line = #[trigger] matching_lines(query, text, case_insensitive)[i];
                lines(text).contains(line) && line_matches(line, query, case_insensitive)
            },
        forall|i: int|
            0 <= i < lines(text).len() && line_matches(
                #[trigger] lines(text)[i],
                query,
                case_insensitive,
            ) ==> matching_lines(query, text, case_insensitive).contains(lines(text)[i]),
{
    let pred = |line: Seq<char>| line_matches(line, query, case_insensitive);
    let all = lines(text);
    let found = matching_lines(query, text, case_insensitive);
    assert forall|i: int| 0 <= i < found.len() implies all.contains(#[trigger] found[i])
        && line_matches(found[i], query, case_insensitive) by {
        all.lemma_filter_pred(pred, i);
        assert(found.contains(found[i]));
        all.lemma_filter_contains_rev(pred, found[i]);
    }
    assert forall|i: int|
        0 <= i < all.len() && line_matches(
            #[trigger] all[i],
            query,
            case_insensitive,
        ) implies found.contains(all[i]) by {
        all.lemma_filter_contains(pred, i);
    }
}

/// A search reports the matching lines in the order of the text, and no more
/// lines than the text has.
pub proof fn lemma_matches_in_text_order(query: Seq<char>, text: Seq<char>, case_insensitive: bool)
    ensures
        keeps_order(matching_lines(query, text, case_insensitive), lines(text)),
        matching_lines(query, text, case_insensitive).len() <= lines(text).len(),
{
    let pred = |line: Seq<char>| line_matches(line, query, case_insensitive);
    lemma_filter_keeps_order(lines(text), pred);
    lines(text).lemma_filter_len(pred);
}

/// Two searches with the same query, text and mode report the same lines.
pub proof fn lemma_search_repeatable(
    query: Seq<char>,
    text: Seq<char>,
    case_insensitive: bool,
    first: Seq<Seq<char>>,
    second: Seq<Seq<char>>,
)
    requires
        first == matching_lines(query, text, case_insensitive),
        second == matching_lines(query, text, case_insensitive),
    ensures
        first == second,
{
}

/// A search of an empty text reports nothing.
pub proof fn lemma_empty_text_has_no_match(query: Seq<char>, case_insensitive: bool)
    ensures
        matching_lines(query, Seq::empty(), case_insensitive) == Seq::<Seq<char>>::empty(),
{
    reveal(Seq::filter);
    assert(lines(Seq::empty()) =~= Seq::empty());
}

/// The empty query matches every line: a search for it reports all the lines
/// of the text.
pub proof fn lemma_empty_query_matches_all(text: Seq<char>, case_insensitive: bool)
    ensures
        matching_lines(Seq::empty(), text, case_insensitive) == lines(text),
{
    let pred = |line: Seq<char>| line_matches(line, Seq::empty(), case_insensitive);
    assert forall|i: int| 0 <= i < lines(text).len() implies pred(#[trigger] lines(text)[i]) by {
        let line = lines(text)[i];
        assert(fold_case(Seq::empty()) =~= Seq::empty());
        assert(occurs_at(Seq::empty(), line, 0)) by {
            assert(line.subrange(0, 0) =~= Seq::empty());
        }
        assert(occurs_at(Seq::empty(), fold_case(line), 0)) by {
            assert(fold_case(line).subrange(0, 0) =~= Seq::empty());
        }
    }
    lemma_filter_all(lines(text), pred);
}

/// A filter that every item passes leaves the sequence as it is.
proof fn lemma_filter_all<A>(items: Seq<A>, pred: spec_fn(A) -> bool)
    requires
        forall|i: int| 0 <= i < items.len() ==> pred(#[trigger] items[i]),
    ensures
        items.filter(pred) == items,
    decreases items.len(),
{
    reveal(Seq::filter);
    if items.len() > 0 {
        assert forall|i: int| 0 <= i < items.drop_last().len() implies pred(
            #[trigger] items.drop_last()[i],
        ) by {
            assert(items.drop_last()[i] == items[i]);
        }
        lemma_filter_all(items.drop_last(), pred);
        assert(items.drop_last().push(items.last()) =~= items);
    }
}

/// Searches `contents` line by line and returns the lines that match `query`,
/// in the order of the text and as the text spells them.
pub fn search_with(query: &str, contents: &str, case_insensitive: bool) -> (results: Vec<String>)
    ensures
        results.deep_view() == matching_lines(query@, contents@, case_insensitive),
        forall|i: int|
            0 <= i < results.len() ==> line_matches(#[trigger] results[i]@, query@, case_insensitive),
        keeps_order(results.deep_view(), lines(contents@)),
        results.len() <= lines(contents@).len(),
        contents@.len() == 0 ==> results.len() == 0,
        query@.len() == 0 ==> results.deep_view() == lines(contents@),
{
    let pattern = if case_insensitive {
        folded_chars_of(query)
    } else {
        chars_of(query)
    };
    let all = split_lines(contents);
    let ghost pred = |line: Seq<char>| line_matches(line, query@, case_insensitive);
    let mut results: Vec<String> = Vec::new();
    proof {
        reveal(Seq::filter);
        assert(all.deep_view().take(0) =~= Seq::empty());
        assert(results.deep_view() =~= Seq::empty());
    }
    let mut i: usize = 0;
    while i < all.len()
        invariant
            i <= all.len(),
            pattern@ == if case_insensitive {
                fold_case(query@)
            } else {
                query@
            },
            pred == |line: Seq<char>| line_matches(line, query@, case_insensitive),
            results.deep_view() == all.deep_view().take(i as int).filter(pred),
        decreases all.len() - i,
    {
        let line = all[i];
        let line_chars = if case_insensitive {
            folded_chars_of(line)
        } else {
            chars_of(line)
        };
        let ghost before = results.deep_view();
        proof {
            let seen = all.deep_view().take(i as int);
            assert(all.deep_view().take(i + 1) =~= seen.push(line@));
            seen.lemma_filter_push(line@, pred);
        }
        if find(line_chars.as_slice(), pattern.as_slice()).is_some() {
            results.push(line.to_owned());
            assert(results.deep_view() =~= before.push(line@));
        }
        i += 1;
    }
    proof {
        assert(all.deep_view().take(i as int) =~= all.deep_view());
        lemma_exactly_the_matches(query@, contents@, case_insensitive);
        lemma_matches_in_text_order(query@, contents@, case_insensitive);
        if contents@.len() == 0 {
            lemma_empty_text_has_no_match(query@, case_insensitive);
        }
        if query@.len() == 0 {
            assert(query@ =~= Seq::empty());
            lemma_empty_query_matches_all(contents@, case_insensitive);
        }
        assert forall|i: int| 0 <= i < results.len() implies line_matches(
            #[trigger] results[i]@,
            query@,
            case_insensitive,
        ) by {
            assert(results[i]@ == results.deep_view()[i]);
        }
    }
    results
}

/// Returns the lines of `contents` that contain `query`, in the order of the
/// text.
pub fn search(query: &str, contents: &str) -> (results: Vec<String>)
    ensures
        results.deep_view() == matching_lines(query@, contents@, false),
        forall|i: int| 0 <= i < results.len() ==> occurs_in(query@, #[trigger] results[i]@),
        keeps_order(results.deep_view(), lines(contents@)),
        results.len() <= lines(contents@).len(),
        contents@.len() == 0 ==> results.len() == 0,
        query@.len() == 0 ==> results.deep_view() == lines(contents@),
{
    search_with(query, contents, false)
}

/// Returns the lines of `contents` that contain `query` when the case of
/// ASCII letters is ignored, in the order of the text and as the text spells
/// them.
pub fn search_case_insensitive(query: &str, contents: &str) -> (results: Vec<String>)
    ensures
        results.deep_view() == matching_lines(query@, contents@, true),
        forall|i: int|
            0 <= i < results.len() ==> occurs_in(
                fold_case(query@),
                fold_case(#[trigger] results[i]@),
            ),
        keeps_order(results.deep_view(), lines(contents@)),
        results.len() <= lines(contents@).len(),
        contents@.len() == 0 ==> results.len() == 0,
        query@.len() == 0 ==> results.deep_view() == lines(contents@),
{
    search_with(query, contents, true)
}

} // verus!
