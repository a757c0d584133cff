use vstd::prelude::*;
use vstd::string::*;
use vstd::std_specs::iter::IteratorSpec;
use crate::text::{fold_case, lowercase, occurs_at, occurs_in};

verus! {

/// Turns an ASCII upper-case letter into lower case and leaves any other
/// character as it is.
pub fn to_lowercase(c: char) -> (lower: char)
    ensures
        lower == lowercase(c),
{
    if 'A' <= c && c <= 'Z' {
        ((c as u8) + 32) as char
    } else {
        c
    }
}

/// The characters of `text`.
pub fn chars_of(text: &str) -> (chars: Vec<char>)
    ensures
        chars@ == text@,
{
    let mut chars: Vec<char> = Vec::new();
    for c in it: text.chars()
        invariant
            chars@ == it.seq().take(it.index() as int),
    {
        chars.push(c);
    }
    chars
}

/// The characters of `text`, folded to lower case.
pub fn folded_chars_of(text: &str) -> (chars: Vec<char>)
    ensures
        chars@ == fold_case(text@),
{
    let mut chars: Vec<char> = Vec::new();
    for c in it: text.chars()
        invariant
            it.seq() == text@,
            chars@ == fold_case(text@.take(it.index() as int)),
    {
        chars.push(to_lowercase(c));
        assert(chars@ =~= fold_case(text@.take(it.index() + 1)));
    }
    assert(text@.take(text@.len() as int) =~= text@);
    chars
}

/// Tells whether `needle` stands in `hay` at position `at`.
fn matches_at(hay: &[char], needle: &[char], at: usize) -> (found: bool)
    requires
        at + needle.len() <= hay.len(),
    ensures
        found == occurs_at(needle@, hay@, at as int),
{
    let mut i: usize = 0;
    while i < needle.len()
        invariant
            i <= needle.len(),
            at + needle.len() <= hay.len(),
            forall|k: int| 0 <= k < i ==> hay@[at + k] == needle@[k],
        decreases needle.len() - i,
    {
        if hay[at + i] != needle[i] {
            assert(hay@.subrange(at as int, at + needle@.len())[i as int] != needle@[i as int]);
            return false;
        }
        i += 1;
    }
    assert(hay@.subrange(at as int, at + needle@.len()) =~= needle@);
    true
}

/// Finds the first position at which `needle` stands in `hay`.
pub fn find(hay: &[char], needle: &[char]) -> (position: Option<usize>)
    ensures
        match position {
            Some(at) => occurs_at(needle@, hay@, at as int) && forall|earlier: int|
                0 <= earlier < at ==> !occurs_at(needle@, hay@, earlier),
            None => !occurs_in(needle@, hay@),
        },
{
    if needle.len() > hay.len() {
        return None;
    }
    let last = hay.len() - needle.len();
    let mut at: usize = 0;
    loop
        invariant
            at <= last,
            last == hay.len() - needle.len(),
            forall|earlier: int| 0 <= earlier < at ==> !occurs_at(needle@, hay@, earlier),
        decreases last - at,
    {
        if matches_at(hay, needle, at) {
            return Some(at);
        }
        if at == last {
            return None;
        }
        at += 1;
    }
}

/// Tells whether `needle` is a substring of `hay`.
pub fn contains(hay: &str, needle: &str) -> (found: bool)
    ensures
        found == occurs_in(needle@, hay@),
{
    let hay_chars = chars_of(hay);
    let needle_chars = chars_of(needle);
    find(hay_chars.as_slice(), needle_chars.as_slice()).is_some()
}

/// Tells whether `needle` is a substring of `hay` when the case of ASCII
/// letters is ignored.
pub fn contains_ignoring_case(hay: &str, needle: &str) -> (found: bool)
    ensures
        found == occurs_in(fold_case(needle@), fold_case(hay@)),
{
    let hay_chars = folded_chars_of(hay);
    let needle_chars = folded_chars_of(needle);
    find(hay_chars.as_slice(), needle_chars.as_slice()).is_some()
}

} // verus!
