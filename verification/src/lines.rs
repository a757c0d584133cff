use vstd::prelude::*;
use vstd::string::*;
use vstd::utf8::*;
use vstd::std_specs::iter::IteratorSpec;
use crate::encoding::{byte_len, lemma_encode_concat, split_behind, utf8_width};
use crate::text::{
    first_line_len, lemma_first_line_len, lemma_first_line_len_is, lines, strip_carriage_return,
};

verus! {

/// Where the first line of a text ends.
struct LineEnd {
    /// The number of bytes before the line's end.
    bytes: usize,
    /// The number of characters before the line's end.
    chars: Ghost<int>,
    /// Whether the last character before the line's end is a carriage return.
    after_carriage_return: bool,
}

/// Finds the end of the first line of `text`: its first line feed, or the end
/// of the text.
fn first_line_end(text: &str) -> (end: LineEnd)
    ensures
        end.chars@ == first_line_len(text@),
        end.bytes == byte_len(text@.take(end.chars@)),
        end.after_carriage_return == (end.chars@ > 0 && text@[end.chars@ - 1] == '\r'),
{
    let total = text.as_bytes().len();
    let mut bytes: usize = 0;
    let mut after_carriage_return = false;
    proof {
        assert(text@.take(0) =~= Seq::empty());
    }
    for c in it: text.chars()
        invariant
            it.seq() == text@,
            it.index() <= text@.len(),
            total == byte_len(text@),
            bytes == byte_len(text@.take(it.index() as int)),
            after_carriage_return == (it.index() > 0 && text@[it.index() - 1] == '\r'),
            forall|i: int| 0 <= i < it.index() ==> text@[i] != '\n',
    {
        let ghost seen = it.index() as int;
        if c == '\n' {
            proof {
                lemma_first_line_len_is(text@, seen);
            }
            return LineEnd { bytes, chars: Ghost(seen), after_carriage_return };
        }
        proof {
            assert(text@.take(seen + 1) =~= text@.take(seen) + seq![c]);
            lemma_encode_concat(text@.take(seen), seq![c]);
            assert(encode_utf8(seq![c]) =~= encode_scalar(c as u32)) by {
                reveal_with_fuel(encode_utf8, 2);
            }
            assert(text@ =~= text@.take(seen + 1) + text@.skip(seen + 1));
            lemma_encode_concat(text@.take(seen + 1), text@.skip(seen + 1));
        }
        bytes += utf8_width(c);
        after_carriage_return = c == '\r';
    }
    proof {
        lemma_first_line_len_is(text@, text@.len() as int);
    }
    LineEnd { bytes, chars: Ghost(text@.len() as int), after_carriage_return }
}

/// Splits `text` into its lines, each a slice of `text`.
pub fn split_lines<'a>(text: &'a str) -> (out: Vec<&'a str>)
    ensures
        out.deep_view() == lines(text@),
{
    let mut out: Vec<&'a str> = Vec::new();
    let mut rest: &'a str = text;
    assert(out.deep_view() =~= Seq::empty());
    while !rest.is_empty()
        invariant
            lines(text@) == out.deep_view() + lines(rest@),
        decreases rest@.len(),
    {
        let end = first_line_end(rest);
        let ghost done = out.deep_view();
        proof {
            lemma_first_line_len(rest@);
        }
        let (line, tail) = split_behind(rest, Ghost(end.chars@), end.bytes);
        if tail.is_empty() {
            out.push(line);
            proof {
                assert(line@ =~= rest@);
                assert(out.deep_view() =~= done.push(line@));
                assert(lines(tail@) =~= Seq::empty());
            }
            rest = tail;
        } else {
            proof {
                assert(tail@[0] == '\n');
                assert(tail@.take(1) =~= seq!['\n']);
                assert(encode_utf8(seq!['\n']).len() == 1) by {
                    reveal_with_fuel(encode_utf8, 2);
                }
            }
            let (_, after) = split_behind(tail, Ghost(1), 1);
            let kept = if end.after_carriage_return {
                proof {
                    let before = line@.drop_last();
                    assert(line@ =~= before + seq!['\r']);
                    lemma_encode_concat(before, seq!['\r']);
                    assert(encode_utf8(seq!['\r']).len() == 1) by {
                        reveal_with_fuel(encode_utf8, 2);
                    }
                    assert(line@.take(end.chars@ - 1) =~= before);
                }
                let (stripped, _) = split_behind(line, Ghost(end.chars@ - 1), end.bytes - 1);
                stripped
            } else {
                line
            };
            out.push(kept);
            proof {
                assert(kept@ == strip_carriage_return(rest@.take(end.chars@)));
                assert(after@ =~= rest@.skip(end.chars@ + 1));
                assert(out.deep_view() =~= done.push(kept@));
                assert(lines(rest@) == seq![kept@] + lines(after@));
            }
            rest = after;
        }
    }
    assert(lines(rest@) =~= Seq::empty());
    out
}

} // verus!
