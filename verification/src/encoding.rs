use vstd::prelude::*;
use vstd::string::*;
use vstd::utf8::*;

verus! {

/// The number of bytes that `text` takes up in UTF-8.
pub open spec fn byte_len(text: Seq<char>) -> nat {
    encode_utf8(text).len()
}

/// The encoding of a concatenation is the concatenation of the encodings.
pub proof fn lemma_encode_concat(head: Seq<char>, tail: Seq<char>)
    ensures
        encode_utf8(head + tail) == encode_utf8(head) + encode_utf8(tail),
    decreases head.len(),
{
    if head.len() == 0 {
        assert(head + tail =~= tail);
        assert(encode_utf8(head) + encode_utf8(tail) =~= encode_utf8(tail));
    } else {
        assert((head + tail).drop_first() =~= head.drop_first() + tail);
        lemma_encode_concat(head.drop_first(), tail);
        assert(encode_utf8(head + tail) =~= encode_utf8(head) + encode_utf8(tail));
    }
}

/// Where one text ends and the next begins is a character boundary of the
/// encoding of their concatenation.
pub proof fn lemma_boundary_between(head: Seq<char>, tail: Seq<char>)
    ensures
        is_char_boundary(encode_utf8(head + tail), byte_len(head) as int),
    decreases head.len(),
{
    let whole = head + tail;
    let bytes = encode_utf8(whole);
    encode_utf8_valid_utf8(whole);
    if head.len() > 0 {
        encode_utf8_first_scalar(whole);
        assert(whole.drop_first() =~= head.drop_first() + tail);
        assert(pop_first_scalar(bytes) =~= encode_utf8(whole.drop_first()));
        lemma_boundary_between(head.drop_first(), tail);
        assert(byte_len(head) == encode_scalar(head[0] as u32).len() + byte_len(
            head.drop_first(),
        ));
        lemma_encode_concat(head, tail);
    }
}

/// The number of bytes that `c` takes up in UTF-8.
pub fn utf8_width(c: char) -> (width: usize)
    ensures
        width == encode_scalar(c as u32).len(),
        1 <= width <= 4,
{
    proof {
        char_is_scalar(c);
    }
    let scalar = c as u32;
    if scalar < 0x80 {
        1
    } else if scalar < 0x800 {
        2
    } else if scalar < 0x10000 {
        3
    } else {
        4
    }
}

/// Decides whether two string slices hold the same text.
pub fn same_text(a: &str, b: &str) -> (same: bool)
    ensures
        same == (a@ == b@),
{
    let left = a.as_bytes();
    let right = b.as_bytes();
    proof {
        // A text is determined by its encoding.
        encode_utf8_decode_utf8(a@);
        encode_utf8_decode_utf8(b@);
    }
    if left.len() != right.len() {
        return false;
    }
    let mut i: usize = 0;
    while i < left.len()
        invariant
            i <= left.len(),
            left.len() == right.len(),
            left@ == a.spec_bytes(),
            right@ == b.spec_bytes(),
            forall|k: int| 0 <= k < i ==> left[k] == right[k],
        decreases left.len() - i,
    {
        if left[i] != right[i] {
            assert(left@[i as int] != right@[i as int]);
            return false;
        }
        i += 1;
    }
    assert(left@ =~= right@);
    true
}

/// Splits `text` behind its first `chars` characters, which take up `bytes`
/// bytes.
pub(crate) fn split_behind<'a>(text: &'a str, Ghost(chars): Ghost<int>, bytes: usize) -> (parts: (
    &'a str,
    &'a str,
))
    requires
        0 <= chars <= text@.len(),
        bytes == byte_len(text@.take(chars)),
    ensures
        parts.0@ == text@.take(chars),
        parts.1@ == text@.skip(chars),
{
    let ghost head = text@.take(chars);
    let ghost tail = text@.skip(chars);
    proof {
        assert(text@ =~= head + tail);
        lemma_boundary_between(head, tail);
        lemma_encode_concat(head, tail);
    }
    let parts = text.split_at(bytes);
    proof {
        assert(parts.0.spec_bytes() =~= encode_utf8(head));
        assert(parts.1.spec_bytes() =~= encode_utf8(tail));
        encode_utf8_decode_utf8(parts.0@);
        encode_utf8_decode_utf8(parts.1@);
        encode_utf8_decode_utf8(head);
        encode_utf8_decode_utf8(tail);
    }
    parts
}

} // verus!
