//! Cutting a string slice at places counted in characters.
//!
//! A string slice is cut at byte offsets. The functions here keep count of
//! the bytes that a row of characters takes, so that a cut lands where a
//! character begins.

use vstd::prelude::*;
use vstd::string::StringSliceAdditionalSpecFns;
use vstd::utf8::{
    encode_scalar, encode_utf8, encode_utf8_decode_utf8, encode_utf8_first_scalar,
    encode_utf8_valid_utf8, is_char_boundary,
};

verus! {

/// How many bytes `text` takes as a string.
pub open spec fn byte_len(text: Seq<char>) -> nat {
    encode_utf8(text).len()
}

/// No character is below the first of them.
pub(crate) proof fn lemma_char_is_not_negative(c: char)
    ensures
        '\0' <= c,
{
}

/// The bytes of two texts in a row are the bytes of the one and then the
/// bytes of the other.
pub(crate) proof fn lemma_bytes_of_concat(a: Seq<char>, b: Seq<char>)
    ensures
        encode_utf8(a + b) == encode_utf8(a) + encode_utf8(b),
        byte_len(a + b) == byte_len(a) + byte_len(b),
    decreases a.len(),
{
    if a.len() > 0 {
        assert((a + b).drop_first() =~= a.drop_first() + b);
        lemma_bytes_of_concat(a.drop_first(), b);
    }
}

/// A text of one character takes the bytes of that character.
pub(crate) proof fn lemma_bytes_of_one(c: char)
    ensures
        encode_utf8(seq![c]) == encode_scalar(c as u32),
{
    assert(seq![c].drop_first() =~= Seq::<char>::empty());
    assert(encode_utf8(Seq::<char>::empty()) =~= Seq::<u8>::empty());
}

/// A character below 128 takes one byte.
pub(crate) proof fn lemma_bytes_of_ascii(c: char)
    requires
        c <= '\u{7f}',
    ensures
        byte_len(seq![c]) == 1,
{
    lemma_bytes_of_one(c);
}

/// The first `k + 1` characters of a text take the bytes of the first `k` and
/// those of the next one, and no more than the whole text.
pub(crate) proof fn lemma_bytes_of_prefix(text: Seq<char>, k: int)
    requires
        0 <= k <= text.len(),
    ensures
        byte_len(text.take(k)) <= byte_len(text),
        k > 0 ==> byte_len(text.take(k)) == byte_len(text.take(k - 1)) + byte_len(
            seq![text[k - 1]],
        ),
{
    assert(text =~= text.take(k) + text.skip(k));
    lemma_bytes_of_concat(text.take(k), text.skip(k));
    if k > 0 {
        assert(text.take(k) =~= text.take(k - 1) + seq![text[k - 1]]);
        lemma_bytes_of_concat(text.take(k - 1), seq![text[k - 1]]);
    }
}

/// Where one text ends and the next begins, a character begins.
pub(crate) proof fn lemma_boundary_between(a: Seq<char>, b: Seq<char>)
    ensures
        is_char_boundary(encode_utf8(a + b), byte_len(a) as int),
    decreases a.len(),
{
    let whole = a + b;
    let bytes = encode_utf8(whole);
    encode_utf8_valid_utf8(whole);
    if a.len() > 0 {
        let rest = a.drop_first() + b;
        assert(whole.drop_first() =~= rest);
        encode_utf8_first_scalar(whole);
        lemma_bytes_of_concat(a, b);
        lemma_boundary_between(a.drop_first(), b);
        assert(bytes.subrange(encode_scalar(a[0] as u32).len() as int, bytes.len() as int)
            =~= encode_utf8(rest));
    }
}

/// Two texts with the same bytes are the same text.
pub(crate) proof fn lemma_same_bytes_same_text(a: Seq<char>, b: Seq<char>)
    requires
        encode_utf8(a) == encode_utf8(b),
    ensures
        a == b,
{
    encode_utf8_decode_utf8(a);
    encode_utf8_decode_utf8(b);
}

/// The characters of `text`, one element each.
pub(crate) fn chars_of(text: &str) -> (chars: Vec<char>)
    ensures
        chars@ == text@,
{
    let mut chars: Vec<char> = Vec::new();
    for c in it: text.chars()
        invariant
            chars@ == it.seq().take(it.index() as int),
            it.seq() == text@,
    {
        chars.push(c);
    }
    chars
}

/// How many bytes the character `c` takes in a string.
pub(crate) fn width(c: char) -> (bytes: usize)
    ensures
        bytes == byte_len(seq![c]),
        1 <= bytes <= 4,
{
    proof {
        lemma_bytes_of_one(c);
    }
    let code = c as u32;
    if code < 0x80 {
        1
    } else if code < 0x800 {
        2
    } else if code < 0x10000 {
        3
    } else {
        4
    }
}

/// The part of `text` from character `from` up to character `to`, which
/// begin at the bytes `from_byte` and `to_byte`.
pub(crate) fn slice_between<'a>(
    text: &'a str,
    from_byte: usize,
    to_byte: usize,
    Ghost(from): Ghost<int>,
    Ghost(to): Ghost<int>,
) -> (part: &'a str)
    requires
        0 <= from <= to <= text@.len(),
        from_byte == byte_len(text@.take(from)),
        to_byte == byte_len(text@.take(to)),
    ensures
        part@ == text@.subrange(from, to),
{
    let ghost front = text@.take(to);
    let ghost skipped = text@.take(from);
    let ghost wanted = text@.subrange(from, to);
    proof {
        assert(text@ =~= front + text@.skip(to));
        lemma_boundary_between(front, text@.skip(to));
        lemma_bytes_of_concat(front, text@.skip(to));
    }
    let (head, _) = text.split_at(to_byte);
    proof {
        assert(head.spec_bytes() =~= encode_utf8(front));
        lemma_same_bytes_same_text(head@, front);
        assert(front =~= skipped + wanted);
        lemma_boundary_between(skipped, wanted);
        lemma_bytes_of_concat(skipped, wanted);
    }
    let (_, part) = head.split_at(from_byte);
    proof {
        assert(part.spec_bytes() =~= encode_utf8(wanted));
        lemma_same_bytes_same_text(part@, wanted);
    }
    part
}

} // verus!
