//! What the lines of a text are.
//!
//! A text is cut after each line feed. The line feed is not part of the line,
//! and neither is a carriage return that stands directly before it. Whatever
//! follows the last line feed is a line of its own if it is not empty, so a
//! final line feed is optional.

use vstd::prelude::*;

verus! {

/// How many characters stand before the first line feed of `text`: the length
/// of `text` if it has none.
pub open spec fn first_line_len(text: Seq<char>) -> nat
    decreases text.len(),
{
    if text.len() == 0 || text[0] == '\n' {
        0
    } else {
        1 + first_line_len(text.drop_first())
    }
}

/// `line` without the carriage return at its end, if it has one.
pub open spec fn without_cr(line: Seq<char>) -> Seq<char> {
    if line.len() > 0 && line.last() == '\r' {
        line.drop_last()
    } else {
        line
    }
}

/// The lines of `text`, in order.
pub open spec fn lines(text: Seq<char>) -> Seq<Seq<char>>
    decreases text.len(),
{
    let n = first_line_len(text) as int;
    if text.len() == 0 {
        Seq::empty()
    } else if n >= text.len() {
        seq![text]
    } else {
        seq![without_cr(text.take(n))] + lines(text.skip(n + 1))
    }
}

/// `first_line_len` is the place of the first line feed: it is within the
/// text, no line feed stands before it, and one stands at it unless it is the
/// end of the text.
pub proof fn lemma_first_line_len(text: Seq<char>)
    ensures
        first_line_len(text) <= text.len(),
        forall|i: int| 0 <= i < first_line_len(text) ==> text[i] != '\n',
        first_line_len(text) < text.len() ==> text[first_line_len(text) as int] == '\n',
    decreases text.len(),
{
    if text.len() == 0 || text[0] == '\n' {
    } else {
        let rest = text.drop_first();
        lemma_first_line_len(rest);
        assert forall|i: int| 0 <= i < first_line_len(text) implies text[i] != '\n' by {
            if i > 0 {
                assert(text[i] == rest[i - 1]);
            }
        }
    }
}

/// The place of the first line feed is the only one that
/// [`lemma_first_line_len`] describes.
pub proof fn lemma_first_line_len_is(text: Seq<char>, n: int)
    requires
        0 <= n <= text.len(),
        forall|i: int| 0 <= i < n ==> text[i] != '\n',
        n < text.len() ==> text[n] == '\n',
    ensures
        first_line_len(text) == n,
{
    lemma_first_line_len(text);
}

/// No line holds a line feed.
pub proof fn lemma_lines_hold_no_line_feed(text: Seq<char>, k: int, i: int)
    requires
        0 <= k < lines(text).len(),
        0 <= i < lines(text)[k].len(),
    ensures
        lines(text)[k][i] != '\n',
    decreases text.len(),
{
    let n = first_line_len(text) as int;
    lemma_first_line_len(text);
    if 0 <= n < text.len() && k > 0 {
        lemma_lines_hold_no_line_feed(text.skip(n + 1), k - 1, i);
    }
}

/// A text without a line feed is one line, unless it is empty.
pub proof fn lemma_lines_of_one_line(text: Seq<char>)
    requires
        text.len() > 0,
        forall|i: int| 0 <= i < text.len() ==> text[i] != '\n',
    ensures
        lines(text) == seq![text],
{
    lemma_first_line_len_is(text, text.len() as int);
}

/// A line feed at the end of a text adds no line to it.
pub proof fn lemma_final_line_feed_is_optional(text: Seq<char>)
    requires
        text.len() > 0,
        text.last() != '\n',
        text.last() != '\r',
    ensures
        lines(text.push('\n')) == lines(text),
    decreases text.len(),
{
    let ended = text.push('\n');
    let n = first_line_len(text) as int;
    lemma_first_line_len(text);
    lemma_first_line_len_is(ended, n);
    if n >= text.len() {
        assert(ended.take(n) == text);
        assert(ended.skip(n + 1) == Seq::<char>::empty());
        assert(lines(Seq::<char>::empty()) == Seq::<Seq<char>>::empty());
    } else {
        let rest = text.skip(n + 1);
        assert(ended.take(n) == text.take(n));
        assert(ended.skip(n + 1) == rest.push('\n'));
        lemma_final_line_feed_is_optional(rest);
    }
}

} // verus!
