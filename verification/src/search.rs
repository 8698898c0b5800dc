//! Finding the lines of a text that hold a query.
//!
//! A line holds a query when the query stands somewhere in it, character for
//! character. Nothing is folded or trimmed: the test is case-sensitive, and
//! the empty query stands in every line.

use vstd::prelude::*;
use crate::slices::{
    byte_len, chars_of, lemma_bytes_of_ascii, lemma_bytes_of_prefix, slice_between, width,
};
use crate::lines::{first_line_len, lemma_first_line_len_is, lines, without_cr};

verus! {

/// `query` stands in `line` from place `at` on.
pub open spec fn occurs_at(line: Seq<char>, query: Seq<char>, at: int) -> bool {
    &&& 0 <= at
    &&& at + query.len() <= line.len()
    &&& line.subrange(at, at + query.len()) == query
}

/// `query` stands somewhere in `line`.
pub open spec fn has_match(line: Seq<char>, query: Seq<char>) -> bool {
    exists|at: int| occurs_at(line, query, at)
}

/// The lines of `contents` that hold `query`, in the order of the text.
pub open spec fn matching_lines(query: Seq<char>, contents: Seq<char>) -> Seq<Seq<char>> {
    lines(contents).filter(|line: Seq<char>| has_match(line, query))
}

/// The views of a list of string slices, in order.
pub open spec fn line_views(found: Seq<&str>) -> Seq<Seq<char>> {
    found.map_values(|line: &str| line@)
}

/// `line` alone if it holds `query`, and nothing if it does not.
spec fn kept(query: Seq<char>, line: Seq<char>) -> Seq<Seq<char>> {
    if has_match(line, query) {
        seq![line]
    } else {
        Seq::empty()
    }
}

/// The search goes line by line: the first line is kept or dropped, and the
/// search goes on behind its line feed.
proof fn lemma_matching_lines_step(query: Seq<char>, text: Seq<char>)
    requires
        text.len() > 0,
    ensures
        matching_lines(query, text) == if first_line_len(text) >= text.len() {
            kept(query, text)
        } else {
            kept(query, without_cr(text.take(first_line_len(text) as int))) + matching_lines(
                query,
                text.skip((first_line_len(text) + 1) as int),
            )
        },
{
    let pred = |line: Seq<char>| has_match(line, query);
    let n = first_line_len(text) as int;
    let first = if n >= text.len() {
        text
    } else {
        without_cr(text.take(n))
    };
    assert(seq![first].filter(pred) == kept(query, first)) by {
        reveal_with_fuel(Seq::filter, 2);
    }
    if n < text.len() {
        Seq::filter_distributes_over_add(seq![first], lines(text.skip(n + 1)), pred);
    }
}

/// A predicate that holds of every element filters nothing out.
proof fn lemma_filter_keeps_all<A>(s: Seq<A>, pred: spec_fn(A) -> bool)
    requires
        forall|i: int| 0 <= i < s.len() ==> pred(#[trigger] s[i]),
    ensures
        s.filter(pred) == s,
    decreases s.len(),
{
    reveal(Seq::filter);
    if s.len() > 0 {
        let front = s.drop_last();
        lemma_filter_keeps_all(front, pred);
    }
}

/// The empty query stands in every line.
pub proof fn lemma_empty_query_stands_everywhere(line: Seq<char>)
    ensures
        has_match(line, Seq::empty()),
{
    assert(line.subrange(0, 0) =~= Seq::<char>::empty());
    assert(occurs_at(line, Seq::empty(), 0));
}

/// A search for the empty query finds every line of the text.
pub proof fn lemma_empty_query_finds_every_line(contents: Seq<char>)
    ensures
        matching_lines(Seq::empty(), contents) == lines(contents),
{
    let pred = |line: Seq<char>| has_match(line, Seq::<char>::empty());
    assert forall|i: int| 0 <= i < lines(contents).len() implies pred(
        #[trigger] lines(contents)[i],
    ) by {
        lemma_empty_query_stands_everywhere(lines(contents)[i]);
    }
    lemma_filter_keeps_all(lines(contents), pred);
}

/// A search for a query that no line holds finds nothing.
pub proof fn lemma_no_match_finds_nothing(query: Seq<char>, contents: Seq<char>)
    requires
        forall|i: int|
            0 <= i < lines(contents).len() ==> !has_match(#[trigger] lines(contents)[i], query),
    ensures
        matching_lines(query, contents) == Seq::<Seq<char>>::empty(),
{
    let pred = |line: Seq<char>| has_match(line, query);
    let found = lines(contents).filter(pred);
    if found.len() > 0 {
        lines(contents).lemma_filter_contains_rev(pred, found[0]);
        lines(contents).lemma_filter_pred(pred, 0);
    }
}

/// What a search finds is exactly the lines of the text that hold the query.
pub proof fn lemma_found_iff_matching_line(query: Seq<char>, contents: Seq<char>, line: Seq<char>)
    ensures
        matching_lines(query, contents).contains(line) <==> lines(contents).contains(line)
            && has_match(line, query),
{
    let pred = |line: Seq<char>| has_match(line, query);
    let all = lines(contents);
    let found = all.filter(pred);
    if found.contains(line) {
        let k = choose|k: int| 0 <= k < found.len() && found[k] == line;
        all.lemma_filter_contains_rev(pred, line);
        all.lemma_filter_pred(pred, k);
    }
    if all.contains(line) && has_match(line, query) {
        let i = choose|i: int| 0 <= i < all.len() && all[i] == line;
        all.lemma_filter_contains(pred, i);
    }
}

/// The place of the first line feed of `text` at or after `start`, which is
/// the length of `text` if there is none, and the byte at which it stands in
/// the string, given the byte at which `start` stands.
fn line_end(text: &[char], start: usize, start_byte: usize) -> (stop: (usize, usize))
    requires
        start <= text@.len(),
        start_byte == byte_len(text@.take(start as int)),
        byte_len(text@) <= usize::MAX,
    ensures
        start <= stop.0 <= text@.len(),
        stop.0 - start == first_line_len(text@.skip(start as int)),
        stop.0 < text@.len() ==> text@[stop.0 as int] == '\n',
        stop.1 == byte_len(text@.take(stop.0 as int)),
{
    let mut stop = start;
    let mut stop_byte = start_byte;
    while stop < text.len() && text[stop] != '\n'
        invariant
            start <= stop <= text@.len(),
            forall|i: int| start <= i < stop ==> text@[i] != '\n',
            stop_byte == byte_len(text@.take(stop as int)),
            byte_len(text@) <= usize::MAX,
        decreases text@.len() - stop,
    {
        let bytes = width(text[stop]);
        proof {
            lemma_bytes_of_prefix(text@, stop as int);
            lemma_bytes_of_prefix(text@, stop + 1);
        }
        stop_byte += bytes;
        stop += 1;
    }
    proof {
        lemma_first_line_len_is(text@.skip(start as int), stop - start);
    }
    (stop, stop_byte)
}

/// Whether `query` stands in `text` from place `at` on.
fn stands_at(text: &[char], at: usize, query: &[char]) -> (yes: bool)
    requires
        at + query@.len() <= text@.len(),
    ensures
        yes == (text@.subrange(at as int, at + query@.len()) == query@),
{
    let mut k: usize = 0;
    while k < query.len()
        invariant
            k <= query@.len(),
            at + query@.len() <= text.len() == text@.len(),
            forall|j: int| 0 <= j < k ==> text@[at + j] == query@[j],
        decreases query@.len() - k,
    {
        if text[at + k] != query[k] {
            return false;
        }
        k += 1;
    }
    assert(text@.subrange(at as int, at + query@.len()) =~= query@);
    true
}

/// Whether the part of `text` from `from` up to `to` holds `query`.
fn part_holds(text: &[char], from: usize, to: usize, query: &[char]) -> (yes: bool)
    requires
        from <= to <= text@.len(),
    ensures
        yes == has_match(text@.subrange(from as int, to as int), query@),
{
    let ghost line = text@.subrange(from as int, to as int);
    if query.len() > to - from {
        return false;
    }
    let last: usize = to - query.len();
    let mut at: usize = from;
    loop
        invariant
            from <= at <= last,
            last + query@.len() == to,
            to <= text@.len(),
            line == text@.subrange(from as int, to as int),
            forall|j: int| 0 <= j < at - from ==> !occurs_at(line, query@, j),
        decreases last - at,
    {
        let here = stands_at(text, at, query);
        assert(here == occurs_at(line, query@, at - from)) by {
            assert(line.subrange(at - from, at - from + query@.len()) =~= text@.subrange(
                at as int,
                at + query@.len(),
            ));
        }
        if here {
            return true;
        }
        if at == last {
            return false;
        }
        at += 1;
    }
}

/// Finds the lines of `contents` that hold `query`.
///
/// The result is every such line, once for each time it stands in the text,
/// in the order of the text; each is a slice of `contents`.
pub fn search<'a>(query: &str, contents: &'a str) -> (found: Vec<&'a str>)
    ensures
        line_views(found@) == matching_lines(query@, contents@),
{
    let text = chars_of(contents);
    let wanted = chars_of(query);
    let bytes = contents.as_bytes();
    let mut found: Vec<&'a str> = Vec::new();
    let mut start: usize = 0;
    let mut start_byte: usize = 0;
    proof {
        assert(bytes@.len() == bytes.len());
        assert(text@.skip(0) =~= text@);
    }
    while start < text.len()
        invariant
            text@ == contents@,
            wanted@ == query@,
            start <= text@.len(),
            start_byte == byte_len(text@.take(start as int)),
            byte_len(text@) <= usize::MAX,
            line_views(found@) + matching_lines(query@, text@.skip(start as int))
                == matching_lines(query@, text@),
        decreases text@.len() - start,
    {
        let ghost rest = text@.skip(start as int);
        let (stop, stop_byte) = line_end(text.as_slice(), start, start_byte);
        let ended = stop < text.len();
        let stripped = ended && stop > start && text[stop - 1] == '\r';
        let (end, end_byte) = if stripped {
            proof {
                lemma_bytes_of_prefix(text@, stop as int);
                lemma_bytes_of_ascii('\r');
            }
            (stop - 1, stop_byte - 1)
        } else {
            (stop, stop_byte)
        };
        let ghost line = text@.subrange(start as int, end as int);
        proof {
            lemma_matching_lines_step(query@, rest);
            let whole = rest.take(stop - start);
            if ended {
                assert(without_cr(whole) =~= line);
            }
        }
        if part_holds(text.as_slice(), start, end, wanted.as_slice()) {
            let slice = slice_between(
                contents,
                start_byte,
                end_byte,
                Ghost(start as int),
                Ghost(end as int),
            );
            found.push(slice);
        }
        if ended {
            proof {
                assert(rest.skip(stop - start + 1) =~= text@.skip(stop + 1));
                lemma_bytes_of_prefix(text@, stop + 1);
                lemma_bytes_of_ascii('\n');
            }
            start = stop + 1;
            start_byte = stop_byte + 1;
        } else {
            start = stop;
            start_byte = stop_byte;
        }
    }
    found
}

} // verus!
