//! The order of a playing card's kind.
//!
//! A card is written as one character for its suit and then its kind: `a`,
//! `k`, `q`, `j` or `t` for the ace, the court cards and the ten, or the
//! number of a number card.

use vstd::prelude::*;
use vstd::utf8::{encode_utf8, is_char_boundary};
use crate::slices::{
    chars_of, lemma_boundary_between, lemma_bytes_of_ascii, lemma_bytes_of_concat,
    lemma_char_is_not_negative, lemma_same_bytes_same_text,
};

verus! {

/// `c` is one of the ten decimal digits.
pub open spec fn is_digit(c: char) -> bool {
    '0' <= c <= '9'
}

/// The number that the digit `c` stands for.
pub open spec fn digit_value(c: char) -> int {
    c as int - '0' as int
}

/// The number that a row of decimal digits stands for; zero for the empty row.
pub open spec fn digits_value(digits: Seq<char>) -> int
    decreases digits.len(),
{
    if digits.len() == 0 {
        0
    } else {
        10 * digits_value(digits.drop_last()) + digit_value(digits.last())
    }
}

/// Every character of `digits` is a decimal digit.
pub open spec fn all_digits(digits: Seq<char>) -> bool {
    forall|i: int| 0 <= i < digits.len() ==> is_digit(#[trigger] digits[i])
}

/// `text` without the `+` at its start, if it has one.
pub open spec fn without_plus(text: Seq<char>) -> Seq<char> {
    if text.len() > 0 && text[0] == '+' {
        text.drop_first()
    } else {
        text
    }
}

/// The byte that `text` is the decimal numeral of: an optional `+`, then one
/// digit or more, which together stand for a number up to 255. Zeros may
/// lead. Anything else is no numeral.
pub open spec fn decimal_u8(text: Seq<char>) -> Option<u8> {
    let digits = without_plus(text);
    if digits.len() > 0 && all_digits(digits) && digits_value(digits) <= u8::MAX {
        Some(digits_value(digits) as u8)
    } else {
        None
    }
}

/// The order of a kind: 14 for `a`, 13 for `k`, 12 for `q`, 11 for `j`, 10 for
/// `t`, and for a numeral its number. Anything else has no order.
pub open spec fn kind_order(kind: Seq<char>) -> Option<u8> {
    if kind == seq!['a'] {
        Some(14u8)
    } else if kind == seq!['k'] {
        Some(13u8)
    } else if kind == seq!['q'] {
        Some(12u8)
    } else if kind == seq!['j'] {
        Some(11u8)
    } else if kind == seq!['t'] {
        Some(10u8)
    } else {
        decimal_u8(kind)
    }
}

/// A row of digits stands for no less than any row it begins with.
proof fn lemma_digits_value_grows(digits: Seq<char>, k: int)
    requires
        all_digits(digits),
        0 <= k <= digits.len(),
    ensures
        0 <= digits_value(digits.take(k)) <= digits_value(digits),
    decreases digits.len() - k,
{
    if k == digits.len() {
        assert(digits.take(k) =~= digits);
        lemma_digits_value_is_not_negative(digits);
    } else {
        lemma_digits_value_grows(digits, k + 1);
        assert(digits.take(k + 1).drop_last() =~= digits.take(k));
        lemma_digits_value_is_not_negative(digits.take(k));
    }
}

/// A row of digits stands for a number that is not negative.
proof fn lemma_digits_value_is_not_negative(digits: Seq<char>)
    requires
        all_digits(digits),
    ensures
        0 <= digits_value(digits),
    decreases digits.len(),
{
    if digits.len() > 0 {
        lemma_digits_value_is_not_negative(digits.drop_last());
    }
}

/// Reads the decimal numeral of a byte: `None` if `text` is no such numeral.
pub fn parse_u8(text: &str) -> (parsed: Option<u8>)
    ensures
        parsed == decimal_u8(text@),
{
    let symbols = chars_of(text);
    numeral_u8(symbols.as_slice())
}

/// Reads the decimal numeral of a byte from its characters.
fn numeral_u8(text: &[char]) -> (parsed: Option<u8>)
    ensures
        parsed == decimal_u8(text@),
{
    let from: usize = if text.len() > 0 && text[0] == '+' {
        1
    } else {
        0
    };
    let ghost digits = without_plus(text@);
    if from == text.len() {
        return None;
    }
    let mut value: u8 = 0;
    let mut i: usize = from;
    while i < text.len()
        invariant
            from <= i <= text.len() == text@.len(),
            digits == text@.skip(from as int),
            digits == without_plus(text@),
            all_digits(digits.take(i - from)),
            value == digits_value(digits.take(i - from)),
        decreases text.len() - i,
    {
        let c = text[i];
        if !('0' <= c && c <= '9') {
            assert(!is_digit(digits[i - from]));
            return None;
        }
        let d: u8 = (c as u8) - 48u8;
        proof {
            let next = digits.take(i - from + 1);
            assert(next.drop_last() =~= digits.take(i - from));
            if all_digits(digits) {
                lemma_digits_value_grows(digits, i - from + 1);
            }
        }
        if value > 25 || (value == 25 && d > 5) {
            return None;
        }
        value = value * 10 + d;
        i += 1;
    }
    assert(digits.take(i - from) =~= digits);
    Some(value)
}

/// Where the first character of `card` is one byte long, a cut after the
/// first byte lands behind it.
proof fn lemma_bytes_after_first(card: Seq<char>)
    requires
        card.len() > 0,
        card[0] <= '\u{7f}',
    ensures
        is_char_boundary(encode_utf8(card), 1),
        encode_utf8(card).subrange(1, encode_utf8(card).len() as int) == encode_utf8(card.skip(1)),
{
    let suit = card.take(1);
    let kind = card.skip(1);
    assert(suit =~= seq![card[0]]);
    lemma_char_is_not_negative(card[0]);
    lemma_bytes_of_ascii(card[0]);
    lemma_bytes_of_concat(suit, kind);
    lemma_boundary_between(suit, kind);
}

/// The order of the kind of `card`, the higher the stronger.
///
/// `card` is a suit of one byte and then a kind that has an order: see
/// [`kind_order`].
pub fn kind_to_order(card: &str) -> (order: u8)
    requires
        card@.len() > 0,
        card@[0] <= '\u{7f}',
        kind_order(card@.skip(1)) is Some,
    ensures
        Some(order) == kind_order(card@.skip(1)),
{
    proof {
        lemma_bytes_after_first(card@);
    }
    let (_, kind) = card.split_at(1);
    proof {
        lemma_same_bytes_same_text(kind@, card@.skip(1));
    }
    let kind = chars_of(kind);
    if kind.len() == 1 && kind[0] == 'a' {
        14
    } else if kind.len() == 1 && kind[0] == 'k' {
        13
    } else if kind.len() == 1 && kind[0] == 'q' {
        12
    } else if kind.len() == 1 && kind[0] == 'j' {
        11
    } else if kind.len() == 1 && kind[0] == 't' {
        10
    } else {
        numeral_u8(kind.as_slice()).unwrap()
    }
}

} // verus!
