use minigrep::cards::{kind_to_order, parse_u8};

#[test]
fn ace_and_court_cards_and_ten() {
    assert_eq!(kind_to_order("ha"), 14);
    assert_eq!(kind_to_order("hk"), 13);
    assert_eq!(kind_to_order("hq"), 12);
    assert_eq!(kind_to_order("hj"), 11);
    assert_eq!(kind_to_order("ht"), 10);
}

#[test]
fn number_cards_have_their_number() {
    assert_eq!(kind_to_order("s2"), 2);
    assert_eq!(kind_to_order("s3"), 3);
    assert_eq!(kind_to_order("s4"), 4);
    assert_eq!(kind_to_order("s5"), 5);
    assert_eq!(kind_to_order("s6"), 6);
    assert_eq!(kind_to_order("s7"), 7);
    assert_eq!(kind_to_order("s8"), 8);
    assert_eq!(kind_to_order("s9"), 9);
}

#[test]
fn the_suit_does_not_count() {
    assert_eq!(kind_to_order("ca"), 14);
    assert_eq!(kind_to_order("da"), 14);
    assert_eq!(kind_to_order("aa"), 14);
    assert_eq!(kind_to_order("9a"), 14);
    assert_eq!(kind_to_order("k9"), 9);
    assert_eq!(kind_to_order(" 5"), 5);
}

#[test]
fn numerals_of_several_digits() {
    assert_eq!(kind_to_order("h10"), 10);
    assert_eq!(kind_to_order("h0"), 0);
    assert_eq!(kind_to_order("h99"), 99);
    assert_eq!(kind_to_order("h249"), 249);
    assert_eq!(kind_to_order("h250"), 250);
    assert_eq!(kind_to_order("h255"), 255);
}

#[test]
fn numerals_with_a_sign_or_leading_zeros() {
    assert_eq!(kind_to_order("h+7"), 7);
    assert_eq!(kind_to_order("h007"), 7);
    assert_eq!(kind_to_order("h+000255"), 255);
    assert_eq!(kind_to_order("h00000000000000000000012"), 12);
}

#[test]
fn numerals_are_read_as_the_standard_library_reads_them() {
    for n in 0..=255u8 {
        let card = format!("x{}", n);
        assert_eq!(kind_to_order(&card), card[1..].parse::<u8>().unwrap());
    }
}

#[test]
fn parse_u8_reads_plain_numerals() {
    assert_eq!(parse_u8("0"), Some(0));
    assert_eq!(parse_u8("7"), Some(7));
    assert_eq!(parse_u8("42"), Some(42));
    assert_eq!(parse_u8("255"), Some(255));
}

#[test]
fn parse_u8_allows_a_plus_and_leading_zeros() {
    assert_eq!(parse_u8("+0"), Some(0));
    assert_eq!(parse_u8("+255"), Some(255));
    assert_eq!(parse_u8("000"), Some(0));
    assert_eq!(parse_u8("0255"), Some(255));
    assert_eq!(parse_u8("+00000000000000000000000000000000000001"), Some(1));
}

#[test]
fn parse_u8_refuses_what_is_too_large() {
    assert_eq!(parse_u8("256"), None);
    assert_eq!(parse_u8("260"), None);
    assert_eq!(parse_u8("300"), None);
    assert_eq!(parse_u8("999"), None);
    assert_eq!(parse_u8("1000"), None);
    assert_eq!(parse_u8("2550"), None);
    assert_eq!(parse_u8("+256"), None);
    assert_eq!(parse_u8("00256"), None);
    assert_eq!(parse_u8("99999999999999999999999999"), None);
}

#[test]
fn parse_u8_refuses_what_is_no_numeral() {
    assert_eq!(parse_u8(""), None);
    assert_eq!(parse_u8("+"), None);
    assert_eq!(parse_u8("-"), None);
    assert_eq!(parse_u8("-0"), None);
    assert_eq!(parse_u8("-1"), None);
    assert_eq!(parse_u8("++1"), None);
    assert_eq!(parse_u8("1+"), None);
    assert_eq!(parse_u8(" 1"), None);
    assert_eq!(parse_u8("1 "), None);
    assert_eq!(parse_u8("1_0"), None);
    assert_eq!(parse_u8("1a"), None);
    assert_eq!(parse_u8("a"), None);
    assert_eq!(parse_u8("0x10"), None);
    assert_eq!(parse_u8("1.0"), None);
    assert_eq!(parse_u8("٣"), None);
    assert_eq!(parse_u8("１"), None);
    assert_eq!(parse_u8("300x"), None);
}

#[test]
fn parse_u8_agrees_with_the_standard_library() {
    let texts = [
        "", "+", "-", "0", "00", "+0", "-0", "1", "9", "10", "99", "100", "199", "200", "249",
        "250", "251", "255", "256", "259", "260", "299", "300", "0255", "0256", "+255", "+256",
        "25a", "a25", "2 5", " 25", "25 ", "2_5", "+-1", "-+1", "++1", "१२", "12\n", "/", ":",
        "0/", "0:", "2555", "25500", "000000000000000000000000000255",
    ];
    for text in texts {
        assert_eq!(parse_u8(text), text.parse::<u8>().ok(), "on {text:?}");
    }
    for n in 0..2000u32 {
        let text = n.to_string();
        assert_eq!(parse_u8(&text), text.parse::<u8>().ok());
    }
}
