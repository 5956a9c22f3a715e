use versebase::number::parse_i32;

#[test]
fn decimal_texts_are_parsed() {
    assert_eq!(parse_i32("0"), Some(0));
    assert_eq!(parse_i32("1"), Some(1));
    assert_eq!(parse_i32("-1"), Some(-1));
    assert_eq!(parse_i32("+1"), Some(1));
    assert_eq!(parse_i32("-0"), Some(0));
    assert_eq!(parse_i32("007"), Some(7));
    assert_eq!(parse_i32("2147483647"), Some(i32::MAX));
    assert_eq!(parse_i32("-2147483648"), Some(i32::MIN));
    assert_eq!(parse_i32("0000000000000000000012"), Some(12));
}

#[test]
fn other_texts_are_refused() {
    for text in ["", "+", "-", "2147483648", "-2147483649", "99999999999999999999999", "12a", "a12",
        " 1", "1 ", "1_000", "+-1", "--1", "1.0", "0x10", "١٢٣", "１２", "one"]
    {
        assert_eq!(parse_i32(text), None);
    }
}

#[test]
fn parsing_agrees_with_the_standard_library() {
    let texts = [
        "", "+", "-", "0", "-0", "+0", "007", "-007", "+007", "2147483647", "2147483648",
        "+2147483647", "+2147483648", "-2147483648", "-2147483649", "4294967296", "12a", " 1",
        "1 ", "١٢٣", "1_000", "+-1", "--1", "99999999999999999999999", "-99999999999999999999999",
        "3", "42", "1000000000", "10000000000", "-", "é", "1é",
    ];
    for text in texts {
        assert_eq!(parse_i32(text), text.parse::<i32>().ok());
    }
    for value in [0, 1, -1, 9, 10, -10, 99, 12345, -12345, i32::MAX, i32::MIN, i32::MAX - 1, i32::MIN + 1] {
        assert_eq!(parse_i32(&format!("{}", value)), Some(value));
    }
}
