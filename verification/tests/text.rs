use libra::text::{chars_of, decimal_string, parse_unsigned, text_le_exec};

#[test]
fn decimal_numerals() {
    assert_eq!(decimal_string(0), "0");
    assert_eq!(decimal_string(7), "7");
    assert_eq!(decimal_string(10), "10");
    assert_eq!(decimal_string(1234567890), "1234567890");
    assert_eq!(decimal_string(u64::MAX), u64::MAX.to_string());
}

#[test]
fn parse_matches_std() {
    let cases = ["", "+", "-", "0", "+0", "-0", "12", "+12", "007", "1_0", " 1", "1 ", "١٢",
        "18446744073709551615", "18446744073709551616", "99999999999999999999999"];
    for c in cases.iter() {
        assert_eq!(parse_unsigned(c, u64::MAX as u128), c.parse::<u64>().ok().map(|v| v as u128), "{}", c);
        assert_eq!(parse_unsigned(c, u128::MAX), c.parse::<u128>().ok(), "{}", c);
    }
}

#[test]
fn chars_of_keeps_order() {
    assert_eq!(chars_of("añb"), vec!['a', 'ñ', 'b']);
    assert_eq!(chars_of(""), Vec::<char>::new());
}

#[test]
fn text_order_matches_str_order() {
    let words = ["", "a", "ab", "b", "B", "ä", "z", "zz", "é", "日本", "Zebra", "apple", "app"];
    for a in words.iter() {
        for b in words.iter() {
            assert_eq!(text_le_exec(a, b), a <= b, "{} {}", a, b);
        }
    }
}
