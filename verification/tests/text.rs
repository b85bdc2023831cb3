use lynceus::text::{chars_of, decimal_string, find_char, trim_bounds};

#[test]
fn decimal_writing() {
    assert_eq!(decimal_string(0), "0");
    assert_eq!(decimal_string(7), "7");
    assert_eq!(decimal_string(10), "10");
    assert_eq!(decimal_string(12345), "12345");
    assert_eq!(decimal_string(usize::MAX), usize::MAX.to_string());
}

#[test]
fn first_colon_is_found() {
    let chars = chars_of("ab:c:d");
    assert_eq!(find_char(&chars, ':'), Some(2));
    assert_eq!(find_char(&chars, 'x'), None);
}

#[test]
fn trim_bounds_match_str_trim() {
    for s in ["", "   ", " a ", "\t\n a b \r", "\u{2028}x\u{3000}", "x", "\u{200b}y"] {
        let chars = chars_of(s);
        let (a, b) = trim_bounds(&chars, 0, chars.len());
        let trimmed: String = chars[a..b].iter().collect();
        assert_eq!(trimmed, s.trim());
    }
}
