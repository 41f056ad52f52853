use rar_chat::text;
use rar_chat::text::{
    chars_of, contains, hex_prefix, index_of, next_line, number_between, parse_unsigned,
    same_text, string_of, trim, trim_end, trim_end_of, trim_start, white_space,
    IntegerError,
};

fn trimmed(s: &str) -> String {
    let cs = chars_of(s);
    string_of(trim(&cs))
}

#[test]
fn white_space_is_the_standard_librarys() {
    for c in '\u{0}'..=char::MAX {
        assert_eq!(white_space(c), c.is_whitespace(), "{:x}", c as u32);
    }
}

#[test]
fn trimming_is_the_standard_librarys() {
    for s in ["", "  ", "a", " a ", "\ta b\r\n", "\u{2003}é\u{3000}", "/x/"] {
        assert_eq!(trimmed(s), s.trim());
        let cs = chars_of(s);
        assert_eq!(string_of(trim_start(&cs)), s.trim_start());
        assert_eq!(string_of(trim_end(&cs)), s.trim_end());
        assert_eq!(string_of(trim_end_of(&cs, '/')), s.trim_end_matches('/'));
    }
}

#[test]
fn lines_are_the_standard_librarys() {
    for s in ["", "a", "a\n", "a\nb", "a\r\nb\n", "\n\n", "a\r", "a\r\r\n", "\r\n"] {
        let cs = chars_of(s);
        let mut rest: &[char] = &cs;
        let mut got = Vec::new();
        while !rest.is_empty() {
            let (line, after) = next_line(rest);
            got.push(string_of(line));
            rest = after;
        }
        let expected: Vec<String> = s.lines().map(|l| l.to_string()).collect();
        assert_eq!(got, expected, "{s:?}");
    }
}

#[test]
fn searching() {
    assert!(contains("a text/event-stream b", "text/event-stream"));
    assert!(contains("abc", ""));
    assert!(!contains("ab", "abc"));
    assert!(!contains("", "a"));
    let cs = chars_of("k=v=w");
    assert_eq!(index_of(&cs, '='), Some(1));
    assert_eq!(index_of(&cs, 'x'), None);
    assert!(same_text("é", "é"));
    assert!(!same_text("é", "e"));
    assert!(!same_text("a", "ab"));
}

#[test]
fn building() {
    assert_eq!(text::concat("a", "é"), "aé");
    for n in [0u64, 9, 10, 4096, u64::MAX] {
        assert_eq!(number_between("<", n, ">"), format!("<{n}>"));
    }
    assert_eq!(hex_prefix(&[0, 15, 16, 255], 16), "00 0f 10 ff");
    assert_eq!(hex_prefix(&[1, 2, 3], 2), "01 02");
    assert_eq!(hex_prefix(&[], 16), "");
}

#[test]
fn integers_are_the_standard_librarys() {
    for s in [
        "", "0", "7", "+7", "-7", "+", "-", "++1", "1+", " 1", "1 ", "007", "4294967295", "4294967296",
        "18446744073709551615", "18446744073709551616", "99999999999999999999x", "x99999999999999999999",
        "１", "1_000",
    ] {
        match (parse_unsigned(s, u64::MAX), s.parse::<u64>()) {
            (Ok(a), Ok(b)) => assert_eq!(a, b, "{s:?}"),
            (Err(a), Err(b)) => assert_eq!(a.message(), b.to_string(), "{s:?}"),
            (a, b) => panic!("{s:?}: {a:?} {b:?}"),
        }
        match (parse_unsigned(s, u32::MAX as u64), s.parse::<u32>()) {
            (Ok(a), Ok(b)) => assert_eq!(a, b as u64, "{s:?}"),
            (Err(a), Err(b)) => assert_eq!(a.message(), b.to_string(), "{s:?}"),
            (a, b) => panic!("{s:?}: {a:?} {b:?}"),
        }
    }
    assert_eq!(parse_unsigned("", 1), Err(IntegerError::Empty));
}
