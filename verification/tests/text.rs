use boxedcat::text::path_join;
use boxedcat::text::{
    chars_of, contains_chars, eq_ignore_ascii_case, has_prefix, has_suffix, is_whitespace, join_chars,
    lines_of, matches_at, owned, parse_decimal, push_chars, push_decimal, same_chars, same_text,
    split_on, string_of, to_lower_ascii, trim_end_char, trim_ws_chars, words_of,
};

fn c(s: &str) -> Vec<char> {
    s.chars().collect()
}

fn texts(v: &[Vec<char>]) -> Vec<String> {
    v.iter().map(|p| p.iter().collect()).collect()
}

#[test]
fn splitting_matches_std() {
    for (s, sep) in [("a.b..c.", '.'), ("", '.'), ("abc", '.'), (".", '.')] {
        let want: Vec<String> = s.split(sep).map(String::from).collect();
        assert_eq!(texts(&split_on(&c(s), sep)), want);
    }
    for s in ["  one two\tthree\n", "", "   ", "x\u{3000}y"] {
        let want: Vec<String> = s.split_whitespace().map(String::from).collect();
        assert_eq!(texts(&words_of(&c(s))), want);
    }
    for s in ["a\nb\r\nc", "a\n", "", "\n\n", "x\r", "a\r\r\nb"] {
        let want: Vec<String> = s.lines().map(String::from).collect();
        assert_eq!(texts(&lines_of(&c(s))), want);
    }
}

#[test]
fn trimming_matches_std() {
    for s in ["  a b \t", "", "\u{85}x\u{a0}", "abc"] {
        assert_eq!(string_of(&trim_ws_chars(&c(s))), s.trim());
    }
    assert_eq!(string_of(&trim_end_char(&c("name..."), '.')), "name");
    assert_eq!(string_of(&trim_end_char(&c("..."), '.')), "");
}

#[test]
fn comparisons() {
    assert!(has_prefix(&c("https://x"), &c("https://")));
    assert!(!has_prefix(&c("http"), &c("https")));
    assert!(has_suffix(&c("shop.test"), &c(".test")));
    assert!(!has_suffix(&c("test"), &c(".test")));
    assert!(matches_at(&c("abcdef"), &c("cd"), 2));
    assert!(!matches_at(&c("abcdef"), &c("cd"), 5));
    assert!(contains_chars(&c("hyper-v adapter"), &c("hyper")));
    assert!(contains_chars(&c("abc"), &c("")));
    assert!(!contains_chars(&c("ab"), &c("abc")));
    assert!(same_chars(&c("x"), &c("x")));
    assert!(!same_chars(&c("x"), &c("xy")));
    assert!(same_text("apache", "apache"));
    assert!(!same_text("apache", "Apache"));
    assert!(eq_ignore_ascii_case("HTTPD.EXE", "httpd.exe"));
    assert!(!eq_ignore_ascii_case("Ä", "ä"));
}

#[test]
fn characters() {
    assert!(is_whitespace(' ') && is_whitespace('\u{2028}') && !is_whitespace('x'));
    for ch in [' ', '\t', '\u{85}', '\u{a0}', '\u{1680}', '\u{200b}', 'a', '\u{3000}'] {
        assert_eq!(is_whitespace(ch), ch.is_whitespace());
    }
    assert_eq!(to_lower_ascii('Q'), 'q');
    assert_eq!(to_lower_ascii('Ä'), 'Ä');
    assert_eq!(chars_of("héllo"), c("héllo"));
    assert_eq!(owned("abc"), "abc");
}

#[test]
fn numbers() {
    assert_eq!(parse_decimal(&c("255"), 255), Some(255));
    assert_eq!(parse_decimal(&c("256"), 255), None);
    assert_eq!(parse_decimal(&c("+7"), 255), Some(7));
    assert_eq!(parse_decimal(&c("+"), 255), None);
    assert_eq!(parse_decimal(&c(""), 255), None);
    assert_eq!(parse_decimal(&c("-1"), 255), None);
    assert_eq!(parse_decimal(&c("007"), 255), Some(7));
    assert_eq!(parse_decimal(&c("4294967295"), u32::MAX), Some(u32::MAX));
    assert_eq!(parse_decimal(&c("4294967296"), u32::MAX), None);
    let mut s = String::from("port ");
    push_decimal(&mut s, 0);
    push_decimal(&mut s, 8080);
    push_decimal(&mut s, u64::MAX);
    assert_eq!(s, format!("port 08080{}", u64::MAX));
}

#[test]
fn building_text() {
    let parts = vec![c("a"), c(""), c("bc")];
    assert_eq!(string_of(&join_chars(&parts, &c(", "))), "a, , bc");
    assert_eq!(string_of(&join_chars(&Vec::new(), &c("."))), "");
    let mut s = String::from("x");
    push_chars(&mut s, &c("yz"));
    assert_eq!(s, "xyz");
}

#[test]
fn joining_paths() {
    assert_eq!(path_join("C:\\xampp", "certs"), "C:\\xampp\\certs");
    assert_eq!(path_join("C:\\xampp\\", "certs"), "C:\\xampp\\certs");
    assert_eq!(path_join("C:/xampp/", "certs"), "C:/xampp/certs");
    assert_eq!(path_join("C:", "certs"), "C:certs");
    assert_eq!(path_join("", "certs"), "certs");
    assert_eq!(path_join("1:", "x"), "1:\\x");
}
