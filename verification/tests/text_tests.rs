use devpilot::text::{
    chars_of, concat_text, contains, decode_utf8_lossy, ends_with, find_first, hex_chars,
    parse_unsigned, replace_all, same_text, split_lines, split_words, starts_with,
    string_from_chars, to_lowercase, trim,
};

fn cs(s: &str) -> Vec<char> {
    s.chars().collect()
}

fn strs(v: &Vec<Vec<char>>) -> Vec<String> {
    v.iter().map(|l| l.iter().collect()).collect()
}

#[test]
fn chars_of_keeps_every_char() {
    assert_eq!(chars_of("héllo"), vec!['h', 'é', 'l', 'l', 'o']);
    assert_eq!(chars_of(""), Vec::<char>::new());
}

#[test]
fn find_first_reports_leftmost_occurrence() {
    assert_eq!(find_first(&cs("abcabc"), &cs("bc")), Some(1));
    assert_eq!(find_first(&cs("abcabc"), &cs("cb")), None);
    assert_eq!(find_first(&cs("ab"), &cs("abc")), None);
    assert_eq!(find_first(&cs("ab"), &cs("")), Some(0));
}

#[test]
fn contains_starts_ends() {
    assert!(contains(&cs("/x/node_modules/y"), &cs("/node_modules/")));
    assert!(!contains(&cs("/x/node_module/y"), &cs("/node_modules/")));
    assert!(starts_with(&cs("/abc"), &cs("/")));
    assert!(!starts_with(&cs("abc"), &cs("/")));
    assert!(ends_with(&cs("/p/frontend"), &cs("/frontend")));
    assert!(!ends_with(&cs("frontend"), &cs("/frontend")));
}

#[test]
fn split_lines_matches_str_lines() {
    for text in ["a\r\nb\n\nc\r", "", "\n", "one", "x\n", "a\rb\n"] {
        let expected: Vec<String> = text.lines().map(|l| l.to_string()).collect();
        assert_eq!(strs(&split_lines(&cs(text))), expected, "{:?}", text);
    }
}

#[test]
fn split_words_matches_split_whitespace() {
    for text in ["  node  /a/b\tc\u{3000}d\n", "", "   ", "x"] {
        let expected: Vec<String> = text.split_whitespace().map(|l| l.to_string()).collect();
        assert_eq!(strs(&split_words(&cs(text))), expected, "{:?}", text);
    }
}

#[test]
fn trim_matches_str_trim() {
    for text in ["  node server.js \n", "\u{a0}x\u{2028}", "", "   ", "a b"] {
        let got: String = trim(&cs(text)).iter().collect();
        assert_eq!(got, text.trim());
    }
}

#[test]
fn replace_all_matches_str_replace() {
    let cases = [
        ("npm run dev && npm run build", "npm run", "pnpm run"),
        ("aaaa", "aa", "b"),
        ("npm start", "npm run", "yarn"),
        ("", "x", "y"),
    ];
    for (s, from, to) in cases {
        let got: String = replace_all(&cs(s), &cs(from), &cs(to)).iter().collect();
        assert_eq!(got, s.replace(from, to));
    }
}

#[test]
fn parse_unsigned_follows_str_parse() {
    assert_eq!(parse_unsigned(&cs("+42"), 65535), Some(42));
    assert_eq!(parse_unsigned(&cs("0003000"), 65535), Some(3000));
    assert_eq!(parse_unsigned(&cs("65535"), 65535), Some(65535));
    assert_eq!(parse_unsigned(&cs("65536"), 65535), None);
    assert_eq!(parse_unsigned(&cs(""), 65535), None);
    assert_eq!(parse_unsigned(&cs("+"), 65535), None);
    assert_eq!(parse_unsigned(&cs("-1"), 65535), None);
    assert_eq!(parse_unsigned(&cs("12a"), 65535), None);
    assert_eq!(parse_unsigned(&cs("4294967295"), u32::MAX), Some(u32::MAX));
    assert_eq!(parse_unsigned(&cs("4294967296"), u32::MAX), None);
    assert_eq!(parse_unsigned(&cs("99999999999999999999"), u32::MAX), None);
    for s in ["7", "+7", "070", "x", " 7"] {
        assert_eq!(parse_unsigned(&cs(s), 65535), s.parse::<u16>().ok().map(u32::from));
    }
}

#[test]
fn hex_chars_writes_lower_case_hex() {
    assert_eq!(hex_chars(0).iter().collect::<String>(), "0");
    assert_eq!(hex_chars(255).iter().collect::<String>(), "ff");
    assert_eq!(hex_chars(1_700_000_000_000).iter().collect::<String>(), format!("{:x}", 1_700_000_000_000u128));
    assert_eq!(hex_chars(u128::MAX).iter().collect::<String>(), format!("{:x}", u128::MAX));
}

#[test]
fn wrappers_compute_their_results() {
    assert_eq!(to_lowercase("NoDe ÄB"), "node äb");
    assert_eq!(decode_utf8_lossy(b"ab\xffc"), "ab\u{fffd}c");
    assert_eq!(string_from_chars(&vec!['x', 'y']), "xy");
    assert_eq!(concat_text("abc", ".log"), "abc.log");
    assert!(same_text("a", "a"));
    assert!(!same_text("a", "b"));
}
