use gocortex::text::{
    find_first, from_chars, join_parts, push_chars, push_padded, same_text, scan, scan_back,
    skip_whitespace, split_at_first, split_lines, split_on, split_words, starts_with,
    strip_prefix, to_chars, trimmed, CharClass,
};

fn chars(text: &str) -> Vec<char> {
    text.chars().collect()
}

fn strings(parts: Vec<&[char]>) -> Vec<String> {
    parts.iter().map(|p| p.iter().collect::<String>()).collect()
}

#[test]
fn chars_and_strings_convert_both_ways() {
    assert_eq!(to_chars("héllo wörld"), chars("héllo wörld"));
    assert_eq!(to_chars(""), Vec::<char>::new());
    assert_eq!(from_chars(&chars("héllo")), "héllo");
    let mut s = String::from("ab");
    push_chars(&mut s, &chars("cd"));
    assert_eq!(s, "abcd");
}

#[test]
fn same_text_compares_characters() {
    assert!(same_text(&chars("cpu"), &chars("cpu")));
    assert!(!same_text(&chars("cpu"), &chars("cpU")));
    assert!(!same_text(&chars("cpu"), &chars("cpus")));
    assert!(same_text(&chars(""), &chars("")));
}

#[test]
fn char_classes_match_std() {
    for c in ['\t', '\n', '\u{b}', '\u{c}', '\r', ' ', '\u{85}', '\u{a0}', '\u{1680}', '\u{2000}', '\u{200a}', '\u{2028}', '\u{2029}', '\u{202f}', '\u{205f}', '\u{3000}'] {
        assert!(CharClass::Whitespace.contains(c));
        assert!(!CharClass::Word.contains(c));
    }
    for c in ['a', '0', '.', '\u{200b}', '\u{8}', '\u{e}', '\u{1f}', '\u{feff}'] {
        assert_eq!(CharClass::Whitespace.contains(c), c.is_whitespace());
        assert_eq!(CharClass::Word.contains(c), !c.is_whitespace());
    }
    for c in ['0', '5', '9', '.'] {
        assert!(CharClass::Numeric.contains(c));
    }
    for c in ['/', ':', 's', '%', '-', ',', ' '] {
        assert!(!CharClass::Numeric.contains(c));
    }
}

#[test]
fn char_class_whitespace_matches_std_everywhere() {
    let mut n: u32 = 0;
    while n <= 0x10ffff {
        if let Some(c) = char::from_u32(n) {
            assert_eq!(CharClass::Whitespace.contains(c), c.is_whitespace());
        }
        n += 1;
    }
}

#[test]
fn scan_counts_leading_and_trailing_runs() {
    assert_eq!(scan(&chars("  ab "), CharClass::Whitespace), 2);
    assert_eq!(scan(&chars("ab cd"), CharClass::Word), 2);
    assert_eq!(scan(&chars("10.90s"), CharClass::Numeric), 5);
    assert_eq!(scan(&chars("s10"), CharClass::Numeric), 0);
    assert_eq!(scan(&chars(""), CharClass::Numeric), 0);
    assert_eq!(scan_back(&chars(" ab  \t"), CharClass::Whitespace), 3);
    assert_eq!(scan_back(&chars("   "), CharClass::Whitespace), 3);
}

#[test]
fn trimming_matches_std() {
    for text in ["", "   ", "  a b  ", "a", "\t\u{a0}x y\u{3000}\n", " x"] {
        assert_eq!(from_chars(trimmed(&chars(text))), text.trim());
        assert_eq!(from_chars(skip_whitespace(&chars(text))), text.trim_start());
    }
}

#[test]
fn prefixes_are_found_and_stripped() {
    assert!(starts_with(&chars("Type: cpu"), &chars("Type: ")));
    assert!(!starts_with(&chars("Type:cpu"), &chars("Type: ")));
    assert!(!starts_with(&chars("Ty"), &chars("Type: ")));
    assert!(starts_with(&chars("abc"), &chars("")));
    let line = chars("File: pool.test");
    assert_eq!(from_chars(strip_prefix(&line, "File: ").unwrap()), "pool.test");
    assert!(strip_prefix(&line, "Type: ").is_none());
}

#[test]
fn search_finds_the_first_occurrence() {
    assert_eq!(find_first(&chars("a of b of c"), &chars("of")), Some(2));
    assert_eq!(find_first(&chars("abc"), &chars("c")), Some(2));
    assert_eq!(find_first(&chars("abc"), &chars("d")), None);
    assert_eq!(find_first(&chars("ab"), &chars("abc")), None);
    assert_eq!(find_first(&chars("abc"), &chars("")), Some(0));
    assert_eq!(find_first(&chars(""), &chars("")), Some(0));
    assert_eq!(find_first(&chars("aab"), &chars("ab")), Some(1));
}

#[test]
fn splitting_once_matches_std() {
    let cases = [("10.90s, 100% of 10.90s total", ","), ("a=b=c", "="), (" 100% of 10", "of"), ("abc", "x"), ("", ","), ("of", "of")];
    for (text, pat) in cases {
        let source = chars(text);
        let pattern = chars(pat);
        let got = split_at_first(&source, &pattern).map(|(a, b)| (from_chars(a), from_chars(b)));
        let want = text.split_once(pat).map(|(a, b)| (a.to_string(), b.to_string()));
        assert_eq!(got, want);
        let again = split_on(&source, pat).map(|(a, b)| (from_chars(a), from_chars(b)));
        assert_eq!(again, want);
    }
}

#[test]
fn lines_match_std() {
    for text in ["", "a", "a\n", "a\nb", "a\n\nb\n", "\n", "\n\n", "a\r\nb\r\n", "a\rb\n", "a\r", "\r\n", "a\n\r"] {
        let source = chars(text);
        let got = strings(split_lines(&source));
        let want: Vec<String> = text.lines().map(|l| l.to_string()).collect();
        assert_eq!(got, want, "lines of {:?}", text);
    }
}

#[test]
fn words_match_std() {
    for text in ["", "   ", "a", " a  b\tc ", "5.00s 45.87% 45.87% 6.00s 55.05% main.worker (inline)", "a\u{a0}b\u{3000}c"] {
        let source = chars(text);
        let got = strings(split_words(&source));
        let want: Vec<String> = text.split_whitespace().map(|w| w.to_string()).collect();
        assert_eq!(got, want, "words of {:?}", text);
    }
}

#[test]
fn joining_matches_std() {
    let a = chars("sync.(*Pool).Get");
    let b = chars("(inline)");
    let c = chars("x");
    let space = chars(" ");
    assert_eq!(from_chars(&join_parts(&[&a, &b, &c], &space)), "sync.(*Pool).Get (inline) x");
    assert_eq!(from_chars(&join_parts(&[&a], &space)), "sync.(*Pool).Get");
    assert_eq!(from_chars(&join_parts(&[], &space)), "");
    let empty = chars("");
    assert_eq!(from_chars(&join_parts(&[&empty, &empty], &chars(", "))), ", ");
}

#[test]
fn padding_fills_to_the_width() {
    let mut s = String::new();
    push_padded(&mut s, &chars("flat"), 8);
    assert_eq!(s, "flat    ");
    push_padded(&mut s, &chars("123456789"), 8);
    assert_eq!(s, "flat    123456789");
    push_padded(&mut s, &chars("12345678"), 8);
    assert_eq!(s, "flat    12345678912345678");
    push_padded(&mut s, &chars(""), 2);
    assert_eq!(s, "flat    12345678912345678  ");
}
