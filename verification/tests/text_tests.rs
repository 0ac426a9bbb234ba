use vod_pipeline::text::{
    chars_of, date_prefix, is_whitespace, line_spans, parse_u64_str, push_decimal, str_eq,
    string_lt, to_ascii_lowercase, trim_bounds, truncate,
};

#[test]
fn whitespace_is_unicode_white_space() {
    for c in [' ', '\t', '\n', '\r', '\u{b}', '\u{c}', '\u{85}', '\u{a0}', '\u{2003}', '\u{3000}'] {
        assert!(is_whitespace(c), "{:?}", c);
        assert_eq!(is_whitespace(c), c.is_whitespace());
    }
    for c in ['a', '0', '\u{200b}', '\u{feff}', '_'] {
        assert!(!is_whitespace(c), "{:?}", c);
        assert_eq!(is_whitespace(c), c.is_whitespace());
    }
}

#[test]
fn lowercase_touches_ascii_only() {
    assert_eq!(to_ascii_lowercase("TheChan_42"), "thechan_42");
    assert_eq!(to_ascii_lowercase("ÉCOLE"), "École");
}

#[test]
fn lines_and_trimming() {
    let text = "a\r\nb\n\n  c  \nd";
    let v = chars_of(text);
    let spans = line_spans(&v);
    let got: Vec<String> = spans.iter().map(|s| v[s.lo..s.hi].iter().collect()).collect();
    let want: Vec<String> = text.lines().map(|l| l.to_string()).collect();
    assert_eq!(got, want);
    let (a, b) = trim_bounds(&v, spans[3].lo, spans[3].hi);
    let trimmed: String = v[a..b].iter().collect();
    assert_eq!(trimmed, "c");
    let ends_with_newline = chars_of("x\n");
    assert_eq!(line_spans(&ends_with_newline).len(), 1);
    assert_eq!(line_spans(&chars_of("")).len(), 0);
}

#[test]
fn numbers_read_and_write() {
    assert_eq!(parse_u64_str("0"), Some(0));
    assert_eq!(parse_u64_str("+7"), Some(7));
    assert_eq!(parse_u64_str("18446744073709551615"), Some(u64::MAX));
    assert_eq!(parse_u64_str("18446744073709551616"), None);
    assert_eq!(parse_u64_str(""), None);
    assert_eq!(parse_u64_str("+"), None);
    assert_eq!(parse_u64_str("1 2"), None);
    assert_eq!(parse_u64_str("\u{661}"), None);
    let mut s = String::from("PT");
    push_decimal(&mut s, 0);
    assert_eq!(s, "PT0");
    let mut m = String::new();
    push_decimal(&mut m, u64::MAX);
    assert_eq!(m, u64::MAX.to_string());
}

#[test]
fn string_comparisons() {
    assert!(string_lt(&"100".to_string(), &"1000".to_string()));
    assert!(string_lt(&"1000".to_string(), &"300".to_string()));
    assert!(!string_lt(&"300".to_string(), &"300".to_string()));
    assert!(!string_lt(&"b".to_string(), &"a".to_string()));
    assert!(str_eq("queued", "queued"));
    assert!(!str_eq("queued", "Queued"));
}

#[test]
fn column_cuts() {
    assert_eq!(truncate("short", 40), "short");
    assert_eq!(truncate("exactly10!", 10), "exactly10!");
    assert_eq!(truncate("eleven chars", 11), "eleven cha\u{2026}");
    assert_eq!(truncate("ab", 0), "\u{2026}");
    assert_eq!(truncate("héllo wörld", 5), "h\u{e9}l\u{2026}");
    assert_eq!(date_prefix("2026-01-01T00:00:00Z"), "2026-01-01");
    assert_eq!(date_prefix("2026-01-01"), "2026-01-01");
    assert_eq!(date_prefix("2026-01"), "\u{2014}");
    assert_eq!(date_prefix(""), "\u{2014}");
}
