//! Text, maps, ordering and JSON.

use pitwall::json::{parse, Json};
use pitwall::keyed::Keyed;
use pitwall::text::{
    chars_of, decimal_text, ends_with, head_before_last, join_texts, lines, parse_u32, parse_u64,
    same_text, same_text_ignoring_case, split_char, split_once_char, starts_with, strip_prefix,
    strip_suffix, tail_after_last, text_at_most, text_in_front_of_last, to_lower, trim,
    trim_end_char, trim_start_char, white_char, word,
};

const SAMPLES: [&str; 16] = [
    "",
    " ",
    "a",
    " a ",
    "a,b",
    ",a,,b,",
    "a\nb\r\nc\r",
    "\n\n",
    "\r\n",
    "x=y=z",
    "\u{a0}\u{3000}tab\t\u{2028}",
    "\u{feff}{}",
    "//a/b//",
    "HeLLo \u{c4}\u{df}",
    "one two\tthree",
    "\u{200b}not white",
];

#[test]
fn trimming_agrees_with_std() {
    for s in SAMPLES {
        assert_eq!(trim(s), s.trim(), "{s:?}");
        assert_eq!(trim_start_char(s, '/'), s.trim_start_matches('/'));
        assert_eq!(trim_end_char(s, '/'), s.trim_end_matches('/'));
        assert_eq!(trim(&trim(s)), trim(s));
    }
}

#[test]
fn whitespace_agrees_with_std() {
    for n in 0..0x11_0000u32 {
        if let Some(c) = char::from_u32(n) {
            assert_eq!(white_char(c), c.is_whitespace(), "{n:x}");
        }
    }
}

#[test]
fn splitting_agrees_with_std() {
    for s in SAMPLES {
        for c in [',', '/', '='] {
            let std_pieces: Vec<&str> = s.split(c).collect();
            assert_eq!(split_char(s, c), std_pieces, "{s:?}");
            let std_halves = s
                .split_once(c)
                .map(|(a, b)| (a.to_string(), b.to_string()));
            assert_eq!(split_once_char(s, c), std_halves);
            assert_eq!(tail_after_last(s, c), s.rsplit(c).next().unwrap());
            let head = s.rsplit_once(c).map(|(a, _)| a).unwrap_or(s);
            assert_eq!(head_before_last(s, c), head);
        }
        let std_lines: Vec<&str> = s.lines().collect();
        assert_eq!(lines(s), std_lines, "{s:?}");
        assert_eq!(word(s).as_deref(), s.split_whitespace().next());
    }
}

#[test]
fn ends_agree_with_std() {
    for s in SAMPLES {
        for p in ["", "a", " ", "//", "x=", "\r"] {
            assert_eq!(starts_with(s, p), s.starts_with(p));
            assert_eq!(ends_with(s, p), s.ends_with(p));
            assert_eq!(strip_prefix(s, p).as_deref(), s.strip_prefix(p));
            assert_eq!(strip_suffix(s, p).as_deref(), s.strip_suffix(p));
        }
    }
}

#[test]
fn numbers_agree_with_std() {
    for s in [
        "", "+", "-", "0", "-0", "+0", "007", "++1", "1 ", " 1", "12a", "\u{663}", "4294967295",
        "4294967296", "18446744073709551615", "18446744073709551616",
        "000000000000000000000000000000000001", "99999999999999999999999999",
    ] {
        assert_eq!(parse_u64(s), s.parse::<u64>().ok(), "{s:?}");
        assert_eq!(parse_u32(s), s.parse::<u32>().ok(), "{s:?}");
    }
    for n in [0, 9, 10, 99, 100, 12345, u64::MAX] {
        assert_eq!(decimal_text(n), n.to_string());
        assert_eq!(parse_u64(&decimal_text(n)), Some(n));
    }
}

#[test]
fn case_folding_agrees_with_std() {
    for a in SAMPLES {
        assert_eq!(to_lower(a), a.to_ascii_lowercase());
        for b in SAMPLES {
            assert_eq!(same_text(a, b), a == b);
            assert_eq!(same_text_ignoring_case(a, b), a.eq_ignore_ascii_case(b));
        }
    }
    assert!(same_text_ignoring_case("a/B", "A/b"));
    assert_eq!(chars_of("a\u{df}"), vec!['a', '\u{df}']);
}

#[test]
fn joining_agrees_with_std() {
    let parts: Vec<String> = vec!["a".into(), "".into(), "c".into()];
    assert_eq!(join_texts(&parts, ", "), parts.join(", "));
    assert_eq!(join_texts(&Vec::new(), ", "), "");
    assert_eq!(join_texts(&vec!["x".to_string()], ", "), "x");
}

#[test]
fn maps_remember_the_order_of_their_keys() {
    let mut m: Keyed<String, u32> = Keyed::new();
    for (k, v) in [("b", 1), ("a", 2), ("b", 3), ("c", 4)] {
        m.insert(k.to_string(), v);
    }
    let entries: Vec<(String, u32)> = (0..m.len())
        .map(|i| {
            let (k, v) = m.entry(i);
            (k.clone(), *v)
        })
        .collect();
    assert_eq!(
        entries,
        vec![
            ("b".to_string(), 3),
            ("a".to_string(), 2),
            ("c".to_string(), 4)
        ]
    );
    assert_eq!(m.remove(&"a".to_string()), Some(2));
    assert_eq!(m.remove(&"a".to_string()), None);
    assert_eq!(m.len(), 2);
    assert_eq!(m.get(&"c".to_string()), Some(&4));
    assert!(!m.contains_key(&"a".to_string()));
    assert!(!m.is_empty());
}

#[test]
fn documents_keep_what_they_hold() {
    let doc = parse(
        r#"{"n": null, "t": true, "i": 5, "neg": -5, "f": 1.5, "s": "x", "l": [1, "y"], "o": {"k": "v"}}"#,
    )
    .unwrap();
    assert!(matches!(doc.get("n"), Some(Json::Null)));
    assert!(matches!(doc.get("t"), Some(Json::Bool(true))));
    assert!(matches!(doc.get("i"), Some(Json::Number(Some(5)))));
    assert!(matches!(doc.get("neg"), Some(Json::Number(None))));
    assert!(matches!(doc.get("f"), Some(Json::Number(None))));
    assert_eq!(doc.text_at("s").map(|s| s.as_str()), Some("x"));
    assert_eq!(doc.text_at("i"), None);
    assert!(matches!(doc.get("l"), Some(Json::List(l)) if l.len() == 2));
    let inner = doc.get("o").unwrap();
    assert_eq!(inner.text_at("k").map(|s| s.as_str()), Some("v"));
    assert!(doc.get("absent").is_none());
    assert!(Json::Null.get("n").is_none());
}

#[test]
fn the_last_of_two_equal_fields_counts() {
    let doc = parse(r#"{"a": "1", "a": "2"}"#).unwrap();
    assert_eq!(doc.text_at("a").map(|s| s.as_str()), Some("2"));
}

#[test]
fn broken_documents_are_refused() {
    assert!(parse("").is_none());
    assert!(parse("{").is_none());
    assert!(parse("{} x").is_none());
    assert!(parse(&"[".repeat(4000)).is_none());
}

#[test]
fn texts_are_ordered_as_std_orders_them() {
    let words = ["", "a", "ab", "b", "B", "a-", "a-b", "\u{e9}", "\u{1f600}", "\u{ffff}"];
    for a in words {
        for b in words {
            assert_eq!(text_at_most(a, b), a <= b, "{a:?} {b:?}");
        }
    }
}

#[test]
fn the_front_of_the_last_separator_may_be_empty() {
    assert_eq!(text_in_front_of_last("a-b-1", '-'), "a-b");
    assert_eq!(text_in_front_of_last("-1", '-'), "");
    assert_eq!(text_in_front_of_last("plain", '-'), "");
    assert_eq!(text_in_front_of_last("", '-'), "");
}
