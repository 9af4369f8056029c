//! Texts, paths, sets, rankings and JSON values.
use mati::json::Json;
use mati::paths::{components, file_name, join, stem, strip_base, under};
use mati::ranking::descending;
use mati::strset::StrSet;
use mati::text::{
    contains, decimal, ends_with, less, lines, pad_left, pad_right, parse_number, replace, split,
    starts_with, strip_prefix, trim, words,
};

#[test]
fn numbers_are_written_and_read() {
    for n in [0u64, 7, 10, 4_294_967_295, u64::MAX] {
        assert_eq!(decimal(n), n.to_string());
        assert_eq!(parse_number(&decimal(n), u64::MAX), Some(n));
    }
    assert_eq!(parse_number("+5", u64::MAX), "+5".parse::<u64>().ok());
    for s in ["", "-5", "5 ", "18446744073709551616", "x"] {
        assert_eq!(parse_number(s, u64::MAX), s.parse::<u64>().ok(), "{s:?}");
    }
    assert_eq!(parse_number("300", 255), None);
}

#[test]
fn texts_are_taken_apart_like_std() {
    for s in ["", " a  b\u{a0}c ", "a\nb\r\n\nc", "x,,y,", "\u{3000}é☃"] {
        assert_eq!(trim(s), s.trim());
        assert_eq!(words(s), s.split_whitespace().collect::<Vec<_>>());
        assert_eq!(lines(s), s.lines().collect::<Vec<_>>());
        assert_eq!(split(s, ','), s.split(',').collect::<Vec<_>>());
        assert_eq!(replace(s, 'a', "zz"), s.replace('a', "zz"));
        for t in ["", "a", "b\u{a0}", "☃", ","] {
            assert_eq!(contains(s, t), s.contains(t));
            assert_eq!(starts_with(s, t), s.starts_with(t));
            assert_eq!(ends_with(s, t), s.ends_with(t));
            assert_eq!(strip_prefix(s, t), s.strip_prefix(t));
            assert_eq!(less(s, t), s < t);
        }
        assert_eq!(pad_right(s, 6), format!("{s:<6}"));
        assert_eq!(pad_left(s, 6), format!("{s:>6}"));
    }
}

#[test]
fn paths_are_taken_apart_like_std() {
    for p in ["/a/b/c.tar.gz", "a/./b", "/", "", "a//b/", "./x", ".hidden", "a/..", "x.", "//a", "/a//b/./c/", "a/b//c"] {
        let std = std::path::Path::new(p);
        assert_eq!(file_name(p).as_deref(), std.file_name().and_then(|s| s.to_str()), "{p}");
        assert_eq!(
            stem(p),
            std.file_stem().and_then(|s| s.to_str()).unwrap_or(p).to_string(),
            "{p}"
        );
        for b in ["/a", "/a/b", "a", "", "/"] {
            assert_eq!(under(p, b), std.starts_with(b), "{p} under {b}");
            assert_eq!(
                strip_base(p, b).as_deref(),
                std.strip_prefix(b).ok().and_then(|s| s.to_str()),
                "{p} below {b}"
            );
        }
        assert_eq!(
            join("/base", p),
            std::path::Path::new("/base").join(p).to_str().unwrap(),
            "{p}"
        );
    }
    assert_eq!(components("/a/./b"), vec!["/", "a", "b"]);
}

#[test]
fn sets_are_sorted_and_hold_nothing_twice() {
    let mut s = StrSet::new();
    for x in ["b", "a", "c", "a"] {
        s.insert(x.to_string());
    }
    assert_eq!(s.items(), &vec!["a", "b", "c"]);
    assert_eq!(s.len(), 3);
    assert!(s.contains("b") && !s.contains("x"));
}

#[test]
fn rankings_are_stable() {
    assert_eq!(descending(&vec![1, 3, 2, 3, 1]), vec![1, 3, 2, 0, 4]);
}

#[test]
fn the_first_member_of_a_name_counts() {
    let j = Json::Object(vec![
        ("a".to_string(), Json::Str("x".to_string())),
        ("a".to_string(), Json::Bool(true)),
        ("b".to_string(), Json::Bool(true)),
    ]);
    assert_eq!(j.text_of("a").as_deref(), Some("x"));
    assert!(j.flag("b"));
    assert!(!j.flag("a"));
    assert!(j.get("c").is_none());
    assert_eq!(Json::Str(String::new()).as_text().as_deref(), Some(""));
}

#[test]
fn only_active_records_are_listed() {
    let v = vec![
        mati::record::RecordLifecycle::Active,
        mati::record::RecordLifecycle::Tombstoned { reason: "old".to_string() },
        mati::record::RecordLifecycle::Superseded { by_key: "gotcha:b".to_string() },
        mati::record::RecordLifecycle::Active,
    ];
    assert_eq!(mati::record::active_records(&v), vec![0, 3]);
    assert_eq!(mati::record::active_records(&Vec::new()), Vec::<usize>::new());
}
