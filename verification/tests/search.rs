//! Keyword search.
use mati::record::Category;
use mati::search::{
    category_label, count_occurrences, plan_search, render, resolve_prefixes, score, search,
    search_terms, snippet, SearchArgs, Searchable,
};

fn rec(key: &str, value: &str, tags: &[&str]) -> Searchable {
    Searchable {
        key: key.to_string(),
        value: value.to_string(),
        tags: tags.iter().map(|s| s.to_string()).collect(),
        category: Category::File,
    }
}

fn terms(v: &[&str]) -> Vec<String> {
    v.iter().map(|s| s.to_string()).collect()
}

#[test]
fn score_zero_when_no_term_matches() {
    let r = rec("gotcha:x", "nothing relevant here", &[]);
    assert_eq!(score(&r, &terms(&["fraud"])), 0);
}

#[test]
fn key_matches_outweigh_body_matches() {
    let in_key = rec("gotcha:fraud-check", "unrelated body", &[]);
    let in_body = rec("gotcha:x", "fraud appears in the body", &[]);
    assert!(
        score(&in_key, &terms(&["fraud"])) > score(&in_body, &terms(&["fraud"])),
        "a key hit should rank above a body hit"
    );
}

#[test]
fn more_distinct_terms_matched_ranks_higher() {
    let both = rec("gotcha:x", "fraud detection model", &[]);
    let one = rec("gotcha:y", "fraud fraud fraud", &[]);
    assert!(
        score(&both, &terms(&["fraud", "model"])) > score(&one, &terms(&["fraud", "model"])),
        "covering 2 terms beats hammering 1"
    );
}

#[test]
fn count_occurrences_is_case_insensitive_via_lowered_inputs() {
    assert_eq!(count_occurrences("a b a b a", "a"), 3);
    assert_eq!(count_occurrences("abc", ""), 0);
}

#[test]
fn snippet_is_char_safe_and_bounded() {
    let s = snippet("line one\nline two that is quite long", 10);
    assert!(!s.contains('\n'));
    assert!(s.chars().count() <= 10);
    // Multi-byte chars must not panic or split.
    let u = snippet("héllo wörld ☃ snowman everywhere", 8);
    assert!(u.chars().count() <= 8);
}

#[test]
fn a_snippet_fits_any_limit() {
    assert_eq!(snippet("some text", 0), "");
    assert_eq!(snippet("some text", 1).chars().count(), 1);
    assert_eq!(snippet("ab", 2), "ab");
}

#[test]
fn resolve_prefixes_validates_category() {
    assert_eq!(
        resolve_prefixes(None).unwrap(),
        vec!["gotcha:", "decision:", "dev_note:", "file:", "stage:"]
    );
    assert_eq!(resolve_prefixes(Some("gotcha")).unwrap(), vec!["gotcha:"]);
    assert_eq!(resolve_prefixes(Some("decision:")).unwrap(), vec!["decision:"]);
    assert!(resolve_prefixes(Some("bogus")).is_err());
}

#[test]
fn category_label_covers_all_variants() {
    for c in [
        Category::Gotcha,
        Category::File,
        Category::Decision,
        Category::Stage,
        Category::Dependency,
        Category::DevNote,
        Category::Session,
        Category::Analytics,
    ] {
        assert!(!category_label(&c).is_empty());
    }
}

#[test]
fn terms_are_lower_case_words() {
    assert_eq!(search_terms(&terms(&["Fraud  CHECK", "ÄRGER"])), vec!["fraud", "check", "ärger"]);
}

#[test]
fn scores_match_in_any_case() {
    let r = rec("gotcha:Fraud", "FRAUD", &["Fraud"]);
    assert!(score(&r, &terms(&["fraud"])) > score(&rec("gotcha:x", "fraud", &[]), &terms(&["fraud"])));
}

#[test]
fn hits_come_best_first_and_by_key() {
    let records = vec![
        rec("gotcha:b", "fraud", &[]),
        rec("gotcha:a", "fraud", &[]),
        rec("gotcha:fraud", "", &[]),
        rec("gotcha:z", "nothing", &[]),
    ];
    let t = terms(&["fraud"]);
    let hits = search(&records, &t, 10);
    let keys: Vec<&str> = hits.iter().map(|h| h.key.as_str()).collect();
    assert_eq!(keys, vec!["gotcha:fraud", "gotcha:a", "gotcha:b"]);
    assert_eq!(search(&records, &t, 1).len(), 1);
    let lines = render(&records, &t, &hits).join("\n");
    assert!(lines.contains("gotcha:fraud"));
}

fn args(query: &[&str], category: Option<&str>) -> SearchArgs {
    SearchArgs {
        query: terms(query),
        limit: 10,
        category: category.map(|s| s.to_string()),
        json: false,
    }
}

#[test]
fn a_search_is_planned_or_refused() {
    let p = plan_search(&args(&["Fraud check"], Some("gotcha:"))).unwrap();
    assert_eq!(p.terms, vec!["fraud", "check"]);
    assert_eq!(p.prefixes, vec!["gotcha:"]);
    assert_eq!(
        plan_search(&args(&["  "], None)).unwrap_err(),
        "provide one or more search terms, e.g. `mati search fraud check`"
    );
    assert_eq!(
        plan_search(&args(&["x"], Some("bogus"))).unwrap_err(),
        "unknown category 'bogus' (expected one of: gotcha, decision, dev_note, file, stage)"
    );
}
