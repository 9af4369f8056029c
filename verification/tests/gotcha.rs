//! Adding, editing, deleting and confirming gotchas.
use mati::gotcha::{
    agrees_to_delete, apply_edit, choose_existing, confirm_payload, confirm_refusal,
    confirm_target, created_lines, delete_header, edit_gotcha, edit_header, entered, existing_gotchas_for_file,
    existing_header, interactive_add, manual_gotcha_matches, new_gotcha, normalize_key,
    normalize_payload,
    parse_severity, prompt, quick_add, short_rule, slug_for_rule, split_files, value_text,
    ConfirmState, EditInput, ExistingChoice, Extras, KeyChoice, KeyStep, Stamps, StoredGotcha,
};
use mati::json::Json;
use mati::proxy::GotchaPayload;
use mati::record::{Category, Priority, RecordLifecycle, RecordSource};

fn value(v: serde_json::Value) -> Json {
    match v {
        serde_json::Value::Null => Json::Null,
        serde_json::Value::Bool(b) => Json::Bool(b),
        serde_json::Value::Number(n) => Json::Number(n.to_string()),
        serde_json::Value::String(s) => Json::Str(s),
        serde_json::Value::Array(a) => Json::Array(a.into_iter().map(value).collect()),
        serde_json::Value::Object(o) => {
            Json::Object(o.into_iter().map(|(k, v)| (k, value(v))).collect())
        }
    }
}

fn json(s: &str) -> Json {
    value(serde_json::from_str(s).unwrap())
}

fn payload(rule: &str, reason: &str, files: &[&str]) -> GotchaPayload {
    GotchaPayload {
        rule: rule.to_string(),
        reason: reason.to_string(),
        severity: Priority::High,
        affected_files: files.iter().map(|s| s.to_string()).collect(),
        ref_url: None,
    }
}

fn stored() -> StoredGotcha {
    StoredGotcha {
        active: true,
        payload: Some(payload(
            "Always check input",
            "unchecked input causes panics",
            &["src/main.rs"],
        )),
    }
}

#[test]
fn choose_manual_gotcha_key_adds_suffix_on_collision() {
    let candidate = payload("Always check input", "different context", &["src/lib.rs"]);
    let mut c = KeyChoice::new("always-check-input".to_string());
    assert_eq!(c.key(), "gotcha:always-check-input");
    assert!(matches!(c.on_lookup(&Some(stored()), &candidate), KeyStep::Next));
    assert_eq!(c.key(), "gotcha:always-check-input:2");
    match c.on_lookup(&None, &candidate) {
        KeyStep::Take(key) => assert_eq!(key, "gotcha:always-check-input:2"),
        other => panic!("unexpected {other:?}"),
    }
}

#[test]
fn the_first_free_number_is_taken() {
    let candidate = payload("Always check input", "different context", &["src/lib.rs"]);
    let mut c = KeyChoice::new("s".to_string());
    let mut looked = Vec::new();
    let taken = loop {
        let key = c.key();
        let found = if looked.len() < 11 { Some(stored()) } else { None };
        looked.push(key);
        match c.on_lookup(&found, &candidate) {
            KeyStep::Next => {}
            KeyStep::Take(key) => break key,
            other => panic!("unexpected {other:?}"),
        }
    };
    assert_eq!(taken, "gotcha:s:12");
    assert_eq!(looked[..2], ["gotcha:s".to_string(), "gotcha:s:2".to_string()]);
    assert_eq!((looked.len(), looked[11].as_str()), (12, "gotcha:s:12"));
}

#[test]
fn a_gotcha_is_not_added_twice() {
    let same = payload("Always check input", "unchecked input causes panics", &["src/main.rs"]);
    assert!(manual_gotcha_matches(&stored(), &same));
    let mut c = KeyChoice::new("always-check-input".to_string());
    match c.on_lookup(&Some(stored()), &same) {
        KeyStep::Duplicate(message) => {
            assert_eq!(
                message,
                "a matching gotcha already exists as 'gotcha:always-check-input'. Use `mati gotcha edit gotcha:always-check-input` to update it."
            );
        }
        other => panic!("unexpected {other:?}"),
    }
    let gone = StoredGotcha { active: false, ..stored() };
    assert!(!manual_gotcha_matches(&gone, &same));
}

#[test]
fn confirm_sets_confirmed_true() {
    let p = confirm_payload(json(r#"{"rule":"r","severity":"High","confirmed":false}"#));
    assert!(p.flag("confirmed"));
    assert_eq!(p.text_of("severity").as_deref(), Some("high"));
    assert_eq!(p.text_of("rule").as_deref(), Some("r"));
}

#[test]
fn confirm_updates_source_to_developer_manual() {
    let mut s = Stamps {
        source: RecordSource::ClaudeEnrich,
        confirmations: 0,
        updated_at: 1,
        logical_clock: 1,
        wall_clock: 1,
    };
    s.confirmed(50);
    assert_eq!(s.source, RecordSource::DeveloperManual);
    assert_eq!(s.confirmations, 1);
    assert_eq!((s.updated_at, s.logical_clock, s.wall_clock), (50, 2, 50));
    s.edited(60);
    assert_eq!((s.confirmations, s.logical_clock, s.updated_at), (1, 3, 60));
    assert_eq!(Stamps::created(9).confirmations, 1);
}

#[test]
fn confirm_fails_on_nonexistent_key() {
    let e = confirm_refusal("gotcha:does-not-exist", &None).unwrap();
    assert!(e.contains("no record found"));
}

#[test]
fn only_live_gotchas_are_confirmed() {
    let state = |category, lifecycle| Some(ConfirmState { category, lifecycle });
    assert!(confirm_refusal("gotcha:x", &state(Category::Gotcha, RecordLifecycle::Active)).is_none());
    assert!(confirm_refusal("gotcha:x", &state(Category::File, RecordLifecycle::Active))
        .unwrap()
        .contains("not a Gotcha record"));
    let gone = RecordLifecycle::Tombstoned { reason: "x".to_string() };
    assert!(confirm_refusal("gotcha:x", &state(Category::Gotcha, gone))
        .unwrap()
        .contains("tombstoned"));
    assert_eq!(confirm_target("slug").unwrap(), "gotcha:slug");
    assert_eq!(
        confirm_target("file:src/x.rs").unwrap_err(),
        "'file:src/x.rs' has category 'file', not 'gotcha'.\nPass just the slug (e.g., 'src/x.rs') or the full gotcha: key."
    );
}

#[test]
fn slugs_come_from_slugify() {
    assert_eq!(slug_for_rule("Always check input!"), "always-check-input");
    assert!(slug_for_rule(&"very long rule ".repeat(10)).chars().count() <= 40);
}

#[test]
fn keys_and_answers_are_read() {
    assert_eq!(normalize_key("x"), "gotcha:x");
    assert_eq!(normalize_key("gotcha:x"), "gotcha:x");
    assert_eq!(parse_severity(" CRIT "), Priority::Critical);
    assert_eq!(parse_severity("low"), Priority::Low);
    assert_eq!(parse_severity("whatever"), Priority::Normal);
    assert_eq!(split_files("a.rs, b.rs,,"), vec!["a.rs", "b.rs"]);
    assert_eq!(entered(Some("  yes \n")), "yes");
    assert_eq!(entered(None), "");
    assert!(agrees_to_delete("YES"));
    assert!(!agrees_to_delete(""));
    assert_eq!(value_text("r", ""), "r");
    assert_eq!(value_text("r", "w"), "r because w");
}

#[test]
fn a_gotcha_is_captured() {
    let g = quick_add("src/x.rs", "rule".to_string(), None, Some("high".to_string())).unwrap();
    assert_eq!(g.severity, Priority::High);
    assert_eq!(g.affected_files, vec!["src/x.rs"]);
    assert_eq!(quick_add("f", String::new(), None, None).unwrap_err(), "rule cannot be empty");
    let g = interactive_add(
        "src/x.rs",
        "rule".to_string(),
        "why".to_string(),
        Some(Extras {
            severity: "low".to_string(),
            files: "a.rs,b.rs".to_string(),
            url: "http://x".to_string(),
        }),
    )
    .unwrap();
    assert_eq!(g.affected_files, vec!["a.rs", "b.rs"]);
    assert_eq!(g.ref_url.as_deref(), Some("http://x"));
    assert!(interactive_add("f", String::new(), String::new(), None).is_err());
}

#[test]
fn empty_answers_keep_what_was_there() {
    let blank = || EditInput {
        rule: String::new(),
        reason: String::new(),
        severity: String::new(),
        files: String::new(),
        url: String::new(),
    };
    let old = GotchaPayload { ref_url: Some("u".to_string()), ..payload("r", "w", &["a"]) };
    let same = apply_edit(old, blank());
    assert_eq!(same, GotchaPayload { ref_url: Some("u".to_string()), ..payload("r", "w", &["a"]) });
    let cleared = apply_edit(same, EditInput { url: "-".to_string(), ..blank() });
    assert_eq!(cleared.ref_url, None);
    assert!(edit_header("gotcha:x", &cleared, false).join("\n").contains("Rule:     r"));
    assert!(delete_header("gotcha:x", &cleared, false).join("\n").contains("Files:  a"));
}

#[test]
fn existing_gotchas_are_offered() {
    let all = vec![
        stored(),
        StoredGotcha { active: false, ..stored() },
        StoredGotcha { active: true, payload: None },
    ];
    assert_eq!(existing_gotchas_for_file(&all, "src/main.rs"), vec![0]);
    let keys = vec!["gotcha:x".to_string()];
    assert_eq!(choose_existing("", &keys), ExistingChoice::AddNew);
    assert_eq!(choose_existing("x", &keys), ExistingChoice::Edit("gotcha:x".to_string()));
    assert!(matches!(choose_existing("y", &keys), ExistingChoice::NotFound(_)));
    assert!(existing_header("f", 1, false).contains("(1 gotcha)"));
    assert!(existing_header("f", 2, false).contains("(2 gotchas)"));
    assert_eq!(short_rule(&"x".repeat(61)).chars().count(), 60);
    assert_eq!(short_rule("short"), "short");
}

#[test]
fn gotcha_texts() {
    assert_eq!(prompt("Rule: ", false), "Rule:  ");
    assert_eq!(
        created_lines("gotcha:x", "0.60", "0.80", &vec!["a.rs".to_string()]),
        vec![
            "Created gotcha:x  (quality: 0.60, confidence: 0.80)",
            "  -> file:a.rs HasGotcha gotcha:x"
        ]
    );
    let p = normalize_payload(json(r#"{"severity":"Critical","x":1}"#));
    assert_eq!(p.text_of("severity").as_deref(), Some("critical"));
}

#[test]
fn an_edit_keeps_when_a_gotcha_was_found() {
    let g = GotchaPayload {
        rule: "Never unwrap".to_string(),
        reason: "it panics".to_string(),
        severity: Priority::High,
        affected_files: vec!["src/a.rs".to_string()],
        ref_url: Some("https://example.org".to_string()),
    };
    let w = new_gotcha(g, 50);
    assert_eq!(w.value, "Never unwrap because it panics");
    assert_eq!((w.discovered, w.confirmed), (50, true));
    assert_eq!(w.stamps, Stamps::created(50));

    let input = EditInput {
        rule: "Never panic".to_string(),
        reason: String::new(),
        severity: "low".to_string(),
        files: String::new(),
        url: "-".to_string(),
    };
    let e = edit_gotcha(w, input, 80);
    assert_eq!(e.value, "Never panic because it panics");
    assert_eq!(e.gotcha.severity, Priority::Low);
    assert_eq!(e.gotcha.ref_url, None);
    assert_eq!((e.discovered, e.confirmed), (50, true));
    assert_eq!((e.stamps.updated_at, e.stamps.logical_clock, e.stamps.wall_clock), (80, 2, 80));
    assert_eq!(e.stamps.confirmations, 1);
}
