//! Gotchas from git history, and what `mati init` decides.
use mati::daemon::Ping;
use mati::host::Assistant;
use mati::init::{
    changed_lines, clock_plan, counted_line, dep_tags, dep_value, dep_writes, doc_promotion,
    file_writes, flag_partners, gotcha_candidates, init_refusal, is_cold, is_significant,
    link_gotchas, needs_graph, note_linked_change, outdated_keys, parse_line, project_line,
    significant_changes, skipped_line, suggest, summary, timed_line, Dep, DepVersion, DepWrite,
    FileKeys, FileState, FileWrite, Flag, ManifestKind, ParsedFile, Stubs, Suspects, Totals,
};
use mati::record::{Priority, StalenessSignal};
use mati::signals::{
    build_cochange_gotchas, build_ownership_gotchas, build_revert_gotchas, AuthorCount,
    FileAuthors, Frequency, GitSignals, GotchaStub, Pair, RevertCount,
};

fn empty() -> GitSignals {
    GitSignals {
        co_change_pairs: vec![],
        change_frequency: vec![],
        revert_counts: vec![],
        author_commit_counts: vec![],
        hotspot_files: vec![],
    }
}

fn make_signals(pairs: &[(&str, &str, u32)], freq: &[(&str, u32)]) -> GitSignals {
    let mut signals = empty();
    for (a, b, count) in pairs {
        signals.co_change_pairs.push(Pair { a: a.to_string(), b: b.to_string(), count: *count });
    }
    for (path, f) in freq {
        signals.change_frequency.push(Frequency { path: path.to_string(), count: *f });
    }
    signals
}

#[test]
fn rule_text_contains_ratio_and_pct() {
    let signals = make_signals(&[("a.rs", "b.rs", 9)], &[("a.rs", 10), ("b.rs", 10)]);
    let gotchas = build_cochange_gotchas(&signals, 0, 0);
    // Both symmetric: both get a gotcha.
    let ga = gotchas.iter().find(|g| g.source_path == "a.rs").unwrap();
    assert!(ga.rule.contains("9/10"), "rule should contain 9/10");
    assert!(ga.rule.contains("90%"), "rule should contain 90%");
    assert!(ga.rule.contains("`b.rs`"), "rule should name the target");
}

#[test]
fn symmetric_pair_produces_two_gotchas() {
    let signals = make_signals(&[("a.rs", "b.rs", 8)], &[("a.rs", 10), ("b.rs", 10)]);
    let gotchas = build_cochange_gotchas(&signals, 0, 0);
    assert_eq!(gotchas.len(), 2);
    assert!(gotchas.iter().any(|g| g.source_path == "a.rs"));
    assert!(gotchas.iter().any(|g| g.source_path == "b.rs"));
}

#[test]
fn asymmetric_pair_only_constrained_file_gets_gotcha() {
    let signals = make_signals(&[("a.rs", "b.rs", 4)], &[("a.rs", 30), ("b.rs", 4)]);
    let gotchas = build_cochange_gotchas(&signals, 0, 0);
    assert_eq!(gotchas.len(), 1);
    assert_eq!(gotchas[0].source_path, "b.rs");
    assert!(gotchas[0].rule.contains("`a.rs`"));
    assert!(gotchas[0].rule.contains("4/4"));
    assert!(gotchas[0].rule.contains("100%"));
}

#[test]
fn key_is_directional() {
    let signals = make_signals(&[("a.rs", "b.rs", 4)], &[("a.rs", 30), ("b.rs", 4)]);
    let gotchas = build_cochange_gotchas(&signals, 0, 0);
    assert_eq!(gotchas[0].key, "gotcha:cochange:b.rs|a.rs");
}

#[test]
fn normal_signal_gets_additionalcontext_tier() {
    let signals = make_signals(&[("a.rs", "b.rs", 8)], &[("a.rs", 10), ("b.rs", 10)]);
    let gotchas = build_cochange_gotchas(&signals, 0, 0);
    let ga = gotchas.iter().find(|g| g.source_path == "a.rs").unwrap();
    assert_eq!(ga.confidence, 45, "0.45 in hundredths");
    assert_eq!(ga.quality, 40, "0.40 in hundredths");
}

#[test]
fn strong_signal_gets_inject_tier() {
    let signals = make_signals(&[("a.rs", "b.rs", 20)], &[("a.rs", 21), ("b.rs", 21)]);
    let gotchas = build_cochange_gotchas(&signals, 0, 0);
    let ga = gotchas.iter().find(|g| g.source_path == "a.rs").unwrap();
    assert_eq!(ga.confidence, 65, "0.65 in hundredths");
    assert_eq!(ga.quality, 60, "0.60 in hundredths");
}

#[test]
fn volume_cap_is_five_per_source() {
    let mut signals = empty();
    signals.change_frequency.push(Frequency { path: "hub.rs".to_string(), count: 10 });
    for i in 0..7u32 {
        signals.co_change_pairs.push(Pair {
            a: "hub.rs".to_string(),
            b: format!("dep{i}.rs"),
            count: 10 - i,
        });
        signals.change_frequency.push(Frequency { path: format!("dep{i}.rs"), count: 10 - i });
    }
    let gotchas = build_cochange_gotchas(&signals, 0, 0);
    let hub_gotchas: Vec<&GotchaStub> =
        gotchas.iter().filter(|g| g.source_path == "hub.rs").collect();
    assert!(
        hub_gotchas.len() <= 5,
        "expected ≤ 5 gotchas for hub.rs, got {}",
        hub_gotchas.len()
    );
}

#[test]
fn payload_deserializes_as_gotcha_record() {
    let signals = make_signals(&[("a.rs", "b.rs", 8)], &[("a.rs", 10), ("b.rs", 10)]);
    let gotchas = build_cochange_gotchas(&signals, 0, 0);
    let ga = gotchas.iter().find(|g| g.source_path == "a.rs").unwrap();
    assert!(ga.confirmed);
    assert!(ga.rule.contains("b.rs"));
    assert_eq!(ga.source_path, "a.rs");
}

#[test]
fn empty_signals_produce_no_gotchas() {
    let signals = empty();
    assert!(build_cochange_gotchas(&signals, 0, 0).is_empty());
    assert!(build_revert_gotchas(&signals, 0, 0).is_empty());
    assert!(build_ownership_gotchas(&signals, 0, 0).is_empty());
}

#[test]
fn seven_of_ten_is_enough_and_less_is_not() {
    let at = make_signals(&[("a.rs", "b.rs", 7)], &[("a.rs", 10), ("b.rs", 100)]);
    assert_eq!(build_cochange_gotchas(&at, 5, 99).len(), 1);
    assert_eq!(build_cochange_gotchas(&at, 5, 99)[0].logical_clock, 5);
    assert_eq!(build_cochange_gotchas(&at, 5, 99)[0].discovered, 99);
    let below = make_signals(&[("a.rs", "b.rs", 69)], &[("a.rs", 100), ("b.rs", 100)]);
    assert!(build_cochange_gotchas(&below, 0, 0).is_empty());
    let few = make_signals(&[("a.rs", "b.rs", 2)], &[("a.rs", 2), ("b.rs", 2)]);
    assert!(build_cochange_gotchas(&few, 0, 0).is_empty());
}

#[test]
fn reverted_files_get_stubs() {
    let mut s = make_signals(&[], &[("a.rs", 20), ("b.rs", 100)]);
    s.revert_counts = vec![
        RevertCount { path: "a.rs".to_string(), count: 2, pct: 10 },
        RevertCount { path: "b.rs".to_string(), count: 2, pct: 2 },
        RevertCount { path: "c.rs".to_string(), count: 1, pct: 50 },
    ];
    let out = build_revert_gotchas(&s, 0, 0);
    assert_eq!(out.len(), 1);
    assert_eq!(out[0].source_path, "a.rs");
    assert!(!out[0].confirmed);
    assert!(out[0].rule.contains("10%") || out[0].rule.contains("2"));
}

#[test]
fn files_with_one_owner_get_stubs() {
    let author = |a: &str, n: u32| AuthorCount { author: a.to_string(), count: n };
    let mut s = make_signals(&[], &[("a.rs", 10)]);
    s.hotspot_files = vec!["a.rs".to_string(), "b.rs".to_string(), "c.rs".to_string()];
    s.author_commit_counts = vec![
        FileAuthors { path: "a.rs".to_string(), authors: vec![author("ada", 8), author("bob", 2)] },
        FileAuthors { path: "b.rs".to_string(), authors: vec![author("ada", 7), author("bob", 3)] },
        FileAuthors { path: "c.rs".to_string(), authors: vec![author("ada", 4)] },
        FileAuthors { path: "cold.rs".to_string(), authors: vec![author("ada", 9)] },
    ];
    let out = build_ownership_gotchas(&s, 0, 0);
    let paths: Vec<&str> = out.iter().map(|g| g.source_path.as_str()).collect();
    assert_eq!(paths, vec!["a.rs"]);
    assert_eq!(
        out[0].rule,
        "80% of commits by ada (8/10) — key person dependency on this hotspot file."
    );
    assert_eq!(out[0].key, "gotcha:ownership:a.rs");
    assert!(!out[0].confirmed);
}

fn stub(key: &str, source: &str) -> GotchaStub {
    GotchaStub {
        key: key.to_string(),
        source_path: source.to_string(),
        rule: String::new(),
        reason: String::new(),
        severity: Priority::Normal,
        quality: 0,
        confidence: 0,
        confirmed: true,
        tags: vec![],
        discovered: 0,
        logical_clock: 0,
    }
}

#[test]
fn linking_replaces_only_its_own_keys() {
    let mut f = FileKeys {
        path: "a.rs".to_string(),
        gotcha_keys: vec!["gotcha:mine".to_string(), "gotcha:cochange:a.rs|old.rs".to_string()],
    };
    let stubs = vec![
        stub("gotcha:cochange:a.rs|b.rs", "a.rs"),
        stub("gotcha:cochange:z.rs|b.rs", "z.rs"),
    ];
    link_gotchas(&mut f, "gotcha:cochange:", &stubs);
    assert_eq!(f.gotcha_keys, vec!["gotcha:mine", "gotcha:cochange:a.rs|b.rs"]);
    link_gotchas(&mut f, "gotcha:cochange:", &stubs);
    assert_eq!(f.gotcha_keys, vec!["gotcha:mine", "gotcha:cochange:a.rs|b.rs"]);
    let existing =
        vec!["gotcha:cochange:a.rs|b.rs".to_string(), "gotcha:cochange:x|y".to_string()];
    assert_eq!(outdated_keys(&existing, &stubs), vec!["gotcha:cochange:x|y"]);
}

#[test]
fn partners_of_a_changed_file_are_flagged() {
    let pair = |a: &str, b: &str| Pair { a: a.to_string(), b: b.to_string(), count: 5 };
    let pairs = vec![pair("a", "b"), pair("b", "c"), pair("c", "d")];
    let flags = flag_partners(&pairs, &vec!["a".to_string()]);
    assert_eq!(flags, vec![Flag { partner: "b".to_string(), changed: "a".to_string() }]);
    let both = flag_partners(&pairs, &vec!["a".to_string(), "b".to_string()]);
    assert!(both.iter().all(|f| f.partner != "a" && f.partner != "b"));
    let mut v = vec![];
    note_linked_change(&mut v, "a");
    note_linked_change(&mut v, "a");
    assert_eq!(v, vec![StalenessSignal::LinkedFileChanged { path: "a".to_string() }]);
}

#[test]
fn a_change_counts_from_a_tenth_of_the_lines() {
    assert!(is_significant(10, 100));
    assert!(!is_significant(9, 100));
    let state = |h: &str, n: u32| FileState { content_hash: Some(h.to_string()), line_count: n };
    assert_eq!(changed_lines(&state("x", 10), &Some(state("x", 20))), None);
    assert_eq!(changed_lines(&state("y", 10), &Some(state("x", 20))), Some((10, 20)));
    assert_eq!(changed_lines(&state("y", 10), &None), None);
}

#[test]
fn init_is_refused_while_a_daemon_holds_the_store() {
    assert!(init_refusal(Ping::Answered).is_some());
    assert!(init_refusal(Ping::Unresponsive).is_some());
    assert!(init_refusal(Ping::NotRunning).is_none());
    assert!(init_refusal(Ping::StaleSocket).is_none());
}

#[test]
fn dependencies_are_described() {
    assert!(dep_value("serde", &DepVersion::Declared("1".to_string())).contains("serde"));
    assert!(dep_value("serde", &DepVersion::Workspace).contains("workspace"));
    assert!(dep_tags(ManifestKind::CargoToml, true).iter().any(|t| t.contains("dev")));
    assert!(doc_promotion("").is_none());
}

#[test]
fn clocks_follow_one_another() {
    let c = clock_plan(2, 3, 4, 5, 6);
    assert!(c.cochange < c.revert && c.revert < c.ownership);
    assert!(c.ownership < c.files && c.files < c.deps);
    assert!(is_cold(0));
    assert!(!is_cold(1));
    assert!(needs_graph(1, 0));
}

#[test]
fn init_tells_what_it_did() {
    assert!(project_line(Some("mati"), "abc").contains("mati"));
    assert!(parse_line(3, 4, 5).contains('3'));
    assert!(counted_line("  x ", 3, " y", 4, 5).contains('3'));
    assert!(timed_line("  x ", 4, 5).contains('5'));
    assert!(skipped_line("  x ", "why").contains("why"));
    let n = gotcha_candidates(&vec![Suspects { todos: 1, unsafe_count: 2, unwrap_count: 3 }]);
    assert!(n <= 6);
    let t = Totals {
        files: 10,
        parsed: 9,
        skipped: 1,
        candidates: n,
        cochange: 2,
        revert: 0,
        ownership: 0,
        deps: 3,
        edges: 4,
        imported: 5,
        hotspots: 1,
        total_ms: 77,
    };
    let host = Assistant {
        name: "A".to_string(),
        product: "A Pro".to_string(),
        dir: ".a".to_string(),
        memory: "A.md".to_string(),
    };
    let lines = summary(&t, &host);
    assert!(lines.contains(&"  imported from A.md:  5".to_string()));
    assert!(lines.contains(&"  Total: 77ms · 0 tokens · 0 A calls".to_string()));
}

#[test]
fn suggestions_count_up() {
    let mut signals = make_signals(
        &[("a.rs", "b.rs", 9)],
        &[("a.rs", 10), ("b.rs", 10), ("c.rs", 20)],
    );
    signals.revert_counts.push(RevertCount { path: "c.rs".to_string(), count: 3, pct: 15 });
    signals.hotspot_files.push("a.rs".to_string());
    signals.author_commit_counts.push(FileAuthors {
        path: "a.rs".to_string(),
        authors: vec![AuthorCount { author: "kim".to_string(), count: 10 }],
    });
    let r = suggest(&Some(signals), 4, 100);
    let clocks: Vec<u64> = r
        .cochange
        .iter()
        .chain(&r.revert)
        .chain(&r.ownership)
        .map(|g| g.logical_clock)
        .collect();
    assert_eq!(clocks, vec![4, 5, 6, 7]);
    assert_eq!(r.revert[0].key, "gotcha:revert:c.rs");
    assert_eq!(r.ownership[0].key, "gotcha:ownership:a.rs");

    let none = suggest(&None, 4, 100);
    assert!(none.cochange.is_empty() && none.revert.is_empty() && none.ownership.is_empty());
}

fn parsed(path: &str, purpose: &str, keys: &[&str], hash: &str, lines: u32) -> ParsedFile {
    ParsedFile {
        path: path.to_string(),
        purpose: purpose.to_string(),
        gotcha_keys: keys.iter().map(|k| k.to_string()).collect(),
        state: FileState { content_hash: Some(hash.to_string()), line_count: lines },
    }
}

#[test]
fn a_cold_run_relinks_and_compares_nothing() {
    let stubs = Stubs {
        cochange: vec![stub("gotcha:cochange:a.rs|b.rs", "a.rs")],
        revert: vec![stub("gotcha:revert:a.rs", "a.rs")],
        ownership: vec![stub("gotcha:ownership:b.rs", "b.rs")],
    };
    let keys = ["gotcha:revert:a.rs", "gotcha:mine", "gotcha:cochange:a.rs|gone.rs"];
    let files = vec![parsed("a.rs", "Parses.", &keys, "new", 20)];
    let old = vec![Some(FileState { content_hash: Some("old".to_string()), line_count: 10 })];
    let cold = file_writes(&files, &stubs, &old, true, 7);
    let expected = FileWrite {
        key: "file:a.rs".to_string(),
        clock: 7,
        promoted: Some(("Parses.".to_string(), 45)),
        gotcha_keys: vec![
            "gotcha:mine".to_string(),
            "gotcha:cochange:a.rs|b.rs".to_string(),
            "gotcha:revert:a.rs".to_string(),
        ],
        change: None,
    };
    assert_eq!(cold, vec![expected]);
    assert!(significant_changes(&files, &cold).is_empty());
}

#[test]
fn a_warm_run_keeps_links_and_notes_changes() {
    let stubs = Stubs { cochange: vec![], revert: vec![], ownership: vec![] };
    let files = vec![
        parsed("a.rs", "", &["gotcha:revert:a.rs"], "new", 20),
        parsed("b.rs", "", &[], "new", 101),
        parsed("c.rs", "", &[], "same", 50),
        parsed("d.rs", "", &[], "new", 50),
    ];
    let state = |hash: &str, n: u32| {
        Some(FileState { content_hash: Some(hash.to_string()), line_count: n })
    };
    let old = vec![state("old", 10), state("old", 100), state("same", 10), None];
    let warm = file_writes(&files, &stubs, &old, false, 7);
    assert_eq!(warm[0].gotcha_keys, vec!["gotcha:revert:a.rs".to_string()]);
    assert_eq!(warm[0].promoted, None);
    let changes: Vec<Option<(u32, u32)>> = warm.iter().map(|w| w.change).collect();
    assert_eq!(changes, vec![Some((10, 10)), Some((1, 100)), None, None]);
    let clocks: Vec<u64> = warm.iter().map(|w| w.clock).collect();
    assert_eq!(clocks, vec![7, 8, 9, 10]);
    assert_eq!(significant_changes(&files, &warm), vec!["a.rs".to_string()]);
}

#[test]
fn dependencies_are_written() {
    let deps = vec![
        Dep {
            name: "serde".to_string(),
            version: DepVersion::Declared("1".to_string()),
            manifest: ManifestKind::CargoToml,
            dev: true,
        },
        Dep {
            name: "core".to_string(),
            version: DepVersion::Workspace,
            manifest: ManifestKind::GoMod,
            dev: false,
        },
    ];
    let written = dep_writes(&deps, 12);
    let expected = DepWrite {
        key: "dep:serde".to_string(),
        clock: 12,
        value: "serde = \"1\"".to_string(),
        tags: vec!["manifest:cargo-toml".to_string(), "dev-dep".to_string()],
    };
    assert_eq!(written[0], expected);
    assert_eq!(written[1].key, "dep:core");
    assert_eq!(written[1].clock, 13);
    assert_eq!(written[1].value, "core (workspace)");
}
