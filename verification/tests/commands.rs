//! Diff, explain, gaps, repair, clusters, policy, language, eval, enrich and the
//! commands of hook scripts.
use mati::clusters::{clusters_report, Cluster, ClusterIndex, ClustersArgs};
use mati::daemon::{DaemonResult, Ping};
use mati::diff::{
    changed_files, diff_range, diff_report, rate_file, tally, DiffArgs, DiffGotcha, KnownFile,
    Severity,
};
use mati::enrich::guide;
use mati::eval::{render_human, EvalReport, LayerReport};
use mati::explain::{
    briefing, cochange_key_prefix, format_gotcha_provenance, no_record, share_of, strip_dot_slash,
    Briefing, ExplainGotcha, KeyValue, naming_gotchas, GotchaLink,
};
use mati::gaps::{
    cache_is_current, compute_fan_in, display_gaps, select_gaps, without_namespace, FanIn, Gap,
    GapsArgs,
};
use mati::hooks::{consulted, edited_path, fetched, hook_request, HookCommand};
use mati::host::Assistant;
use mati::json::Json;
use mati::language::{parse_language_label, signals_returned, unknown_label, Language};
use mati::policy::{
    exit_code, failed_line, key_of_bytes, outcome_json, trusted_key, verified_lines, KeyError,
    PolicyRule, VerifiedBundle,
};
use mati::record::{Priority, QualityTier, RecordSource, Score, StalenessTier};
use mati::repair::{
    check_exit_code, check_refusal, check_report, cluster_value, drift_summary, phase_lines,
    pre_repair, repair_refusal, repair_report, DriftEntry, PreRepair, RepairReport,
};

fn json(s: &str) -> Json {
    value(serde_json::from_str(s).unwrap())
}

fn value(v: serde_json::Value) -> Json {
    match v {
        serde_json::Value::Null => Json::Null,
        serde_json::Value::Bool(b) => Json::Bool(b),
        serde_json::Value::Number(n) => Json::Number(n.to_string()),
        serde_json::Value::String(s) => Json::Str(s),
        serde_json::Value::Array(a) => Json::Array(a.into_iter().map(value).collect()),
        serde_json::Value::Object(o) => {
            Json::Object(o.into_iter().map(|(k, v)| (k, value(v))).collect())
        }
    }
}

fn sv(v: &[&str]) -> Vec<String> {
    v.iter().map(|s| s.to_string()).collect()
}

fn score(v: f32) -> Score {
    Score { bits: v.to_bits(), shown: format!("{v:.2}") }
}

#[test]
fn parse_language_handles_aliases() {
    assert_eq!(parse_language_label("rust").unwrap(), Language::Rust);
    assert_eq!(parse_language_label("ts").unwrap(), Language::TypeScript);
    assert_eq!(parse_language_label("py").unwrap(), Language::Python);
    assert_eq!(parse_language_label("c++").unwrap(), Language::Cpp);
    assert_eq!(parse_language_label("CPP").unwrap(), Language::Cpp);
    assert!(parse_language_label("klingon").is_err());
}

#[test]
fn an_unknown_language_is_quoted() {
    assert_eq!(
        parse_language_label("Kli\"ngon").unwrap_err(),
        "unknown language label: \"kli\\\"ngon\". Valid: rust, typescript, python, go, javascript, java, c, cpp, ruby, scala, elixir, haskell, unknown."
    );
    assert!(unknown_label("\"x\"").starts_with("unknown language label: \"x\". Valid:"));
    assert_eq!(signals_returned(10, 0), 10);
    assert_eq!(signals_returned(10, 3), 3);
    assert_eq!(signals_returned(2, 3), 2);
}

const KEY: &str = "AAECAwQFBgcICQoLDA0ODxAREhMUFRYXGBkaGxwdHh8=";

#[test]
fn a_trusted_key_has_thirty_two_bytes() {
    let k = trusted_key("org-1", &format!("  {KEY}\n")).unwrap();
    assert_eq!(k.key_id, "org-1");
    assert_eq!(k.public_key, (0u8..32).collect::<Vec<u8>>());
    let short = trusted_key("org-1", "AAEC").unwrap_err();
    assert_eq!(short, KeyError::NotAKey);
    assert_eq!(short.message(), "--key must be a 32-byte Ed25519 public key");
    let bad = trusted_key("org-1", "???").unwrap_err();
    assert!(matches!(bad, KeyError::NotBase64(_)));
    assert_eq!(bad.message(), "decoding --key base64");
    assert_eq!(key_of_bytes("k", Ok(vec![1; 31])).unwrap_err(), KeyError::NotAKey);
    assert_eq!(key_of_bytes("k", Ok(vec![1; 32])).unwrap().public_key.len(), 32);
}

#[test]
fn the_outcome_of_a_verification_is_told() {
    let ok = Ok(VerifiedBundle {
        org_id: "o".to_string(),
        bundle_id: "b".to_string(),
        rules: vec![PolicyRule {
            level: "deny".to_string(),
            target: "phi/**".to_string(),
            id: "r1".to_string(),
        }],
    });
    assert_eq!(
        verified_lines(ok.as_ref().unwrap()),
        vec!["✓ verified: org=o bundle=b (1 rule(s))", "    [deny] phi/** → r1"]
    );
    assert_eq!(
        outcome_json(&ok),
        json(r#"{"verified":true,"org_id":"o","bundle_id":"b","rules":1}"#)
            .pipe_sorted(&["verified", "org_id", "bundle_id", "rules"])
    );
    assert_eq!(exit_code(&ok), 0);
    let err: Result<VerifiedBundle, String> = Err("bad signature".to_string());
    assert_eq!(outcome_json(&err).text_of("error").as_deref(), Some("bad signature"));
    assert!(!outcome_json(&err).flag("verified"));
    assert_eq!(exit_code(&err), 1);
    assert_eq!(failed_line("bad signature"), "✗ verification failed: bad signature");
}

trait Sorted {
    fn pipe_sorted(self, names: &[&str]) -> Json;
}

impl Sorted for Json {
    /// The members of an object in the order of `names`.
    fn pipe_sorted(self, names: &[&str]) -> Json {
        match self {
            Json::Object(mut m) => {
                m.sort_by_key(|(k, _)| names.iter().position(|n| n == k));
                Json::Object(m)
            }
            other => other,
        }
    }
}

fn index() -> ClusterIndex {
    ClusterIndex {
        clusters: vec![
            Cluster {
                label: "pay".to_string(),
                size: 12,
                cohesion: "0.75".to_string(),
                centroid: "src/pay/mod.rs".to_string(),
                members: (0..12).map(|i| format!("f{i}.rs")).collect(),
            },
            Cluster {
                label: "ui".to_string(),
                size: 2,
                cohesion: "0.50".to_string(),
                centroid: "ui.rs".to_string(),
                members: sv(&["ui.rs", "css.rs"]),
            },
        ],
        total: 2,
        clustered_files: 14,
        isolated_files: 6,
    }
}

fn clusters_args(label: Option<&str>, min_size: u32) -> ClustersArgs {
    ClustersArgs { cluster: label.map(|s| s.to_string()), json: false, min_size }
}

#[test]
fn clusters_are_listed() {
    let all = clusters_report(&Some(index()), &clusters_args(None, 2), false);
    assert_eq!(all[1], "CO-CHANGE CLUSTERS (2 total, 14 of 20 files)");
    assert_eq!(all[3], "● pay (12 files, cohesion 0.75, centroid: mod)");
    assert!(all.contains(&"  (+2 more)".to_string()));
    assert!(!all.contains(&"  f10.rs".to_string()));
    let big = clusters_report(&Some(index()), &clusters_args(None, 3), false);
    assert!(!big.iter().any(|l| l.contains("● ui")));
    assert_eq!(
        clusters_report(&Some(index()), &clusters_args(None, 99), false),
        vec!["No clusters found with at least 99 members."]
    );
    assert_eq!(
        clusters_report(&None, &clusters_args(None, 2), false),
        vec!["No cluster data found. Run `mati init` first."]
    );
}

#[test]
fn a_cluster_is_found_by_its_label() {
    let one = clusters_report(&Some(index()), &clusters_args(Some("pay"), 2), false);
    assert_eq!(one.len(), 15);
    assert!(one.contains(&"  f11.rs".to_string()));
    assert_eq!(
        clusters_report(&Some(index()), &clusters_args(Some("x"), 2), false),
        vec!["No cluster with label 'x' found."]
    );
}

fn report(missing: usize) -> RepairReport {
    RepairReport {
        scanned_gotchas: 3,
        scanned_files: 4,
        missing_file_links: (0..missing)
            .map(|i| DriftEntry { file_path: format!("f{i}"), gotcha_key: "gotcha:x".to_string() })
            .collect(),
        stale_file_links: vec![],
        missing_edges: 2,
        stale_edges: 0,
        repaired_count: 0,
        verification_passed: true,
        dirty_marker_cleared: true,
    }
}

#[test]
fn drift_is_summed_up() {
    let r = report(6);
    assert!(r.has_drift());
    assert_eq!(r.total_drift(), 8);
    assert_eq!(
        drift_summary(&r, false),
        vec![
            "  Missing file links:  6",
            "    f0 → gotcha:x",
            "    f1 → gotcha:x",
            "    f2 → gotcha:x",
            "    f3 → gotcha:x",
            "    f4 → gotcha:x",
            "    ... and 1 more",
            "  Missing edges:       2",
            "",
            "  Total drift: 8 items"
        ]
    );
    assert_eq!(check_exit_code(&r), 1);
    let clean = RepairReport { missing_edges: 0, ..report(0) };
    assert_eq!(
        check_report(&clean, false),
        vec![
            "",
            "mati repair --check  scanned 3 gotchas, 4 files",
            "",
            "  No drift detected. Indexes are consistent.",
            ""
        ]
    );
    assert_eq!(check_exit_code(&clean), 0);
    assert_eq!(repair_report(&clean, false), vec!["Nothing to repair."]);
    let mended = RepairReport { repaired_count: 8, ..report(0) };
    assert_eq!(
        repair_report(&mended, false),
        vec![
            "",
            "Repaired 8 items.",
            "  Verification passed. Indexes are now consistent.",
            "  Dirty marker cleared.",
            ""
        ]
    );
}

#[test]
fn repair_needs_the_store_for_itself() {
    assert!(repair_refusal(Ping::Answered).unwrap().starts_with("mati repair requires direct"));
    assert!(repair_refusal(Ping::Unresponsive).is_some());
    assert!(repair_refusal(Ping::NotRunning).is_none());
    assert!(check_refusal(false).unwrap().starts_with("mati repair --check requires direct"));
    assert!(check_refusal(true).is_none());
    assert!(matches!(pre_repair(true, false), PreRepair::ShowDrift));
    assert!(matches!(pre_repair(false, true), PreRepair::Clear(_)));
    assert!(matches!(pre_repair(false, false), PreRepair::Stop(_)));
    assert_eq!(cluster_value(2, 14), "2 clusters, 14 clustered files");
    assert_eq!(
        phase_lines(3, Some(2), 0),
        vec!["  Blast radius recomputed for 3 files.", "  Clusters recomputed: 2 found."]
    );
    assert_eq!(phase_lines(3, None, 1).len(), 3);
}

fn gotcha(confirmed: bool, priority: Priority, tier: StalenessTier) -> DiffGotcha {
    DiffGotcha { active: true, confirmed, priority, tier }
}

#[test]
fn a_diff_is_rated_by_confirmed_gotchas() {
    assert_eq!(rate_file("a.rs", &None).severity, Severity::Unknown);
    let known = KnownFile {
        tier: StalenessTier::Stale,
        gotchas: vec![gotcha(false, Priority::Critical, StalenessTier::Fresh)],
    };
    let r = rate_file("a.rs", &Some(known));
    assert_eq!((r.gotcha_count, r.stale), (0, Some(StalenessTier::Stale)));
    let known = KnownFile {
        tier: StalenessTier::Fresh,
        gotchas: vec![
            gotcha(true, Priority::Critical, StalenessTier::Stale),
            gotcha(true, Priority::Low, StalenessTier::Liability),
        ],
    };
    let c = rate_file("a.rs", &Some(known));
    assert_eq!(c.severity, Severity::Critical);
    assert_eq!((c.gotcha_count, c.stale), (2, Some(StalenessTier::Liability)));
    let rows = vec![c, r];
    let (_, _, _) = tally(&rows);
    assert!(diff_report(&rows, false).join("\n").contains("a.rs"));
    assert_eq!(changed_files("a.rs\n\nb.rs\n"), vec!["a.rs", "b.rs"]);
    assert_eq!(diff_range(&DiffArgs { range: Some("x..y".to_string()) }), "x..y");
    assert!(!diff_range(&DiffArgs { range: None }).is_empty());
}

fn brief() -> Briefing {
    Briefing {
        path: "src/x.rs".to_string(),
        purpose: "does x".to_string(),
        is_hotspot: true,
        confidence: "0.50".to_string(),
        quality: QualityTier::Good,
        source: RecordSource::StaticAnalysis,
        blast: None,
        tier: StalenessTier::Fresh,
        gotchas: vec![ExplainGotcha {
            value: "never unwrap".to_string(),
            priority: Priority::Critical,
            confirmed: Some(true),
            source: RecordSource::DeveloperManual,
            confidence: "0.80".to_string(),
            tier: StalenessTier::Fresh,
        }],
        has_decisions: false,
        decisions: vec![],
        cochanges: vec![KeyValue { key: "gotcha:cochange:src/x.rs|y.rs".to_string(), value: "together in 9/10 commits (90%).".to_string() }],
        revert: None,
        ownership: None,
        last_author: Some("ada".to_string()),
        change_frequency: 7,
        todos: vec![],
    }
}

#[test]
fn a_file_is_explained() {
    let text = briefing(&brief(), false).join("\n");
    for part in ["x.rs", "does x", "never unwrap", "y.rs", "ada"] {
        assert!(text.contains(part), "{part} in\n{text}");
    }
    assert!(!format_gotcha_provenance(&brief().gotchas[0], false).is_empty());
    assert_eq!(strip_dot_slash("./src/x.rs"), "src/x.rs");
    assert_eq!(cochange_key_prefix("a.rs"), "gotcha:cochange:a.rs|");
    assert!(share_of("no share").is_none());
    assert!(no_record("src/x.rs").contains("src/x.rs"));
}

#[test]
fn gaps_of_enough_risk_are_kept_in_order() {
    let gap = |k: &str, r: f32| Gap {
        key: k.to_string(),
        risk: score(r),
        description: "d".to_string(),
        action_hint: "h".to_string(),
    };
    let v = vec![gap("file:a", 0.2), gap("file:b", 0.9), gap("file:c", 0.5)];
    let args = GapsArgs { min_risk: 0.3f32.to_bits(), limit: 10 };
    assert_eq!(select_gaps(&v, &args), vec![1, 2]);
    assert_eq!(select_gaps(&v, &GapsArgs { min_risk: 0, limit: 1 }), vec![0]);
    assert_eq!(
        compute_fan_in(&sv(&["x", "y", "x"])),
        vec![
            FanIn { key: "x".to_string(), count: 2 },
            FanIn { key: "y".to_string(), count: 1 }
        ]
    );
    assert!(cache_is_current(1, 1) && !cache_is_current(1, 2));
    assert_eq!(without_namespace("file:src/x.rs"), "src/x.rs");
    let text = display_gaps(&v, None, false).join("\n");
    assert!(text.contains("CRITICAL") && text.contains("→ Action: h"));
}

#[test]
fn an_evaluation_is_told_by_layer() {
    let layer = |name: &str, gaps: &[&str]| LayerReport {
        layer: name.to_string(),
        cases: 10,
        recall: "0.900".to_string(),
        fp_rate: "0.000".to_string(),
        precision: "1.000".to_string(),
        tp: 9,
        fn_: 1,
        tn: 5,
        fp: 0,
        known_gaps: sv(gaps),
    };
    let lines = render_human(&EvalReport {
        detection: layer("detection", &["g1", "g2"]),
        decision: layer("decision", &[]),
    });
    assert_eq!(
        &lines[..8],
        &[
            "",
            "mati eval — enforcement regression corpus",
            "",
            "detection layer",
            "  cases      10",
            "  recall     0.900    fp_rate 0.000    precision 1.000",
            "  matrix     TP=9 FN=1 TN=5 FP=0",
            "  known gaps (2): g1, g2"
        ]
    );
    assert_eq!(lines.len(), 15);
    assert_eq!(mati::eval::exit_code(&Ok(())), 0);
    assert_eq!(mati::eval::exit_code(&Err("drift".to_string())), 1);
}

#[test]
fn enrichment_is_run_from_the_assistant() {
    let host = Assistant {
        name: "A".to_string(),
        product: "A Pro".to_string(),
        dir: ".a".to_string(),
        memory: "A.md".to_string(),
    };
    let lines = guide(&host, false);
    assert_eq!(lines.len(), 17);
    assert!(lines.contains(&"  In A Pro, type:".to_string()));
}

#[test]
fn hook_commands_ask_the_daemon() {
    let (name, args) = hook_request(HookCommand::LogMiss { key: "file:a".to_string() });
    assert_eq!(name, "log_miss");
    assert_eq!(args, json(r#"{"key":"file:a"}"#));
    let (name, args) = hook_request(HookCommand::SessionCheckConsultedRecent {
        key: "file:a".to_string(),
        ttl_secs: 900,
    });
    assert_eq!(name, "session_check_consulted_recent");
    assert_eq!(args, json(r#"{"key":"file:a","ttl_secs":900}"#));
    let (name, args) = hook_request(HookCommand::DocCapture {
        path: "a.rs".to_string(),
        content: "//! x".to_string(),
    });
    assert_eq!(name, "doc_capture");
    assert_eq!(args.text_of("content").as_deref(), Some("//! x"));
    assert_eq!(hook_request(HookCommand::SessionFlush).1, json("{}"));
    assert_eq!(edited_path("/repo/src/x.rs", "/repo"), "src/x.rs");
    assert_eq!(edited_path("/other/x.rs", "/repo"), "/other/x.rs");
}

#[test]
fn hook_commands_fail_open() {
    for down in [DaemonResult::NotRunning, DaemonResult::StaleSocket, DaemonResult::Unresponsive] {
        assert!(fetched(&down).is_none());
        assert!(!consulted(&down));
    }
    let yes = DaemonResult::Answer(json(r#"{"ok":true,"data":true}"#));
    assert!(consulted(&yes));
    let record = DaemonResult::Answer(json(r#"{"ok":true,"data":{"value":"x"}}"#));
    assert_eq!(fetched(&record), Some(&json(r#"{"value":"x"}"#)));
    assert!(!consulted(&record));
    assert!(fetched(&DaemonResult::Answer(json(r#"{"ok":true,"data":null}"#))).is_none());
}

#[test]
fn gotchas_that_name_a_file_are_found() {
    let link = |active: bool, files: &[&str]| GotchaLink {
        active,
        affected: Some(files.iter().map(|f| f.to_string()).collect()),
    };
    let all = vec![
        link(true, &["src/a.rs"]),
        link(false, &["src/b.rs"]),
        link(true, &["src/c.rs", "src/b.rs"]),
        GotchaLink { active: true, affected: None },
    ];
    assert_eq!(naming_gotchas(&all, "src/b.rs"), vec![2]);
    assert_eq!(naming_gotchas(&all, "src/d.rs"), Vec::<usize>::new());
    assert_eq!(mati::explain::shown(0, &all, "src/b.rs"), Some(vec![2]));
    assert_eq!(mati::explain::shown(0, &all, "src/d.rs"), Some(vec![]));
    assert_eq!(mati::explain::shown(1, &all, "src/b.rs"), None, "the linked ones are shown");
}
