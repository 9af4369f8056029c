//! Showing and listing records, export and import.
use mati::listing::{
    cached_rows, decision_row, export_format, export_section, export_start, file_row, footer,
    gotcha_row, import_kind, ls_cache_is_valid, ls_kind, newest_first, note_row, shown_count,
    stream_header, stream_row, ExportFormat, ExportRecord, FileEntry, FileInfo, ImportKind,
    ListedRecord, LsFileRow, LsKind,
};
use mati::record::{
    category_color, hook_tier_label, priority_color, priority_short, quality_tier_label,
    score_color, signal_label, source_label, source_short, staleness_color, staleness_tier_label,
    tier_short_label, Category, Priority, QualitySignal, QualityTier, RecordLifecycle,
    RecordSource, Score, StalenessTier,
};
use mati::show::{
    not_found, print_record, show_target, BlastRadius, BlastTier, ShowTarget, ShownRecord,
};

fn score(v: f32) -> Score {
    Score { bits: v.to_bits(), shown: format!("{v:.2}") }
}

fn shown() -> ShownRecord {
    ShownRecord {
        key: "gotcha:x".to_string(),
        value: "never unwrap".to_string(),
        category: Category::Gotcha,
        lifecycle: RecordLifecycle::Active,
        confidence: score(0.8),
        base_confidence: "0.80".to_string(),
        confirmations: 2,
        contributors: 1,
        challenges: 0,
        last_challenged: None,
        quality: score(0.6),
        quality_tier: QualityTier::Good,
        quality_signals: vec![QualitySignal::HasCausality],
        staleness: score(0.1),
        staleness_tier: StalenessTier::Fresh,
        last_record_sha: "0123456789abcdef".to_string(),
        blast_radius: Some(BlastRadius {
            direct: 3,
            transitive: 9,
            score: "0.50".to_string(),
            tier: BlastTier::High,
            tier_label: "high".to_string(),
        }),
        priority: Priority::High,
        source: RecordSource::DeveloperManual,
        created_at: 19737 * 86400,
        updated_at: 19737 * 86400,
        last_accessed: 0,
        access_count: 4,
        ref_url: Some("http://x".to_string()),
        tags: vec!["crown-jewel".to_string()],
        gap_score: None,
        device_id: "d".to_string(),
        logical_clock: 7,
        wall_clock: 19737 * 86400,
    }
}

#[test]
fn a_record_is_shown_in_full() {
    let text = print_record(&shown(), false).join("\n");
    for part in ["gotcha:x", "never unwrap", "2024-01-15 00:00:00 UTC", "crown-jewel", "http://x"] {
        assert!(text.contains(part), "{part} in\n{text}");
    }
    assert!(!text.contains('\x1b'));
    assert!(print_record(&shown(), true).join("\n").contains('\x1b'));
}

#[test]
fn a_category_is_listed_instead() {
    assert_eq!(show_target("gotcha:x"), ShowTarget::Record);
    assert_eq!(show_target("gotchas"), ShowTarget::Record);
    assert_eq!(show_target("gotcha:"), ShowTarget::ListGotchas);
    assert_eq!(show_target("files::"), ShowTarget::ListFiles);
    assert_eq!(show_target("decision:"), ShowTarget::ListDecisions);
    assert_eq!(show_target("x:"), ShowTarget::ListAll);
    assert!(not_found("gotcha:x").contains("gotcha:x"));
}

#[test]
fn categories_are_named() {
    assert_eq!(ls_kind(None), Ok(LsKind::All));
    assert_eq!(ls_kind(Some("files")), Ok(LsKind::Files));
    assert_eq!(ls_kind(Some("dev_note")), Ok(LsKind::Notes));
    assert_eq!(
        ls_kind(Some("x")).unwrap_err(),
        "unknown category 'x'. Valid: files, gotchas, decisions, notes"
    );
}

fn row(path: &str, hot: bool) -> LsFileRow {
    LsFileRow {
        path: path.to_string(),
        purpose: "p".to_string(),
        entry_count: 1,
        confidence: score(0.5),
        quality: score(0.4),
        is_hotspot: hot,
    }
}

#[test]
fn file_rows_fall_back_to_a_note() {
    let e = FileEntry {
        key: "file:src/x.rs".to_string(),
        value: String::new(),
        info: Some(FileInfo { purpose: String::new(), entry_points: 2, is_hotspot: true }),
        confidence: score(0.5),
        quality: score(0.4),
    };
    let r = file_row(&e);
    assert_eq!(r.path, "src/x.rs");
    assert_eq!(r.purpose, "(pending enrichment)");
    assert_eq!((r.entry_count, r.is_hotspot), (2, true));
    assert_eq!((r.confidence, r.quality), (score(0.5), score(0.4)));
    let plain = file_row(&FileEntry { info: None, value: "v".to_string(), ..e });
    assert_eq!((plain.purpose.as_str(), plain.entry_count), ("v", 0));
}

#[test]
fn hotspots_come_first_in_the_cache() {
    let rows = vec![row("b", false), row("c", true), row("a", false)];
    assert_eq!(cached_rows(&rows, 0), vec![1, 2, 0]);
    assert_eq!(cached_rows(&rows, 2), vec![1, 2]);
    assert_eq!(shown_count(10, 0), 10);
    assert_eq!(shown_count(10, 3), 3);
    assert!(ls_cache_is_valid(1, 5, 1, 5));
    assert!(!ls_cache_is_valid(1, 5, 2, 5));
    assert!(!ls_cache_is_valid(1, 5, 1, 6));
    assert!(stream_row(&rows[1]).contains('*'));
    assert!(!stream_header().is_empty());
    assert_eq!(footer(10, 10, 0, true), "  10 file records");
    assert_eq!(
        footer(3, 10, 3, true),
        "  showing 3 of 10 file records (hotspots first on next call) — use -n 0 for all"
    );
    assert_eq!(
        footer(3, 10, 3, false),
        "  showing 3 of 10 file records (hotspots first) — use -n 0 for all"
    );
}

fn listed(key: &str, updated_at: u64) -> ListedRecord {
    ListedRecord {
        key: key.to_string(),
        value: "value".to_string(),
        gotcha: Some(("rule".to_string(), true)),
        priority: Priority::Critical,
        confidence: score(0.5),
        quality: score(0.4),
        updated_at,
    }
}

#[test]
fn records_are_listed_in_cells() {
    let g = gotcha_row(&listed("gotcha:x", 0));
    assert_eq!(g[0], "x");
    assert_eq!(g[1], "rule");
    assert_eq!(g.last().unwrap(), "Y");
    let none = ListedRecord { gotcha: None, ..listed("gotcha:x", 0) };
    assert_eq!(gotcha_row(&none).last().unwrap(), "-");
    assert_eq!(decision_row(&listed("decision:x", 19737 * 86400)).last().unwrap(), "2024-01-15");
    assert_eq!(note_row(&listed("dev_note:x", 0))[0], "x");
    let v = vec![listed("a", 1), listed("b", 3), listed("c", 3), listed("d", 2)];
    assert_eq!(newest_first(&v), vec![1, 2, 3, 0]);
}

#[test]
fn exports_and_imports_are_told_apart() {
    assert_eq!(export_format("json"), Ok(ExportFormat::Json));
    assert!(export_format("xml").is_err());
    assert_eq!(import_kind("json", ""), ImportKind::Json);
    assert_eq!(import_kind("md", "[1]"), ImportKind::ClaudeMd);
    assert_eq!(import_kind("txt", "  [1]"), ImportKind::Json);
    assert_eq!(import_kind("", " {}"), ImportKind::Json);
    assert_eq!(import_kind("txt", "# x"), ImportKind::ClaudeMd);
    let r = ExportRecord {
        key: "gotcha:x".to_string(),
        value: "v".to_string(),
        priority: Priority::High,
        source: RecordSource::Import,
        confidence: "0.50".to_string(),
        quality: "0.40".to_string(),
    };
    let text = export_start() + &export_section("Gotchas", &vec![r]);
    assert!(text.contains("Gotchas") && text.contains("gotcha:x") && text.contains("v"));
}

#[test]
fn labels_are_short() {
    assert_eq!(priority_short(&Priority::Critical), "Crit");
    assert_eq!(hook_tier_label(&score(0.6)), hook_tier_label(&score(0.9)));
    assert_ne!(hook_tier_label(&score(0.59)), hook_tier_label(&score(0.6)));
    assert_ne!(score_color(&score(0.1)), score_color(&score(0.9)));
    for t in [StalenessTier::Fresh, StalenessTier::Aging, StalenessTier::Tombstone] {
        assert!(!staleness_tier_label(&t).is_empty());
        assert!(!tier_short_label(&t).is_empty());
        assert!(staleness_color(&t).starts_with('\x1b'));
    }
    assert!(!quality_tier_label(&QualityTier::Poor).is_empty());
    assert!(!signal_label(&QualitySignal::TooShort).is_empty());
    assert!(!source_label(&RecordSource::Import).is_empty());
    assert!(!source_short(&RecordSource::Import).is_empty());
    assert!(category_color(&Category::File).starts_with('\x1b'));
    assert!(priority_color(&Priority::Low).starts_with('\x1b'));
}
