//! Stale records: signals, hints, selection and the report.
use mati::record::{
    impact_label, signal_short_label, Category, Score, StalenessSignal, StalenessTier,
};
use mati::stale::{
    action_hint, cache_is_valid, select_stale, stale_report, stale_row, summarize_signals,
    StaleRecord,
};

fn score(v: f32) -> Score {
    Score { bits: v.to_bits(), shown: format!("{v:.2}") }
}

fn make_record(key: &str, category: Category, tier: StalenessTier) -> StaleRecord {
    StaleRecord {
        key: key.to_string(),
        category,
        tier,
        staleness: score(0.5),
        signals: vec![],
        updated_at: 0,
    }
}

fn hint(r: &StaleRecord) -> String {
    action_hint(r.category, r.tier, &r.key)
}

#[test]
fn summarize_signals_empty() {
    assert_eq!(summarize_signals(&vec![], 2), "");
}

#[test]
fn summarize_signals_one_signal() {
    let signals = vec![StalenessSignal::FileDeleted];
    assert_eq!(summarize_signals(&signals, 2), "file deleted");
}

#[test]
fn summarize_signals_truncated() {
    let signals = vec![
        StalenessSignal::EntryPointsChanged(2),
        StalenessSignal::ImportsChanged(1),
        StalenessSignal::FileDeleted,
        StalenessSignal::TodosChanged,
    ];
    let result = summarize_signals(&signals, 2);
    assert!(result.contains("2 EP changed"));
    assert!(result.contains("imports"));
    assert!(result.contains("+2 more"));
}

#[test]
fn impact_label_for_each_tier() {
    assert_eq!(impact_label(&StalenessTier::Fresh), "");
    assert_eq!(impact_label(&StalenessTier::Aging), "");
    assert_eq!(impact_label(&StalenessTier::Stale), "warn in bootstrap");
    assert_eq!(impact_label(&StalenessTier::Liability), "blocks injection");
    assert_eq!(impact_label(&StalenessTier::Tombstone), "excluded entirely");
}

#[test]
fn action_hint_for_gotcha() {
    let r = make_record("gotcha:inference-async", Category::Gotcha, StalenessTier::Stale);
    assert_eq!(hint(&r), "mati show gotcha:inference-async");
}

#[test]
fn action_hint_for_file() {
    let r = make_record("file:src/main.rs", Category::File, StalenessTier::Stale);
    assert_eq!(hint(&r), "mati reparse src/main.rs");
}

#[test]
fn action_hint_for_file_tombstone() {
    let r = make_record("file:src/old.rs", Category::File, StalenessTier::Tombstone);
    let hint = hint(&r);
    assert!(hint.contains("file may be deleted"));
    assert!(hint.contains("src/old.rs"));
}

#[test]
fn action_hint_for_decision() {
    let r = make_record("decision:storage-engine", Category::Decision, StalenessTier::Liability);
    assert_eq!(hint(&r), "mati show decision:storage-engine");
}

#[test]
fn stale_command_filters_only_stale_tiers() {
    let records = vec![
        make_record("file:fresh.rs", Category::File, StalenessTier::Fresh),
        make_record("file:aging.rs", Category::File, StalenessTier::Aging),
        make_record("file:stale.rs", Category::File, StalenessTier::Stale),
        make_record("file:liability.rs", Category::File, StalenessTier::Liability),
        make_record("file:tombstone.rs", Category::File, StalenessTier::Tombstone),
    ];

    let stale: Vec<&StaleRecord> =
        select_stale(&records, 100).into_iter().map(|i| &records[i]).collect();

    assert_eq!(stale.len(), 3, "only Stale, Liability, Tombstone should pass filter");
    assert!(stale
        .iter()
        .all(|r| !matches!(r.tier, StalenessTier::Fresh | StalenessTier::Aging)));
}

#[test]
fn stale_command_sorts_descending() {
    let mut r1 = make_record("file:a.rs", Category::File, StalenessTier::Stale);
    r1.staleness = score(0.50);
    let mut r2 = make_record("file:b.rs", Category::File, StalenessTier::Liability);
    r2.staleness = score(0.70);
    let mut r3 = make_record("file:c.rs", Category::File, StalenessTier::Tombstone);
    r3.staleness = score(0.95);

    let all = vec![r1, r2, r3];
    let stale: Vec<&StaleRecord> =
        select_stale(&all, 100).into_iter().map(|i| &all[i]).collect();

    assert_eq!(stale[0].key, "file:c.rs", "highest staleness should be first");
    assert_eq!(stale[1].key, "file:b.rs", "second highest should be second");
    assert_eq!(stale[2].key, "file:a.rs", "lowest staleness should be last");
}

#[test]
fn stale_command_respects_limit() {
    let stale: Vec<StaleRecord> = (0..10)
        .map(|i| {
            let mut r =
                make_record(&format!("file:mod_{i}.rs"), Category::File, StalenessTier::Stale);
            r.staleness = score(0.5 + (i as f32) * 0.04);
            r
        })
        .collect();

    let limit = 3;
    let kept = select_stale(&stale, limit);

    assert_eq!(kept.len(), limit, "truncate should cap results at {limit}");
    assert_eq!(kept, vec![9, 8, 7]);
}

#[test]
fn equally_stale_records_keep_their_order() {
    let all = vec![
        make_record("file:b.rs", Category::File, StalenessTier::Stale),
        make_record("file:a.rs", Category::File, StalenessTier::Stale),
    ];
    assert_eq!(select_stale(&all, 10), vec![0, 1]);
}

#[test]
fn signal_short_label_all_variants() {
    let variants: Vec<StalenessSignal> = vec![
        StalenessSignal::NotAccessedDays(30),
        StalenessSignal::EntryPointsChanged(2),
        StalenessSignal::ImportsChanged(5),
        StalenessSignal::FileDeleted,
        StalenessSignal::FileRenamed { new_path: "src/new.rs".to_string() },
        StalenessSignal::LinkedFileChanged { path: "src/bar.rs".to_string() },
        StalenessSignal::TodosChanged,
        StalenessSignal::UnsafeCountChanged(3),
        StalenessSignal::UnwrapCountChanged(-2),
        StalenessSignal::DependencyBumped {
            dep: "tokio".to_string(),
            old_ver: "1.0".to_string(),
            new_ver: "2.0".to_string(),
        },
        StalenessSignal::LinesChangedPct(format!("{:.0}", 0.75 * 100.0)),
        StalenessSignal::CascadeFromDecision("decision:arch".to_string()),
    ];

    for variant in &variants {
        let label = signal_short_label(variant);
        assert!(
            !label.is_empty(),
            "signal_short_label for {:?} should produce non-empty string",
            variant
        );
    }
}

#[test]
fn impact_label_all_tiers() {
    let all_tiers = [
        StalenessTier::Fresh,
        StalenessTier::Aging,
        StalenessTier::Stale,
        StalenessTier::Liability,
        StalenessTier::Tombstone,
    ];
    for tier in &all_tiers {
        let label = impact_label(tier);
        match tier {
            StalenessTier::Fresh | StalenessTier::Aging => {
                assert_eq!(label, "", "Fresh/Aging should have empty impact label");
            }
            _ => {
                assert!(!label.is_empty(), "{:?} should have a non-empty impact label", tier);
            }
        }
    }
}

#[test]
fn action_hint_for_each_category() {
    let categories_and_keys = vec![
        (Category::Gotcha, "gotcha:test"),
        (Category::File, "file:src/main.rs"),
        (Category::Decision, "decision:arch"),
        (Category::DevNote, "dev_note:tip"),
        (Category::Dependency, "dep:tokio"),
    ];

    for (cat, key) in &categories_and_keys {
        let r = make_record(key, *cat, StalenessTier::Stale);
        let hint = hint(&r);
        assert!(
            !hint.is_empty(),
            "action_hint for category {:?} should produce non-empty hint",
            cat
        );
    }

    let r = make_record("file:src/gone.rs", Category::File, StalenessTier::Tombstone);
    let hint = hint(&r);
    assert!(
        hint.contains("deleted"),
        "File Tombstone action hint should mention deletion, got: {hint}"
    );
}

#[test]
fn a_cache_counts_only_at_its_own_sequence() {
    assert!(cache_is_valid(3, 3));
    assert!(!cache_is_valid(3, 4));
}

#[test]
fn the_stale_report_names_each_record() {
    let mut r = make_record("gotcha:x", Category::Gotcha, StalenessTier::Liability);
    r.signals = vec![StalenessSignal::FileDeleted];
    let row = stale_row(&r, 0);
    assert!(row.iter().any(|c| c == "file deleted"));
    let lines = stale_report(&vec![r], 0, true, false).join("\n");
    assert!(lines.contains("gotcha:x"));
    assert!(lines.contains("mati show gotcha:x"));
}

#[test]
fn nothing_stale_is_told_in_one_line() {
    assert_eq!(stale_report(&vec![], 0, true, true), vec!["No stale records."]);
    assert_eq!(stale_report(&vec![], 0, false, false), vec!["No stale records."]);
}
