//! Dates, spans, truncation and the history commands.
use mati::civil::{
    days_to_ymd, duration_label, format_date, format_ts, format_ts_short, parse_since_duration,
    SinceError,
};
use mati::history::{
    change_row, changes_header, event_header, event_row, event_row_at, iso_utc, no_changes,
    no_events, no_versions, plan_history, render_timeline, select_events, tail_start,
    truncate_str, window_start, EnforcementEvent, EventClass, HistoryArgs, HistoryEntry,
    HistoryPlan, VersionRecord, Window, YEAR_10000_MS,
};
use mati::record::{source_short_label, truncate, RecordSource};


#[test]
fn format_ts_zero_is_em_dash() {
    assert_eq!(format_ts(0), "\u{2014}");
}

#[test]
fn format_ts_epoch_plus_one_second() {
    assert_eq!(format_ts(1), "1970-01-01 00:00:01 UTC");
}

#[test]
fn format_ts_exactly_one_day() {
    assert_eq!(format_ts(86400), "1970-01-02 00:00:00 UTC");
}

#[test]
fn format_ts_known_date_2024_01_15() {
    assert_eq!(format_ts(19737 * 86400), "2024-01-15 00:00:00 UTC");
}

#[test]
fn format_ts_hms_components() {
    assert_eq!(format_ts(3723), "1970-01-01 01:02:03 UTC");
}


#[test]
fn days_to_ymd_unix_epoch() {
    assert_eq!(days_to_ymd(0), (1970, 1, 1));
}

#[test]
fn days_to_ymd_2024_01_15() {
    assert_eq!(days_to_ymd(19737), (2024, 1, 15));
}

#[test]
fn days_to_ymd_leap_day_2024_02_29() {
    assert_eq!(days_to_ymd(19782), (2024, 2, 29));
}

#[test]
fn days_to_ymd_post_feb_non_leap_2023_03_01() {
    assert_eq!(days_to_ymd(19417), (2023, 3, 1));
}

#[test]
fn days_to_ymd_year_boundary_dec_31() {
    assert_eq!(days_to_ymd(19722), (2023, 12, 31));
}

#[test]
fn days_to_ymd_new_year_2024_01_01() {
    assert_eq!(days_to_ymd(19723), (2024, 1, 1));
}

#[test]
fn days_to_ymd_consistent_with_format_ts() {
    let ts = 19737_u64 * 86400;
    let (y, mo, d) = days_to_ymd(ts / 86400);
    assert_eq!((y, mo, d), (2024, 1, 15));
    assert!(format_ts(ts).starts_with("2024-01-15"));
}


#[test]
fn truncate_short_string() {
    assert_eq!(truncate("hello", 10), "hello");
}

#[test]
fn truncate_long_string() {
    assert_eq!(truncate("hello world this is long", 10), "hello w...");
}

#[test]
fn truncate_multiline() {
    assert_eq!(truncate("first line\nsecond line", 40), "first line");
}

#[test]
fn format_date_zero() {
    assert_eq!(format_date(0), "\u{2014}");
}

#[test]
fn format_date_known() {
    assert_eq!(format_date(19737 * 86400), "2024-01-15");
}


#[test]
fn parse_since_hours() {
    assert_eq!(parse_since_duration("2h").unwrap(), 7200);
}

#[test]
fn parse_since_days() {
    assert_eq!(parse_since_duration("7d").unwrap(), 604800);
}

#[test]
fn parse_since_weeks() {
    assert_eq!(parse_since_duration("2w").unwrap(), 14 * 86400);
}

#[test]
fn parse_since_months() {
    assert_eq!(parse_since_duration("3m").unwrap(), 90 * 86400);
}

#[test]
fn parse_since_years() {
    assert_eq!(parse_since_duration("1y").unwrap(), 365 * 86400);
}

#[test]
fn parse_since_invalid_suffix() {
    assert!(parse_since_duration("7x").is_err());
}

#[test]
fn parse_since_no_number() {
    assert!(parse_since_duration("d").is_err());
}

#[test]
fn parse_since_zero_value() {
    assert!(parse_since_duration("0d").is_err());
}

#[test]
fn parse_since_empty() {
    assert!(parse_since_duration("").is_err());
}


#[test]
fn format_ts_short_zero_is_em_dash() {
    assert_eq!(format_ts_short(0), "\u{2014}");
}

#[test]
fn format_ts_short_known_date() {
    // 2024-01-15 01:02
    let ts = 19737 * 86400 + 3720;
    assert_eq!(format_ts_short(ts), "2024-01-15 01:02");
}


#[test]
fn source_short_label_values() {
    assert_eq!(source_short_label(&RecordSource::StaticAnalysis), "L0");
    assert_eq!(source_short_label(&RecordSource::ClaudeEnrich), "L1");
    assert_eq!(source_short_label(&RecordSource::SessionHook), "L2");
    assert_eq!(source_short_label(&RecordSource::DeveloperManual), "manual");
    assert_eq!(source_short_label(&RecordSource::Import), "import");
}


#[test]
fn duration_label_hours() {
    assert_eq!(duration_label(3600), "1 hour");
    assert_eq!(duration_label(7200), "2 hours");
}

#[test]
fn duration_label_days() {
    assert_eq!(duration_label(86400), "1 day");
    assert_eq!(duration_label(3 * 86400), "3 days");
}

#[test]
fn duration_label_weeks() {
    assert_eq!(duration_label(7 * 86400), "1 week");
    assert_eq!(duration_label(14 * 86400), "2 weeks");
}

#[test]
fn duration_label_months() {
    assert_eq!(duration_label(30 * 86400), "1 month");
    assert_eq!(duration_label(60 * 86400), "2 months");
}

#[test]
fn duration_label_years() {
    assert_eq!(duration_label(365 * 86400), "1 year");
    assert_eq!(duration_label(730 * 86400), "2 years");
}


#[test]
fn truncate_multibyte_chars() {
    // Each emoji is 4 bytes. "abcde" is 9 chars total.
    let s = "ab\u{1F600}cd\u{1F600}ef";
    // max=6 means we need 3 chars + "..."
    let result = truncate(s, 6);
    assert!(result.ends_with("..."));
    assert_eq!(result.chars().count(), 6); // 3 chars + 3 dots
}

#[test]
fn truncate_exact_boundary() {
    assert_eq!(truncate("hello", 5), "hello");
}

#[test]
fn truncate_one_over() {
    assert_eq!(truncate("hello!", 5), "he...");
}

#[test]
fn truncate_max_less_than_four() {
    // max < 4: just take what fits, no "..."
    assert_eq!(truncate("hello", 3), "hel");
}

#[test]
fn truncate_empty_string() {
    assert_eq!(truncate("", 10), "");
}

#[test]
fn truncate_all_multibyte() {
    // 4 emoji = 4 chars, each 4 bytes
    let s = "\u{1F600}\u{1F601}\u{1F602}\u{1F603}";
    let result = truncate(s, 4);
    assert_eq!(result, s); // exactly fits
}

#[test]
fn truncate_all_multibyte_over() {
    let s = "\u{1F600}\u{1F601}\u{1F602}\u{1F603}\u{1F604}";
    let result = truncate(s, 4);
    // 1 char + "..." = 4 chars
    assert_eq!(result, "\u{1F600}...");
}

#[test]
fn enforcement_limit_returns_tail_not_head() {
    let total = 1268usize;
    let limit = 10usize;

    let skip = tail_start(total, limit);
    let kept_indices: Vec<usize> = (0..total).skip(skip).collect();

    assert_eq!(kept_indices.len(), 10, "exactly `limit` events kept");
    assert_eq!(kept_indices.first(), Some(&1258));
    assert_eq!(kept_indices.last(), Some(&1267));
    assert!(!kept_indices.contains(&0));
}

#[test]
fn enforcement_limit_smaller_than_total_returns_all() {
    let total = 5usize;
    let limit = 100usize;
    let skip = tail_start(total, limit);
    let kept: Vec<usize> = (0..total).skip(skip).collect();
    assert_eq!(kept, vec![0, 1, 2, 3, 4]);
}

#[test]
fn enforcement_limit_zero_returns_empty() {
    let total = 50usize;
    let limit = 0usize;
    let skip = tail_start(total, limit);
    let kept: Vec<usize> = (0..total).skip(skip).collect();
    assert!(kept.is_empty(), "limit=0 returns empty");
}

fn event(seq_no: u64, at: u64, kind: &str, subject: &str) -> EnforcementEvent {
    EnforcementEvent {
        seq_no,
        recorded_at_ms: at,
        class: EventClass::Deny,
        type_label: kind.to_string(),
        subject_key: subject.to_string(),
        reason_code: "gotcha".to_string(),
    }
}

#[test]
fn events_are_selected_from_the_end() {
    let events = vec![
        event(1, 10, "deny", "file:a.rs"),
        event(2, 20, "allow_receipt", "file:b.rs"),
        event(3, 30, "deny", "file:b.rs"),
        event(4, 40, "deny", "file:b.rs"),
    ];
    assert_eq!(select_events(&events, 0, None, None, 2), vec![2, 3]);
    assert_eq!(select_events(&events, 20, None, None, 50), vec![1, 2, 3]);
    assert_eq!(select_events(&events, 0, Some("deny"), Some("b.rs"), 50), vec![2, 3]);
    assert_eq!(select_events(&events, 0, Some("receipt"), None, 50), vec![1]);
    assert!(select_events(&events, 41, None, None, 50).is_empty());
}

#[test]
fn event_times_come_from_chrono() {
    assert_eq!(iso_utc(1_705_282_923_000).as_deref(), Some("2024-01-15T01:42:03Z"));
    assert_eq!(iso_utc(0).as_deref(), Some("1970-01-01T00:00:00Z"));
    assert!(iso_utc(YEAR_10000_MS - 1).is_some());
}

#[test]
fn event_rows_have_columns() {
    let e = event(7, 1_705_282_923_000, "deny", "file:src/main.rs");
    assert_eq!(
        event_row(&e, false),
        "     7  2024-01-15 01:42:03  deny              file:src/main.rs                gotcha"
    );
    assert_eq!(
        event_row_at(&e, None, false),
        "     7  ?  deny              file:src/main.rs                gotcha"
    );
    assert!(event_row(&e, true).contains("\x1b[31mdeny            \x1b[0m"));
    assert_eq!(event_header().len(), 2);
    assert_eq!(event_header()[1], "-".repeat(90));
    assert_eq!(truncate_str("abc", 5), "abc  ");
    assert_eq!(truncate_str("abcdefgh", 6), "abc...");
    assert_eq!(no_events(None), "No enforcement events.");
    assert_eq!(no_events(Some("7d")), "No enforcement events in the last 7d.");
}

fn history_args(key: Option<&str>, since: Option<&str>, limit: usize) -> HistoryArgs {
    HistoryArgs {
        key: key.map(|s| s.to_string()),
        since: since.map(|s| s.to_string()),
        limit,
        enforcement: false,
        event_type: None,
        file: None,
    }
}

#[test]
fn history_arguments_are_planned() {
    let now = 1_000_000_000_000u64;
    assert_eq!(
        plan_history(&history_args(Some("gotcha:x"), None, 20), now),
        HistoryPlan::Versions { key: "gotcha:x".to_string(), window: None }
    );
    let week = Window { secs: 604_800, start: 1_000_000_000 - 604_800 };
    assert_eq!(
        plan_history(&history_args(Some("gotcha:x"), Some("7d"), 20), now),
        HistoryPlan::Versions { key: "gotcha:x".to_string(), window: Some(week) }
    );
    assert_eq!(
        plan_history(&history_args(None, Some("1w"), 20), now),
        HistoryPlan::Changes(week)
    );
    let mut events = history_args(None, Some("1h"), 20);
    events.enforcement = true;
    assert_eq!(
        plan_history(&events, now),
        HistoryPlan::Events { since_ms: now - 3_600_000 }
    );
    events.since = None;
    assert_eq!(plan_history(&events, now), HistoryPlan::Events { since_ms: 0 });
}

#[test]
fn history_arguments_are_refused() {
    let text = |args: &HistoryArgs| match plan_history(args, 0) {
        HistoryPlan::Failed(m) => m,
        other => panic!("expected a refusal, got {other:?}"),
    };
    assert_eq!(text(&history_args(Some("k"), None, 0)), "--limit must be at least 1");
    assert_eq!(
        text(&history_args(None, None, 5)),
        "provide a key (e.g., mati history gotcha:foo) or --since (e.g., mati history --since 7d)"
    );
    assert_eq!(
        text(&history_args(None, Some("7x"), 5)),
        "unknown --since suffix 'x': expected h, d, w, m, or y"
    );
    assert_eq!(
        text(&history_args(None, Some("d"), 5)),
        "invalid --since format 'd': expected <number><h|d|w|m|y>"
    );
    assert_eq!(
        text(&history_args(None, Some("0d"), 5)),
        "--since value must be positive, got '0d'"
    );
    assert_eq!(text(&history_args(None, Some("  "), 5)), "--since value must not be empty");
    assert!(matches!(parse_since_duration("7x"), Err(SinceError::UnknownSuffix('x'))));
}

#[test]
fn a_span_may_end_in_any_character() {
    assert_eq!(parse_since_duration("7é"), Err(SinceError::UnknownSuffix('é')));
    assert_eq!(parse_since_duration(" 7☃ "), Err(SinceError::UnknownSuffix('☃')));
    assert_eq!(parse_since_duration("é"), Err(SinceError::NotANumber("é".to_string())));
    assert_eq!(parse_since_duration("0é"), Err(SinceError::Zero("0é".to_string())));
    assert_eq!(
        plan_history(&history_args(None, Some("7é"), 5), 0),
        HistoryPlan::Failed("unknown --since suffix 'é': expected h, d, w, m, or y".to_string())
    );
}

#[test]
fn a_span_is_capped() {
    assert_eq!(parse_since_duration("18446744073709551615y").unwrap(), u64::MAX);
    assert_eq!(window_start(5_000, 2), 3_000);
    assert_eq!(window_start(1_000, 2), 0);
    assert_eq!(window_start(u64::MAX, u64::MAX), 0);
    let mut events = history_args(None, Some("18446744073709551615y"), 5);
    events.enforcement = true;
    assert_eq!(plan_history(&events, u64::MAX), HistoryPlan::Events { since_ms: 0 });
}

#[test]
fn history_messages() {
    assert_eq!(no_versions("gotcha:x", None), "No history for 'gotcha:x'.");
    assert_eq!(
        no_versions("gotcha:x", Some(604_800)),
        "No history for 'gotcha:x' in the last 1 week."
    );
    assert_eq!(no_changes(3_600), "No records changed in the last 1 hour.");
    assert_eq!(changes_header(86_400, 3), "Records changed in the last 1 day  (3 total)");
    assert_eq!(
        change_row("gotcha:x", 19737 * 86400, &RecordSource::ClaudeEnrich, "0.45", "a\nb"),
        vec!["gotcha:x", "2024-01-15 00:00", "L1", "0.45", "a"]
    );
}

#[test]
fn a_timeline_shows_each_version() {
    let entries = vec![
        HistoryEntry {
            timestamp_secs: 19737 * 86400,
            is_tombstone: false,
            record: Some(VersionRecord {
                created_at: 19737 * 86400,
                updated_at: 19737 * 86400,
                source: RecordSource::DeveloperManual,
                value: "never unwrap".to_string(),
                confidence: "0.80".to_string(),
                quality: "0.60".to_string(),
                logical_clock: 3,
            }),
        },
        HistoryEntry { timestamp_secs: 19738 * 86400, is_tombstone: true, record: None },
    ];
    let lines = render_timeline("gotcha:x", &entries, false).join("\n");
    assert!(lines.contains("gotcha:x"));
    assert!(lines.contains("never unwrap"));
    assert!(lines.contains("2024-01-15"));
    assert!(lines.contains("2024-01-16"));
}

#[test]
fn dates_run_in_step_with_days() {
    let mut last = days_to_ymd(0);
    for day in 1..200_000u64 {
        let (y, m, d) = days_to_ymd(day);
        assert!((y, m, d) > last, "day {day}");
        last = (y, m, d);
    }
    assert_eq!(days_to_ymd(11_016), (2000, 2, 29));
    assert_eq!(days_to_ymd(47_540), (2100, 2, 28));
    assert_eq!(days_to_ymd(47_541), (2100, 3, 1));
}
