//! The doctor's report.
use mati::daemon::Ping;
use mati::doctor::{
    collect, collect_checks, exit_code, format_duration, metrics_lines, no_metrics, rate_label,
    read_lifecycle_tail, read_metrics, relative_ts, render_human, summarize, symbol_for,
    wants_store, Drift, Marker, Status, StoreLook, Summary,
};
use mati::json::Json;

fn value(v: serde_json::Value) -> Json {
    match v {
        serde_json::Value::Null => Json::Null,
        serde_json::Value::Bool(b) => Json::Bool(b),
        serde_json::Value::Number(n) => Json::Number(n.to_string()),
        serde_json::Value::String(s) => Json::Str(s),
        serde_json::Value::Array(a) => Json::Array(a.into_iter().map(value).collect()),
        serde_json::Value::Object(o) => {
            Json::Object(o.into_iter().map(|(k, v)| (k, value(v))).collect())
        }
    }
}

fn json(s: &str) -> Json {
    value(serde_json::from_str(s).unwrap())
}

#[test]
fn read_lifecycle_tail_parses_well_formed_lines() {
    let entries = read_lifecycle_tail(
        Some(
            "100\t111\tserve_start\tpid=111 owner=mcp\n\
             200\t111\tserve_shutdown\tclean\n",
        ),
        5,
    );
    assert_eq!(entries.len(), 2);
    assert_eq!(entries[0].ts, 100);
    assert_eq!(entries[0].event, "serve_start");
    assert_eq!(entries[1].detail, "clean");
}

#[test]
fn read_lifecycle_tail_returns_last_n_only() {
    let body: String = (0..10).map(|i| format!("{i}\t{i}\tevent{i}\tdetail{i}\n")).collect();
    let entries = read_lifecycle_tail(Some(&body), 3);
    assert_eq!(entries.len(), 3);
    // Last three: 7, 8, 9
    assert_eq!(entries[0].ts, 7);
    assert_eq!(entries[2].ts, 9);
}

#[test]
fn read_lifecycle_tail_skips_malformed_lines() {
    let entries = read_lifecycle_tail(
        Some(
            "100\t111\tserve_start\tok\n\
             not\ta\tvalid\n\
             200\t111\tserve_shutdown\tclean\n",
        ),
        5,
    );
    assert_eq!(entries.len(), 2);
}

#[test]
fn read_lifecycle_tail_returns_empty_when_missing() {
    let entries = read_lifecycle_tail(None, 5);
    assert!(entries.is_empty());
}

#[test]
fn doctor_json_shape_is_stable_across_scenarios() {
    let opened = |marker: Marker, drift: Drift| Some(StoreLook::Opened { marker, drift });
    let scenarios = vec![
        (Ping::NotRunning, false, None),
        (Ping::NotRunning, true, opened(Marker::Clear, Drift::Absent)),
        (
            Ping::StaleSocket,
            true,
            opened(
                Marker::Dirty(Some((5, "sync".to_string()))),
                Drift::Present { missing_file: 1, stale_file: 0, missing_edge: 2, stale_edge: 0 },
            ),
        ),
        (Ping::NotRunning, true, opened(Marker::Clear, Drift::Unknown("x".to_string()))),
        (Ping::NotRunning, true, Some(StoreLook::OpenFailed("locked".to_string()))),
        (Ping::Answered, true, None),
        (Ping::Unresponsive, true, None),
    ];
    for (ping, has_store, look) in scenarios {
        assert_eq!(wants_store(ping, has_store), look.is_some());
        let report = collect("/r", ping, has_store, &look, None, None);
        let names: Vec<(&str, &str)> = report.checks.iter().map(|c| (c.section, c.name)).collect();
        assert_eq!(
            names,
            vec![("daemon", "ping"), ("integrity", "dirty_marker"), ("integrity", "drift")],
            "doctor JSON check sequence must be ping → dirty_marker → drift"
        );
        assert_eq!(report.version, 1);
        let s = report.summary;
        assert_eq!(s.pass + s.warn + s.fail + s.info, 3);
    }
}

#[test]
fn a_directory_without_a_store_is_reported() {
    let log = "1\t9\ta\tx\n2\t9\tb\tx\n3\t9\tc\tx\n4\t9\td\tx\n5\t9\te\tx\n6\t9\tf\tx\n";
    let r = collect("/r", Ping::NotRunning, false, &None, Some(log), None);
    assert_eq!((r.version, r.root.as_str()), (1, "/r"));
    assert_eq!(r.summary, Summary { pass: 0, warn: 0, fail: 0, info: 3 });
    let events: Vec<&str> = r.lifecycle.iter().map(|e| e.event.as_str()).collect();
    assert_eq!(events, vec!["b", "c", "d", "e", "f"]);
    assert!(r.extraction.is_none());
    let held = collect("/r", Ping::Answered, true, &None, None, None);
    assert_eq!(held.checks[0].status, Status::Pass);
    assert_eq!((held.checks[1].status, held.checks[2].status), (Status::Info, Status::Info));
    assert!(held.lifecycle.is_empty());
}

#[test]
fn the_summary_counts_each_status() {
    let look = Some(StoreLook::Opened {
        marker: Marker::Dirty(None),
        drift: Drift::Present { missing_file: 1, stale_file: 0, missing_edge: 0, stale_edge: 0 },
    });
    let checks = collect_checks(Ping::NotRunning, true, &look);
    let s = summarize(&checks);
    assert_eq!(s.pass + s.warn + s.fail + s.info, 3);
    let log = Some("100\t1\tserve_start\tok\n");
    let r = collect("/r", Ping::Unresponsive, true, &None, log, None);
    assert!(r.summary.fail > 0);
    assert_ne!(exit_code(&r.summary), 0);
    let text = render_human(&r, 160, false).join("\n");
    assert!(text.contains("serve_start"));
    assert!(text.contains("/r"));
}

#[test]
fn spans_and_rates_are_told() {
    assert_eq!(format_duration(59), "59s");
    assert_eq!(format_duration(61), "1m 1s");
    assert_eq!(relative_ts(1_000, 940), "1m ago");
    assert_eq!(relative_ts(90_000_000, 3_600_000), "1000d ago");
    assert_eq!(rate_label(0, 0), rate_label(0, 0));
    assert!(rate_label(1, 4).contains("25"));
    assert!(!symbol_for(Status::Pass, false).is_empty());
}

#[test]
fn metrics_are_read_and_told() {
    let m = read_metrics(&json(
        r#"{"uptime_secs":61,"total_calls":4,"total_errors":1,
            "commands":[{"name":"get","count":4,"error_count":1,"mean_us":5,"p50_us":6,
                         "p95_us":7,"p99_us":8,"max_us":9}]}"#,
    ));
    let got = m.as_ref().unwrap();
    assert_eq!(got.total_calls, 4);
    let c = &got.commands.as_ref().unwrap()[0];
    assert_eq!((c.name.as_str(), c.count, c.errors, c.max), ("get", 4, 1, 9));
    assert_eq!(
        metrics_lines(&m, "25.00"),
        vec![
            "daemon metrics",
            "  uptime         1m 1s",
            "  total calls    4 (errors: 1, 25.00%)",
            ""
        ]
    );
    assert_eq!(read_metrics(&Json::Null), None);
    assert_eq!(
        metrics_lines(&None, "0.00"),
        vec!["(daemon has no metrics yet — none recorded since startup)"]
    );
    let odd = read_metrics(&json(r#"{"commands":[{}]}"#)).unwrap();
    assert_eq!(odd.commands.unwrap()[0].name, "?");
    let unknown = read_metrics(&json("{}"));
    assert_eq!(
        metrics_lines(&unknown, "0.00").last().unwrap(),
        "(unknown metrics shape; raw payload:)"
    );
    let none = read_metrics(&json(r#"{"commands":[]}"#));
    assert_eq!(
        metrics_lines(&none, "0.00").last().unwrap(),
        "(no commands recorded since startup)"
    );
    assert_eq!(no_metrics(Ping::Unresponsive).len(), 2);
}

#[test]
fn lifecycle_log_round_trip_writer_reader() {
    let pid = 4242;
    let log = [
        mati::doctor::lifecycle_line(1_700_000_000, pid, "serve_start", "owner=mcp"),
        mati::doctor::lifecycle_line(1_700_000_001, pid, "panic", "boom\twith\ttabs\nand newline"),
        mati::doctor::lifecycle_line(1_700_000_002, pid, "serve_shutdown", "reason=signal"),
    ]
    .concat();
    let entries = read_lifecycle_tail(Some(&log), 5);
    assert_eq!(
        entries.len(),
        3,
        "doctor reader must parse all 3 writer-emitted lines, got {}",
        entries.len()
    );
    assert_eq!(entries[0].event, "serve_start");
    assert_eq!(entries[0].detail, "owner=mcp");
    assert_eq!(entries[1].event, "panic");
    assert!(
        !entries[1].detail.contains('\t') && !entries[1].detail.contains('\n'),
        "writer must scrub tabs/newlines; reader saw: {:?}",
        entries[1].detail
    );
    assert_eq!(entries[1].detail, "boom with tabs and newline");
    assert_eq!(entries[2].event, "serve_shutdown");
    assert_eq!(entries[2].detail, "reason=signal");
    assert!(entries[0].ts > 0, "writer must emit a real Unix timestamp");
    assert!(entries[0].ts <= entries[2].ts, "timestamps must be monotonic");
    for e in &entries {
        assert_eq!(e.pid, pid, "writer→reader pid round-trip must be stable");
    }
    let last = read_lifecycle_tail(Some(&log), 1);
    assert_eq!(last.len(), 1);
    assert_eq!(last[0].event, "serve_shutdown");
}
