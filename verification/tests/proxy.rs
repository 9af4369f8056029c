//! The store proxy: routes, replies, writes, imports and settings.
use mati::config::change_line;
use mati::daemon::Ping;
use mati::json::Json;
use mati::proxy::{
    add_reply, close_with_result, export_parts, complaint, config_get, config_old_value, config_set, config_value,
    gotcha_write, import_chunks, import_reply, import_total, knowledge_namespaces, mode_label, open_route, partition_import,
    put_command, put_reply, read_write_seq, record_estimate, records_since, reply_data, stale_namespaces,
    retries_open, retry_delay_ms, socket_read_error, write_reply, ConfigKey, ConfigWrite,
    EnforcementMode, GotchaPayload, ProxyInner, PutCommand, PutRecord, Route, Stamp, StoreProxy,
    FRAME_BUDGET, LOCK_BUDGET_MS, MAX_CHUNK,
};
use mati::record::{Priority, RecordSource};

fn value(v: serde_json::Value) -> Json {
    match v {
        serde_json::Value::Null => Json::Null,
        serde_json::Value::Bool(b) => Json::Bool(b),
        serde_json::Value::Number(n) => Json::Number(n.to_string()),
        serde_json::Value::String(s) => Json::Str(s),
        serde_json::Value::Array(a) => Json::Array(a.into_iter().map(value).collect()),
        serde_json::Value::Object(o) => {
            Json::Object(o.into_iter().map(|(k, v)| (k, value(v))).collect())
        }
    }
}

fn json(s: &str) -> Json {
    value(serde_json::from_str(s).unwrap())
}

#[test]
fn socket_get_errors_when_daemon_is_missing() {
    let msg = socket_read_error("get", Ping::NotRunning);
    assert!(msg.contains("get"));
    assert!(msg.contains("restarting the daemon"));
}

#[test]
fn socket_scan_prefix_errors_when_daemon_is_missing() {
    let msg = socket_read_error("scan_prefix", Ping::NotRunning);
    assert!(msg.contains("scan_prefix"));
    assert!(msg.contains("restarting the daemon"));
}

fn record() -> PutRecord {
    PutRecord {
        value: "text".to_string(),
        tags: vec!["t".to_string()],
        priority: Priority::Normal,
        source: RecordSource::DeveloperManual,
        payload: None,
        gotcha: None,
    }
}

#[test]
fn socket_put_rejects_unsupported_namespace() {
    for ns in [
        "analytics:test",
        "session:123",
        "dep:rust:serde",
        "stage:current",
        "graph:edge:a:b:c",
    ] {
        let msg = put_command(ns, &record()).unwrap_err();
        assert!(
            msg.contains("unsupported namespace"),
            "expected 'unsupported namespace' error for key '{ns}', got: {msg}"
        );
    }
}

#[test]
fn each_namespace_has_its_command() {
    assert!(matches!(
        put_command("file:src/x.rs", &record()),
        Ok(PutCommand::FileEnrich { path, .. }) if path == "src/x.rs"
    ));
    assert!(matches!(
        put_command("decision:x", &record()),
        Ok(PutCommand::DecisionUpsert { slug, .. }) if slug == "x"
    ));
    assert!(matches!(
        put_command("dev_note:x", &record()),
        Ok(PutCommand::DevNoteUpsert { text, .. }) if text == "text"
    ));
    let mut r = record();
    r.gotcha = Some(GotchaPayload {
        rule: "r".to_string(),
        reason: "w".to_string(),
        severity: Priority::High,
        affected_files: vec!["a".to_string()],
        ref_url: None,
    });
    assert!(matches!(put_command("gotcha:x", &r), Ok(PutCommand::GotchaUpsert { .. })));
    match gotcha_write("gotcha:x", &r, &vec!["b".to_string()]) {
        PutCommand::GotchaUpsert { affected_files, .. } => assert_eq!(affected_files, vec!["b"]),
        other => panic!("unexpected {other:?}"),
    }
}

#[test]
fn the_daemon_comes_before_the_store() {
    assert_eq!(open_route(Ping::Answered, true), Route::Socket);
    assert_eq!(open_route(Ping::NotRunning, true), Route::Direct);
    assert_eq!(open_route(Ping::StaleSocket, true), Route::Direct);
    assert!(matches!(open_route(Ping::NotRunning, false), Route::Refused(_)));
    assert!(matches!(open_route(Ping::Unresponsive, true), Route::Refused(_)));
    let p = StoreProxy { inner: ProxyInner::Direct(7u32) };
    assert!(p.is_direct());
    assert_eq!(p.direct_store(), Some(&7));
    assert_eq!(p.into_store(), 7);
    let s: StoreProxy<u32> = StoreProxy { inner: ProxyInner::Socket { root: "/r".to_string() } };
    assert!(!s.is_direct());
    assert!(s.direct_store().is_none());
}

#[test]
fn a_locked_store_is_tried_again() {
    let locked = vec!["open".to_string(), "Database is already locked".to_string()];
    assert!(retries_open(&locked, 0));
    assert!(!retries_open(&locked, LOCK_BUDGET_MS));
    assert!(!retries_open(&vec!["no such file".to_string()], 0));
    assert!(retry_delay_ms(0) > 0);
    assert_eq!(read_write_seq(Some("42\n")), 42);
    assert_eq!(read_write_seq(Some("x")), 0);
    assert_eq!(read_write_seq(None), 0);
}

#[test]
fn the_first_error_counts() {
    let ok: Result<u8, String> = Ok(1);
    assert_eq!(close_with_result(ok, Ok(())), Ok(1));
    assert_eq!(close_with_result(Ok(1u8), Err("c".to_string())), Err("c".to_string()));
    let r: Result<u8, String> = Err("r".to_string());
    assert_eq!(close_with_result(r, Err("c".to_string())), Err("r".to_string()));
}

#[test]
fn replies_are_read() {
    assert_eq!(reply_data(&json(r#"{"ok":true,"data":{"a":1}}"#)), Some(&json(r#"{"a":1}"#)));
    assert_eq!(reply_data(&json(r#"{"ok":true,"data":null}"#)), None);
    assert_eq!(complaint(&json(r#"{"ok":true}"#), "d"), None);
    assert_eq!(complaint(&json(r#"{"ok":false,"error":"e"}"#), "d").as_deref(), Some("e"));
    assert_eq!(complaint(&json(r#"{"ok":false}"#), "d").as_deref(), Some("d"));
    assert!(put_reply(&json(r#"{"ok":false,"error":"e"}"#))
        .unwrap()
        .starts_with("daemon rejected put: e"));
    assert_eq!(
        write_reply("daemon gotcha_confirm failed", &json(r#"{"ok":false}"#)).as_deref(),
        Some("daemon gotcha_confirm failed: unknown")
    );
}

#[test]
fn imports_are_split_into_frames() {
    assert_eq!(import_chunks(&vec![]), Vec::<usize>::new());
    let small = import_chunks(&vec![10; MAX_CHUNK + 1]);
    assert_eq!(small, vec![MAX_CHUNK, MAX_CHUNK + 1], "each chunk is given by its end");
    let large = import_chunks(&vec![FRAME_BUDGET, 1, FRAME_BUDGET + 5]);
    assert_eq!(large, vec![1, 2, 3]);
    let mixed = import_chunks(&vec![FRAME_BUDGET - 1, 1, 1]);
    assert_eq!(mixed, vec![2, 3]);
    assert!(record_estimate(Some(10)) > 10);
}

#[test]
fn only_durable_records_are_imported() {
    let keys = vec!["gotcha:a".to_string(), "session:b".to_string(), "file:c".to_string()];
    let (kept, skipped) = partition_import(&keys, &vec![true, false, true]);
    assert_eq!(kept, vec![0, 2]);
    assert_eq!(skipped, 1);
    assert_eq!(
        import_reply(&json(r#"{"ok":true,"data":{"imported":3,"skipped":1}}"#)),
        Ok((3, 1))
    );
    assert!(import_reply(&json(r#"{"ok":false,"error":"x"}"#)).is_err());
}

#[test]
fn the_counts_of_the_chunks_add_up() {
    assert_eq!(add_reply((3, 1), (200, 0)), Some((203, 1)));
    assert_eq!(add_reply((u64::MAX, 0), (1, 0)), None);
    assert_eq!(add_reply((0, 2), (0, u64::MAX)), None);
    assert_eq!(import_total(&vec![]), Some((0, 0)));
    assert_eq!(import_total(&vec![(200, 0), (198, 2), (7, 1)]), Some((405, 3)));
    assert_eq!(import_total(&vec![(u64::MAX, 0), (0, 5), (1, 0)]), None);
}

#[test]
fn what_is_imported_is_found_again() {
    let all = knowledge_namespaces();
    assert_eq!(all, vec!["gotcha:", "decision:", "file:", "stage:", "dev_note:", "dep:"]);
    let keys: Vec<String> = all.iter().map(|n| format!("{n}x")).collect();
    let durable = vec![true; keys.len()];
    assert_eq!(partition_import(&keys, &durable), (vec![0, 1, 2, 3, 4, 5], 0));
    assert_eq!(partition_import(&vec!["session:x".to_string()], &vec![true]), (vec![], 1));
}

#[test]
fn exports_and_stale_scans_read_their_namespaces() {
    let parts: Vec<(String, String)> =
        export_parts().into_iter().map(|p| (p.prefix, p.heading)).collect();
    let expected = [
        ("gotcha:", "Gotchas"),
        ("decision:", "Decisions"),
        ("file:", "Files"),
        ("dev_note:", "Notes"),
        ("dep:", "Dependencies"),
    ];
    assert_eq!(parts, expected.map(|(p, h)| (p.to_string(), h.to_string())));
    assert_eq!(stale_namespaces(), vec!["gotcha:", "decision:", "file:", "dev_note:"]);
}

#[test]
fn recent_records_come_newest_first() {
    let s = |k: &str, t: u64| Stamp { key: k.to_string(), updated_at: t };
    let v = vec![s("gotcha:a", 5), s("gotcha:b", 9), s("gotcha:c", 7), s("gotcha:d", 1)];
    assert_eq!(records_since(&v, 5, 2), vec![1, 2]);
}

#[test]
fn settings_are_named_and_checked() {
    assert_eq!(config_get("enforcement.mode"), Ok(ConfigKey::Mode));
    assert_eq!(config_get("audit.write_durability"), Ok(ConfigKey::Mode));
    assert_eq!(config_get("enforcement.retention"), Ok(ConfigKey::Retention));
    assert!(config_get("x").unwrap_err().starts_with("unknown config key: x"));
    assert_eq!(
        config_set("audit.write_durability", "strict"),
        Ok(ConfigWrite::Mode(EnforcementMode::Strict))
    );
    assert_eq!(config_set("enforcement.retention", "365"), Ok(ConfigWrite::Retention(365)));
    assert_eq!(
        config_set("enforcement.retention", "0").unwrap_err(),
        "retention must be at least 1 day"
    );
    assert!(config_set("enforcement.retention", "x").is_err());
    assert!(config_set("enforcement.mode", "x").is_err());
    for m in [EnforcementMode::Advisory, EnforcementMode::Strict] {
        assert_eq!(config_set("enforcement.mode", mode_label(m)), Ok(ConfigWrite::Mode(m)));
    }
    assert_eq!(config_value(&json(r#"{"ok":true,"data":"strict"}"#)).unwrap(), "strict");
    assert!(config_value(&json(r#"{"ok":false}"#)).is_err());
    assert!(config_old_value(&json(r#"{"ok":false}"#)).is_err());
    assert_eq!(
        config_old_value(&json(r#"{"ok":true,"data":{"old":"advisory"}}"#)).unwrap(),
        "advisory"
    );
}

#[test]
fn a_change_of_a_setting_is_told() {
    assert_eq!(
        change_line("audit.write_durability", "strict", "strict").as_deref(),
        Some("audit.write_durability is already strict")
    );
    assert_eq!(
        change_line("audit.write_durability", "strict", "").as_deref(),
        Some("audit.write_durability: strict")
    );
    assert_eq!(
        change_line("audit.write_durability", "strict", "advisory").as_deref(),
        Some("audit.write_durability: advisory → strict")
    );
    assert_eq!(
        change_line("enforcement.retention", "365", "").as_deref(),
        Some("enforcement.retention: 365 days")
    );
    assert_eq!(change_line("enforcement.mode", "strict", "advisory"), None);
}
