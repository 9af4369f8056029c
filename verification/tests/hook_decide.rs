//! The hook adapter, the consult mandate and the flows around them.
use globset::GlobSet;
use mati::enforce::{
    apply_consult_mandate, check_eval_data, process_eval_response, AdapterResult, EnforcementResult,
    EvalDataCheck,
};
use mati::gate::{
    cap_patch, consult_receipt, extract_path, fail_open_entry, fail_open_warning, fire_events,
    gate_actor, open, post_bash_command, AuditCommand, Evaluation, Gate, Opening, PatchGate, Reach,
    SessionEvent,
};
use mati::globs::{compile_globs, consult_globset_from};
use mati::hook::{
    emit_allow, escape_json_string, platform_events, Decision, HookEvent, HookVariant,
};
use mati::json::Json;
use mati::paths::canonical_rel_path;

fn value(v: serde_json::Value) -> Json {
    match v {
        serde_json::Value::Null => Json::Null,
        serde_json::Value::Bool(b) => Json::Bool(b),
        serde_json::Value::Number(n) => Json::Number(n.to_string()),
        serde_json::Value::String(s) => Json::Str(s),
        serde_json::Value::Array(a) => Json::Array(a.into_iter().map(value).collect()),
        serde_json::Value::Object(o) => {
            Json::Object(o.into_iter().map(|(k, v)| (k, value(v))).collect())
        }
    }
}

fn json(s: &str) -> Json {
    value(serde_json::from_str(s).unwrap())
}

#[test]
fn extract_path_claude_pre_read_file_path() {
    let input = json(r#"{"tool_input": {"file_path": "/home/user/project/src/main.rs"}}"#);
    assert_eq!(
        extract_path(&input, HookVariant::ClaudePreRead, None),
        Some("/home/user/project/src/main.rs".into())
    );
}

#[test]
fn extract_path_claude_pre_read_path_fallback() {
    let input = json(r#"{"tool_input": {"path": "src/main.rs"}}"#);
    assert_eq!(
        extract_path(&input, HookVariant::ClaudePreRead, None),
        Some("src/main.rs".into())
    );
}

#[test]
fn extract_path_claude_pre_read_empty() {
    let input = json(r#"{"tool_input": {"file_path": ""}}"#);
    assert_eq!(extract_path(&input, HookVariant::ClaudePreRead, None), None);
}

#[test]
fn extract_path_codex_pre_bash_cat() {
    let input = json(r#"{"tool_input": {"command": "cat src/main.rs"}}"#);
    assert_eq!(
        extract_path(&input, HookVariant::CodexPreBash, Some("src/main.rs".into())),
        Some("src/main.rs".into())
    );
}

#[test]
fn extract_path_codex_pre_bash_non_file_command() {
    let input = json(r#"{"tool_input": {"command": "ls -la"}}"#);
    assert_eq!(extract_path(&input, HookVariant::CodexPreBash, None), None);
}

#[test]
fn extract_path_codex_pre_bash_empty_command() {
    let input = json(r#"{"tool_input": {"command": ""}}"#);
    assert_eq!(
        extract_path(&input, HookVariant::CodexPreBash, Some("src/main.rs".into())),
        None
    );
}

#[test]
fn extract_path_codex_fixture_tool_input_command() {
    let input = json(r#"{"tool_input": {"command": "cat src/main.rs"}}"#);
    assert_eq!(
        extract_path(&input, HookVariant::CodexPreBash, Some("src/main.rs".into())),
        Some("src/main.rs".into())
    );
}

#[test]
fn codex_deny_translates_to_shell_blocked() {
    let events = vec![HookEvent::BlockedUnconsultedRead { key: "file:src/main.rs".into() }];
    let decision =
        Decision::Deny { file_key: "file:src/main.rs".into(), reason: "test".into() };
    let result = platform_events(HookVariant::CodexPreBash, &decision, events);
    assert_eq!(result.len(), 1);
    assert!(matches!(
        &result[0],
        HookEvent::CodexShellBlocked { key } if key == "file:src/main.rs"
    ));
}

#[test]
fn codex_advisory_suppresses_hit() {
    let events = vec![HookEvent::Hit { key: "file:src/main.rs".into() }];
    let decision = Decision::Advisory { context: "test".into() };
    let result = platform_events(HookVariant::CodexPreBash, &decision, events);
    assert!(result.is_empty(), "Codex should not mint receipts for silent outcomes");
}

#[test]
fn codex_liability_suppresses_hit() {
    let events = vec![HookEvent::Hit { key: "file:src/main.rs".into() }];
    let decision = Decision::Liability { context: "test".into() };
    let result = platform_events(HookVariant::CodexPreBash, &decision, events);
    assert!(result.is_empty());
}

#[test]
fn codex_already_consulted_suppresses_hit() {
    let events = vec![HookEvent::ComplianceHit { key: "file:src/main.rs".into() }];
    let decision = Decision::AlreadyConsulted { context: "test".into() };
    let result = platform_events(HookVariant::CodexPreBash, &decision, events);
    assert!(result.is_empty());
}

#[test]
fn codex_no_record_keeps_miss() {
    let events = vec![HookEvent::Miss { key: "file:src/main.rs".into() }];
    let decision = Decision::NoRecord;
    let result = platform_events(HookVariant::CodexPreBash, &decision, events);
    assert_eq!(result.len(), 1);
    assert!(matches!(&result[0], HookEvent::Miss { .. }));
}

#[test]
fn claude_keeps_all_events() {
    let events = vec![HookEvent::Hit { key: "file:src/main.rs".into() }];
    let decision = Decision::Advisory { context: "test".into() };
    let result = platform_events(HookVariant::ClaudePreRead, &decision, events);
    assert_eq!(result.len(), 1, "a hit is kept for advisory outcomes");
}

#[test]
fn claude_deny_keeps_blocked_event() {
    let events = vec![HookEvent::BlockedUnconsultedRead { key: "file:src/main.rs".into() }];
    let decision =
        Decision::Deny { file_key: "file:src/main.rs".into(), reason: "test".into() };
    let result = platform_events(HookVariant::ClaudePreBash, &decision, events);
    assert_eq!(result.len(), 1);
    assert!(matches!(&result[0], HookEvent::BlockedUnconsultedRead { .. }));
}

// The enforcement rules run outside this library: a test hands their outcome in.

fn deny_eligible(consulted: bool, consulted_recent: bool) -> Json {
    json(&format!(
        r#"{{
            "file_key": "file:src/main.rs",
            "file_record": {{
                "value": "Entry point",
                "confidence": {{ "value": 0.7 }},
                "quality": {{ "value": 0.5 }},
                "staleness": {{ "value": 0.1, "tier": "fresh" }},
                "payload": {{ "gotcha_keys": ["gotcha:test-rule"] }}
            }},
            "gotcha_records": {{
                "gotcha:test-rule": {{
                    "value": "Never call unwrap in this file",
                    "confidence": {{ "value": 0.8 }},
                    "quality": {{ "value": 0.6 }},
                    "payload": {{ "confirmed": true }}
                }}
            }},
            "consulted": {consulted},
            "consulted_recent": {consulted_recent},
            "store_error": false,
            "gotcha_error": false
        }}"#
    ))
}

fn advisory_data() -> Json {
    json(
        r#"{
            "file_key": "file:src/lib.rs",
            "file_record": {
                "value": "Library root",
                "confidence": { "value": 0.45 },
                "quality": { "value": 0.5 },
                "staleness": { "value": 0.1, "tier": "fresh" },
                "payload": { "gotcha_keys": [] }
            },
            "gotcha_records": {},
            "consulted": false,
            "consulted_recent": false,
            "store_error": false,
            "gotcha_error": false
        }"#,
    )
}

fn no_record_data(store_error: bool) -> Json {
    json(&format!(
        r#"{{
            "file_key": "file:src/new.rs",
            "file_record": null,
            "gotcha_records": {{}},
            "consulted": false,
            "consulted_recent": false,
            "store_error": {store_error},
            "gotcha_error": false
        }}"#
    ))
}

const KEY: &str = "file:src/main.rs";

fn denied() -> EnforcementResult {
    EnforcementResult {
        decision: Decision::Deny {
            file_key: KEY.into(),
            reason: "[mati] call mem_get(\"file:src/main.rs\") first".into(),
        },
        events: vec![HookEvent::BlockedUnconsultedRead { key: KEY.into() }],
    }
}

fn consulted() -> EnforcementResult {
    EnforcementResult {
        decision: Decision::AlreadyConsulted { context: "[mati] consulted".into() },
        events: vec![HookEvent::ComplianceHit { key: KEY.into() }],
    }
}

fn advisory() -> EnforcementResult {
    EnforcementResult {
        decision: Decision::Advisory { context: "[mati] Library root".into() },
        events: vec![HookEvent::Hit { key: "file:src/lib.rs".into() }],
    }
}

fn no_record() -> EnforcementResult {
    EnforcementResult {
        decision: Decision::NoRecord,
        events: vec![HookEvent::Miss { key: "file:src/new.rs".into() }],
    }
}

fn pointer(stdout: &str, name: &str) -> Option<String> {
    let v: serde_json::Value = serde_json::from_str(stdout).expect("stdout must be valid JSON");
    v.pointer(&format!("/hookSpecificOutput/{name}"))
        .and_then(|v| v.as_str())
        .map(|s| s.to_string())
}

#[test]
fn e2e_codex_deny_exit2_stderr_and_shell_blocked_event() {
    let data = deny_eligible(false, false);
    let result = process_eval_response(HookVariant::CodexPreBash, "src/main.rs", &data, denied());

    assert_eq!(result.exit_code, 2, "Codex deny must exit 2");
    assert!(
        result.stderr.contains("mem_get"),
        "stderr must instruct to call mem_get, got: {}",
        result.stderr
    );
    assert!(result.stdout.is_empty(), "Codex deny should have no stdout");
    assert_eq!(result.events.len(), 1);
    assert!(
        matches!(&result.events[0], HookEvent::CodexShellBlocked { key } if key == "file:src/main.rs"),
        "Codex deny must emit CodexShellBlocked, got: {:?}",
        result.events
    );
    assert!(matches!(result.decision, Decision::Deny { .. }));
}

#[test]
fn e2e_codex_apply_patch_deny_exit2_when_unconsulted() {
    let data = deny_eligible(false, false);
    let result =
        process_eval_response(HookVariant::CodexPreApplyPatch, "src/main.rs", &data, denied());

    assert_eq!(result.exit_code, 2, "apply_patch deny must exit 2");
    assert!(matches!(result.decision, Decision::Deny { .. }));
    assert_eq!(result.events.len(), 1);
    assert!(
        matches!(&result.events[0], HookEvent::CodexShellBlocked { key } if key == "file:src/main.rs"),
        "apply_patch deny must emit CodexShellBlocked, got: {:?}",
        result.events
    );
}

#[test]
fn e2e_codex_apply_patch_allows_after_consult() {
    let data = deny_eligible(false, true);
    match check_eval_data(HookVariant::CodexPreApplyPatch, "src/main.rs", &data) {
        EvalDataCheck::Proceed(input) => assert!(input.already_consulted),
        EvalDataCheck::FailOpen(reason) => panic!("unexpected: {reason}"),
    }
    let result =
        process_eval_response(HookVariant::CodexPreApplyPatch, "src/main.rs", &data, consulted());

    assert_eq!(result.exit_code, 0, "consulted edit must be allowed");
    assert!(!matches!(result.decision, Decision::Deny { .. }));
}

#[test]
fn e2e_claude_deny_json_output_and_blocked_event() {
    let data = deny_eligible(false, false);
    let result = process_eval_response(HookVariant::ClaudePreBash, "src/main.rs", &data, denied());

    assert_eq!(result.exit_code, 0, "always exits 0");
    assert_eq!(pointer(&result.stdout, "permissionDecision").as_deref(), Some("deny"));
    assert!(
        pointer(&result.stdout, "permissionDecisionReason").unwrap_or_default().contains("mem_get"),
        "deny reason must mention mem_get"
    );
    assert_eq!(result.events.len(), 1);
    assert!(matches!(&result.events[0], HookEvent::BlockedUnconsultedRead { .. }));
}

#[test]
fn e2e_codex_advisory_silent_no_hit() {
    let data = advisory_data();
    let result = process_eval_response(HookVariant::CodexPreBash, "src/lib.rs", &data, advisory());

    assert_eq!(result.exit_code, 0);
    assert!(result.stdout.is_empty(), "Codex advisory must be silent");
    assert!(result.stderr.is_empty());
    assert!(
        result.events.is_empty(),
        "Codex must NOT mint consultation receipt for advisory, got: {:?}",
        result.events
    );
    assert!(matches!(result.decision, Decision::Advisory { .. }));
}

#[test]
fn e2e_claude_advisory_injects_context() {
    let data = advisory_data();
    let result = process_eval_response(HookVariant::ClaudePreRead, "src/lib.rs", &data, advisory());

    assert_eq!(result.exit_code, 0);
    assert_eq!(pointer(&result.stdout, "permissionDecision").as_deref(), Some("allow"));
    assert!(
        pointer(&result.stdout, "additionalContext").unwrap_or_default().contains("[mati]"),
        "an advisory must inject context"
    );
    assert_eq!(result.events.len(), 1);
    assert!(matches!(&result.events[0], HookEvent::Hit { .. }));
}

#[test]
fn e2e_codex_consulted_allows_silently() {
    let data = deny_eligible(false, true);
    let result =
        process_eval_response(HookVariant::CodexPreBash, "src/main.rs", &data, consulted());

    assert_eq!(result.exit_code, 0, "consulted file must not be blocked");
    assert!(result.stdout.is_empty());
    assert!(result.stderr.is_empty());
    assert!(result.events.is_empty());
}

#[test]
fn e2e_claude_consulted_records_allow_after_receipt() {
    let data = deny_eligible(true, false);
    match check_eval_data(HookVariant::ClaudePreRead, "src/main.rs", &data) {
        EvalDataCheck::Proceed(input) => assert!(input.already_consulted),
        EvalDataCheck::FailOpen(reason) => panic!("unexpected: {reason}"),
    }
    let result =
        process_eval_response(HookVariant::ClaudePreRead, "src/main.rs", &data, consulted());

    assert_eq!(result.exit_code, 0, "always exits 0");
    assert_eq!(pointer(&result.stdout, "permissionDecision").as_deref(), Some("allow"));
    assert!(matches!(result.decision, Decision::AlreadyConsulted { .. }));
    assert_eq!(result.events.len(), 1);
    assert!(
        matches!(&result.events[0], HookEvent::ComplianceHit { key } if key == "file:src/main.rs"),
        "AlreadyConsulted must emit ComplianceHit, got: {:?}",
        result.events
    );
}

#[test]
fn e2e_store_error_fails_open() {
    let data = no_record_data(true);
    let result = process_eval_response(HookVariant::CodexPreBash, "src/main.rs", &data, denied());

    assert_eq!(result.exit_code, 0, "store error must fail open");
    assert_eq!(result.decision, Decision::Allow);
}

#[test]
fn e2e_gotcha_error_fails_open() {
    let data = json(
        r#"{
            "file_key": "file:src/main.rs",
            "file_record": {
                "value": "test",
                "confidence": { "value": 0.7 },
                "quality": { "value": 0.5 },
                "staleness": { "value": 0.1, "tier": "fresh" },
                "payload": { "gotcha_keys": ["gotcha:broken"] }
            },
            "gotcha_records": {},
            "consulted": false,
            "consulted_recent": false,
            "store_error": false,
            "gotcha_error": true
        }"#,
    );
    let result = process_eval_response(HookVariant::ClaudePreBash, "src/main.rs", &data, denied());

    assert_eq!(result.exit_code, 0, "gotcha error must fail open");
    assert_eq!(
        pointer(&result.stdout, "permissionDecision").as_deref(),
        Some("allow"),
        "gotcha error must produce allow"
    );
}

#[test]
fn outer_deadline_emits_allow_on_timeout() {
    assert_eq!(
        emit_allow(HookVariant::ClaudePreRead),
        r#"{"hookSpecificOutput":{"hookEventName":"PreToolUse","permissionDecision":"allow"}}"#
    );
    assert_eq!(
        pointer(&emit_allow(HookVariant::ClaudePreBash), "permissionDecision").as_deref(),
        Some("allow"),
        "deadline path must produce permissionDecision=allow"
    );
}

#[test]
fn e2e_no_record_allows() {
    let data = no_record_data(false);
    let result =
        process_eval_response(HookVariant::ClaudePreRead, "src/new.rs", &data, no_record());

    assert_eq!(result.exit_code, 0);
    assert!(matches!(result.decision, Decision::NoRecord));
    assert_eq!(result.events.len(), 1);
    assert!(matches!(&result.events[0], HookEvent::Miss { .. }));
}

#[test]
fn extract_path_claude_pre_edit_file_path() {
    let input = json(r#"{"tool_input": {"file_path": "/repo/src/pay.rs"}}"#);
    assert_eq!(
        extract_path(&input, HookVariant::ClaudePreEdit, None),
        Some("/repo/src/pay.rs".into())
    );
}

#[test]
fn extract_path_claude_pre_edit_notebook_path() {
    let input = json(r#"{"tool_input": {"notebook_path": "/repo/nb/analysis.ipynb"}}"#);
    assert_eq!(
        extract_path(&input, HookVariant::ClaudePreEdit, None),
        Some("/repo/nb/analysis.ipynb".into())
    );
}

#[test]
fn extract_path_codex_pre_bash_egrep_and_fgrep() {
    let egrep = json(r#"{"tool_input": {"command": "egrep TODO src/main.rs"}}"#);
    assert_eq!(
        extract_path(&egrep, HookVariant::CodexPreBash, Some("src/main.rs".into())),
        Some("src/main.rs".into())
    );
    let fgrep = json(r#"{"tool_input": {"command": "fgrep needle src/main.rs"}}"#);
    assert_eq!(
        extract_path(&fgrep, HookVariant::CodexPreBash, Some("src/main.rs".into())),
        Some("src/main.rs".into())
    );
}

#[test]
fn e2e_claude_pre_edit_denies_blind_edit() {
    let data = deny_eligible(false, false);
    let result = process_eval_response(HookVariant::ClaudePreEdit, "src/main.rs", &data, denied());

    assert_eq!(result.exit_code, 0, "always exits 0; deny is in the JSON");
    assert_eq!(pointer(&result.stdout, "permissionDecision").as_deref(), Some("deny"));
    assert!(
        pointer(&result.stdout, "permissionDecisionReason")
            .unwrap_or_default()
            .contains("before editing"),
        "deny reason must be edit-flavored, got: {}",
        result.stdout
    );
    assert_eq!(result.events.len(), 1);
    assert!(matches!(&result.events[0], HookEvent::EditBlocked { .. }));
    assert!(matches!(result.decision, Decision::Deny { .. }));
}

#[test]
fn e2e_claude_pre_edit_defers_after_consult() {
    let data = deny_eligible(false, true);
    let result =
        process_eval_response(HookVariant::ClaudePreEdit, "src/main.rs", &data, consulted());

    assert_eq!(result.exit_code, 0);
    assert!(
        result.stdout.is_empty(),
        "consulted edit must DEFER (empty stdout), not force-allow, got: {}",
        result.stdout
    );
    assert!(result.stderr.is_empty());
    assert!(matches!(result.decision, Decision::AlreadyConsulted { .. }));
    assert_eq!(result.events.len(), 1);
    assert!(matches!(&result.events[0], HookEvent::EditConsulted { .. }));
}

#[test]
fn e2e_claude_pre_edit_defers_no_record() {
    let data = no_record_data(false);
    let result =
        process_eval_response(HookVariant::ClaudePreEdit, "src/new.rs", &data, no_record());

    assert_eq!(result.exit_code, 0);
    assert!(result.stdout.is_empty(), "no-record edit must defer");
    assert!(matches!(result.decision, Decision::NoRecord));
    assert!(result.events.is_empty());
}

#[test]
fn e2e_claude_pre_edit_store_error_defers() {
    let data = no_record_data(true);
    let result = process_eval_response(HookVariant::ClaudePreEdit, "src/main.rs", &data, denied());

    assert_eq!(result.exit_code, 0, "store error must fail open (defer)");
    assert!(result.stdout.is_empty());
    assert_eq!(result.decision, Decision::Allow);
}

#[test]
fn canonical_rel_resolves_symlink_to_real_target_key() {
    let got = canonical_rel_path(Some("/repo"), Some("/repo/src/real.rs"), "link.rs");
    assert_eq!(got.as_deref(), Some("src/real.rs"));
}

#[test]
fn canonical_rel_non_symlink_is_noop() {
    let got = canonical_rel_path(Some("/repo"), Some("/repo/src/real.rs"), "src/real.rs");
    assert_eq!(got, None, "non-symlink access must not trigger a fallback");
}

#[test]
fn canonical_rel_outside_repo_is_none() {
    let got = canonical_rel_path(Some("/repo"), Some("/outside/secret.rs"), "escape.rs");
    assert_eq!(got, None, "out-of-repo symlink target must yield no key");
}

#[test]
fn canonical_rel_no_repo_root_is_none() {
    let got = canonical_rel_path(None, Some("/some/abs/path.rs"), "path.rs");
    assert_eq!(got, None);
}

fn allow_adapter() -> AdapterResult {
    AdapterResult {
        stdout: "allow".to_string(),
        stderr: String::new(),
        exit_code: 0,
        events: vec![],
        decision: Decision::Allow,
    }
}

fn phi_globs() -> GlobSet {
    consult_globset_from(r#"["phi/**"]"#).unwrap()
}

#[test]
fn consult_globset_from_parses_and_rejects() {
    assert!(consult_globset_from(r#"["phi/**","src/pay/**"]"#).is_some());
    assert!(consult_globset_from("[]").is_none());
    assert!(consult_globset_from("not json").is_none());
}

#[test]
fn broken_globs_are_left_out() {
    assert!(compile_globs(&vec!["a[".to_string()]).is_none());
    let set = compile_globs(&vec!["a[".to_string(), "src/*.rs".to_string()]).unwrap();
    assert!(set.is_match("src/x.rs"));
    assert!(!set.is_match("doc/x.md"));
}

#[test]
fn mandate_denies_unconsulted_match() {
    let g = phi_globs();
    let mut a = allow_adapter();
    apply_consult_mandate(&mut a, HookVariant::ClaudePreRead, "phi/records.rs", false, Some(&g));
    assert!(matches!(a.decision, Decision::Deny { .. }));
    assert!(a.stdout.contains("deny"), "pre-read deny output must be emitted");
    assert!(
        matches!(a.events.first(), Some(HookEvent::FloorConsultBlocked { .. })),
        "floor mandate deny must emit its own event (distinct audit reason code)"
    );
}

#[test]
fn mandate_allows_when_consulted() {
    let g = phi_globs();
    let mut a = allow_adapter();
    apply_consult_mandate(&mut a, HookVariant::ClaudePreRead, "phi/records.rs", true, Some(&g));
    assert!(matches!(a.decision, Decision::Allow), "consultation satisfies the mandate");
}

#[test]
fn mandate_noop_on_nonmatch_or_no_globs() {
    let g = phi_globs();
    let mut a = allow_adapter();
    apply_consult_mandate(&mut a, HookVariant::ClaudePreRead, "src/main.rs", false, Some(&g));
    assert!(matches!(a.decision, Decision::Allow), "non-matching path is untouched");

    let mut b = allow_adapter();
    apply_consult_mandate(&mut b, HookVariant::ClaudePreRead, "phi/records.rs", false, None);
    assert!(matches!(b.decision, Decision::Allow), "no mandate -> no change");
}

#[test]
fn mandate_preserves_existing_deny() {
    let g = phi_globs();
    let mut a = AdapterResult {
        stdout: "x".to_string(),
        stderr: String::new(),
        exit_code: 0,
        events: vec![],
        decision: Decision::Deny {
            file_key: "file:phi/x.rs".to_string(),
            reason: "gotcha-deny".to_string(),
        },
    };
    apply_consult_mandate(&mut a, HookVariant::ClaudePreRead, "phi/x.rs", false, Some(&g));
    match &a.decision {
        Decision::Deny { reason, .. } => {
            assert_eq!(reason, "gotcha-deny", "deny > consult; not overwritten")
        }
        _ => panic!("expected the pre-existing Deny to survive"),
    }
}

#[test]
fn escaped_text_reads_back_as_json() {
    let s = "a \"quote\", a \\ and a\nline,\r\t é";
    let back: String =
        serde_json::from_str(&format!("\"{}\"", escape_json_string(s))).expect("valid JSON");
    assert_eq!(back, s);
}

#[test]
fn control_characters_are_escaped() {
    let all: String = (0u8..0x20).map(char::from).chain("\u{7f}é☃😀".chars()).collect();
    let escaped = escape_json_string(&all);
    assert!(escaped.chars().all(|c| c >= ' '));
    assert!(escaped.starts_with("\\u0000\\u0001"));
    let back: String = serde_json::from_str(&format!("\"{escaped}\"")).expect("valid JSON");
    assert_eq!(back, all);
    assert_eq!(escape_json_string("\u{1b}[0m"), "\\u001b[0m");
}

#[test]
fn a_further_file_only_escalates() {
    let reply = |e: EnforcementResult| Some(Evaluation { data: deny_eligible(false, false), evaluated: e });
    let mut g =
        Gate::start(HookVariant::ClaudePreBash, "src/lib.rs", reply(advisory()), None).unwrap();
    assert!(!g.settled());
    g.add_link_target(Some("src/real.rs".to_string()));
    g.add_command_files(
        vec!["src/lib.rs".to_string(), "src/main.rs".to_string(), "src/late.rs".to_string()],
        2,
    );
    assert_eq!(g.next().as_deref(), Some("src/real.rs"));
    g.consider("src/real.rs", None, None);
    assert!(!g.settled());
    assert_eq!(g.next().as_deref(), Some("src/main.rs"));
    g.consider("src/main.rs", reply(denied()), None);
    assert!(g.settled());
    assert_eq!(g.next(), None);
    g.consider("src/other.rs", reply(advisory()), None);
    assert!(g.settled(), "a refusal stays");
}

#[test]
fn a_failed_lookup_lets_the_call_pass() {
    assert!(Gate::start(HookVariant::ClaudePreRead, "x", None, None).is_none());
    let e = Evaluation { data: no_record_data(true), evaluated: no_record() };
    let g = Gate::start(HookVariant::ClaudePreRead, "x", Some(e), None).unwrap();
    assert_eq!(g.fail_open.as_deref(), Some("store error during hook_evaluate"));
}

#[test]
fn a_patch_is_refused_for_every_denied_file() {
    let mut paths: Vec<String> = (0..5).map(|i| format!("f{i}")).collect();
    assert!(cap_patch(&mut paths, 3).is_some());
    assert_eq!(paths.len(), 3);
    assert!(cap_patch(&mut paths, 3).is_none());
    let mut p = PatchGate::new();
    assert!(p.refusal().is_none());
    p.consider(
        "src/main.rs",
        Some(Evaluation { data: deny_eligible(false, false), evaluated: denied() }),
    );
    p.consider("src/lib.rs", Some(Evaluation { data: advisory_data(), evaluated: advisory() }));
    p.consider("src/x.rs", None);
    assert_eq!(p.denied, vec!["file:src/main.rs"]);
    assert!(p.refusal().unwrap().contains("src/main.rs"));
    assert!(matches!(&p.events[..], [HookEvent::CodexShellBlocked { .. }]));
}

#[test]
fn a_hook_opens_by_what_it_can_reach() {
    assert!(matches!(
        open(HookVariant::ClaudePreRead, "", Reach::NoPath),
        Opening::Pass { log: None, .. }
    ));
    match open(HookVariant::CodexPreBash, "x", Reach::NoDaemon) {
        Opening::Pass { stdout, log } => {
            assert!(stdout.is_empty());
            assert_eq!(log.as_deref(), Some("daemon not running after auto-start"));
        }
        other => panic!("unexpected {other:?}"),
    }
    assert_eq!(open(HookVariant::CodexPostBash, "x", Reach::Ready), Opening::PostBash);
    assert_eq!(
        open(HookVariant::ClaudePreEdit, "src/x.rs", Reach::Ready),
        Opening::Evaluate { key: "file:src/x.rs".to_string(), include_recent: true }
    );
}

#[test]
fn events_become_audit_commands() {
    let events = vec![
        HookEvent::Hit { key: "file:a".into() },
        HookEvent::BlockedUnconsultedRead { key: "file:b".into() },
    ];
    let out = fire_events(&events, &Some("s".to_string()));
    assert_eq!(
        out,
        vec![
            AuditCommand::ConsultationHit {
                key: "file:a".into(),
                actor: None,
                session_id: None,
                agent_id: None
            },
            AuditCommand::SessionLog {
                event: SessionEvent::ComplianceMiss,
                key: "file:b".into(),
                session_id: Some("s".into())
            },
        ]
    );
    assert_eq!(
        post_bash_command("a", true),
        AuditCommand::SessionLog {
            event: SessionEvent::ComplianceHit,
            key: "file:a".into(),
            session_id: None
        }
    );
}

#[test]
fn a_consultation_leaves_a_receipt() {
    let input = json(r#"{"tool_input":{"key":"file:a"},"session_id":"s"}"#);
    assert_eq!(
        consult_receipt(&input),
        Some(AuditCommand::ConsultationHit {
            key: "file:a".into(),
            actor: Some("s".into()),
            session_id: Some("s".into()),
            agent_id: None
        })
    );
    assert_eq!(consult_receipt(&json(r#"{"tool_input":{}}"#)), None);
    assert_eq!(gate_actor(&input), None, "the session is no substitute");
    assert_eq!(gate_actor(&json(r#"{"agent_id":"a1"}"#)).as_deref(), Some("a1"));
}

#[test]
fn skipped_enforcement_is_logged() {
    assert!(fail_open_warning("src/x.rs", "timeout").contains("src/x.rs"));
    let line = fail_open_entry("2024-01-15T00:00:00Z", "src/x.rs", "timeout");
    assert!(line.contains("2024-01-15T00:00:00Z"));
    assert!(line.contains("timeout"));
}
