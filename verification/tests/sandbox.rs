//! Deny rules: selection, ownership, merging, drift and tags.
use mati::hook::HookVariant;
use mati::host::Assistant;
use mati::json::Json;
use mati::sandbox::{
    add_tags, applied_line, apply_into_settings, blast_radius, clear_from_settings,
    compile_relative, covers_file, drifted_removals, is_mati_owned, materialize, normalize_rel,
    plan_protect, preview, remove_tags, resolve_rules, resolve_under_repo, retag,
    settings_local_path, tag_warning, validate_sandbox_shape, GotchaSel, Materialized,
    ProtectPlan, Resolved, SandboxGotcha, SandboxRules, ShapeError,
};
use mati::strset::StrSet;

fn sv(v: &[&str]) -> Vec<String> {
    v.iter().map(|x| x.to_string()).collect()
}

fn sel<'a>(tags: &'a [String], confirmed: bool, files: &'a [String]) -> GotchaSel<'a> {
    GotchaSel { tags, active: true, confirmed, files }
}

fn value(v: serde_json::Value) -> Json {
    match v {
        serde_json::Value::Null => Json::Null,
        serde_json::Value::Bool(b) => Json::Bool(b),
        serde_json::Value::Number(n) => Json::Number(n.to_string()),
        serde_json::Value::String(s) => Json::Str(s),
        serde_json::Value::Array(a) => Json::Array(a.into_iter().map(value).collect()),
        serde_json::Value::Object(o) => {
            Json::Object(o.into_iter().map(|(k, v)| (k, value(v))).collect())
        }
    }
}

fn json(s: &str) -> Json {
    value(serde_json::from_str(s).unwrap())
}

fn host() -> Assistant {
    let variant = format!("{:?}", HookVariant::ClaudePreRead);
    let name = variant.replace("PreRead", "");
    Assistant {
        product: format!("{name} Code"),
        dir: format!(".{}", name.to_lowercase()),
        memory: format!("{}.md", name.to_uppercase()),
        name,
    }
}

fn rules(write: &[&str], read: &[&str]) -> SandboxRules {
    let mut deny_write = StrSet::new();
    let mut deny_read = StrSet::new();
    for w in write {
        deny_write.insert(w.to_string());
    }
    for r in read {
        deny_read.insert(r.to_string());
    }
    SandboxRules { deny_read, deny_write }
}

fn entries(root: &Json, key: &str) -> Option<Vec<String>> {
    match root.get("sandbox")?.get("filesystem")?.get(key)? {
        Json::Array(v) => Some(v.iter().filter_map(|j| j.as_text()).collect()),
        _ => None,
    }
}

#[test]
fn crown_jewel_maps_to_deny_write_relative() {
    let t = sv(&["crown-jewel"]);
    let f = sv(&["./src/payments/fraud.rs"]);
    let r = compile_relative(&vec![sel(&t, true, &f)]);
    assert!(r.deny_write.contains("src/payments/fraud.rs"));
    assert!(r.deny_read.is_empty());
}

#[test]
fn deny_read_tag_and_compose() {
    let t = sv(&["crown-jewel", "sandbox-deny-read"]);
    let f = sv(&["secrets/key.pem"]);
    let r = compile_relative(&vec![sel(&t, true, &f)]);
    assert!(r.deny_write.contains("secrets/key.pem"));
    assert!(r.deny_read.contains("secrets/key.pem"));
}

#[test]
fn unconfirmed_inactive_and_untagged_contribute_nothing() {
    let t = sv(&["crown-jewel"]);
    let f = sv(&["src/x.rs"]);
    // unconfirmed
    assert!(compile_relative(&vec![sel(&t, false, &f)]).is_empty());
    // inactive (tombstoned/superseded)
    let inactive = GotchaSel { tags: &t, active: false, confirmed: true, files: &f };
    assert!(compile_relative(&vec![inactive]).is_empty());
    // untagged
    let untagged = sv(&["enriched", "depth:deep"]);
    assert!(compile_relative(&vec![sel(&untagged, true, &f)]).is_empty());
}

#[test]
fn is_mati_owned_only_under_repo() {
    let repo = "/work/repo";
    assert!(is_mati_owned("/work/repo/src/x.rs", repo));
    assert!(!is_mati_owned("/work/other/x.rs", repo));
    assert!(!is_mati_owned("~/.ssh/id_rsa", repo));
    assert!(!is_mati_owned("./src/x.rs", repo));
}

#[test]
fn apply_preserves_user_entries_and_owns_in_repo() {
    let repo = "/work/repo";
    let existing = json(
        r#"{
            "sandbox": { "filesystem": { "denyWrite": ["~/.ssh", "/work/repo/OLD.rs"] } },
            "env": { "X": "1" }
        }"#,
    );
    let out = apply_into_settings(existing, repo, &rules(&["/work/repo/src/new.rs"], &[]));
    let set = entries(&out, "denyWrite").unwrap();
    assert!(set.contains(&"~/.ssh".to_string()), "user entry preserved");
    assert!(set.contains(&"/work/repo/src/new.rs".to_string()), "new mati entry present");
    assert!(!set.contains(&"/work/repo/OLD.rs".to_string()), "stale in-repo entry dropped");
    assert_eq!(
        out.get("env").unwrap().text_of("X").as_deref(),
        Some("1"),
        "unrelated settings untouched"
    );
}

#[test]
fn apply_is_idempotent() {
    let repo = "/work/repo";
    let abs = rules(&[], &["/work/repo/.env"]);
    let once = apply_into_settings(json("{}"), repo, &abs);
    let again = apply_into_settings(json("{}"), repo, &abs);
    let twice = apply_into_settings(again, repo, &abs);
    assert_eq!(once, twice);
}

#[test]
fn clear_removes_only_in_repo_entries() {
    let repo = "/work/repo";
    let existing = json(
        r#"{
            "sandbox": { "filesystem": {
                "denyWrite": ["/work/repo/a.rs", "~/.aws"],
                "denyRead": ["/work/repo/.env"]
            } }
        }"#,
    );
    let out = clear_from_settings(existing, repo);
    assert_eq!(
        entries(&out, "denyWrite").unwrap(),
        vec!["~/.aws"],
        "user entry kept, mati entry removed"
    );
    // denyRead had only an in-repo entry, so the array is gone
    assert!(out.get("sandbox").unwrap().get("filesystem").unwrap().get("denyRead").is_none());
}

#[test]
fn clear_undoes_apply() {
    let repo = "/work/repo";
    let abs = rules(&["/work/repo/b.rs"], &["/work/repo/.env"]);
    let texts = [
        r#"{"sandbox":{"filesystem":{}}}"#,
        r#"{"a":1,"sandbox":{"x":2,"filesystem":{"denyRead":["~/.ssh"],"allow":[]}},"z":3}"#,
        r#"{"sandbox":{"filesystem":{"denyWrite":["/work/repo/a.rs"],"denyRead":["~/.aws"]}}}"#,
    ];
    for t in texts {
        let applied = apply_into_settings(json(t), repo, &abs);
        assert_ne!(applied, json(t));
        assert_eq!(clear_from_settings(applied, repo), clear_from_settings(json(t), repo), "{t}");
    }
    let bare = apply_into_settings(json(r#"{"a":1}"#), repo, &abs);
    assert_eq!(
        clear_from_settings(bare, repo),
        json(r#"{"a":1,"sandbox":{"filesystem":{}}}"#),
        "an empty object is left"
    );
}

#[test]
fn clear_keeps_other_settings() {
    let kept = r#"{"a":1,"sandbox":{"x":2,"filesystem":{"allow":["/work/repo/a.rs"]}}}"#;
    assert_eq!(clear_from_settings(json(kept), "/work/repo"), json(kept));
    assert_eq!(clear_from_settings(json(r#"{"a":1}"#), "/work/repo"), json(r#"{"a":1}"#));
}

#[test]
fn validate_rejects_malformed_shape() {
    assert!(validate_sandbox_shape(&json(r#"{"sandbox": "on"}"#)).is_err());
    assert!(validate_sandbox_shape(&json(r#"{"sandbox": {"filesystem": []}}"#)).is_err());
    assert!(
        validate_sandbox_shape(&json(r#"{"sandbox": {"filesystem": {"denyRead": "x"}}}"#)).is_err()
    );
    assert!(
        validate_sandbox_shape(&json(r#"{"sandbox": {"filesystem": {"denyRead": ["x"]}}}"#)).is_ok()
    );
    assert!(validate_sandbox_shape(&json("{}")).is_ok());
}

#[test]
fn each_malformed_shape_has_its_error() {
    let err = |s: &str| validate_sandbox_shape(&json(s)).unwrap_err();
    assert_eq!(err(r#"{"sandbox": 1}"#), ShapeError::SandboxNotObject);
    assert_eq!(err(r#"{"sandbox": {"filesystem": 1}}"#), ShapeError::FilesystemNotObject);
    assert_eq!(
        err(r#"{"sandbox": {"filesystem": {"denyRead": {}}}}"#),
        ShapeError::DenyReadNotArray
    );
    assert_eq!(
        err(r#"{"sandbox": {"filesystem": {"denyWrite": 1}}}"#),
        ShapeError::DenyWriteNotArray
    );
}

#[test]
fn add_and_remove_tags_dedupe() {
    let mut tags = sv(&["enriched"]);
    add_tags(&mut tags, &vec!["crown-jewel", "sandbox-deny-read"]);
    add_tags(&mut tags, &vec!["crown-jewel"]); // idempotent
    assert_eq!(tags.iter().filter(|t| *t == "crown-jewel").count(), 1);
    assert!(tags.contains(&"sandbox-deny-read".to_string()));
    remove_tags(&mut tags, &vec!["crown-jewel", "sandbox-deny-read"]);
    assert_eq!(tags, sv(&["enriched"]), "only the sandbox tags are removed");
}

#[test]
fn drifted_removals_flags_dropped_tag_only() {
    let repo = "/work/repo";
    let existing = json(
        r#"{ "sandbox": { "filesystem": {
            "denyWrite": ["/work/repo/still.rs", "/work/repo/dropped.rs", "~/.ssh"]
        } } }"#,
    );
    let drift = drifted_removals(&existing, repo, &rules(&["/work/repo/still.rs"], &[]));
    assert!(drift.contains("/work/repo/dropped.rs"), "tag-dropped entry flagged");
    assert!(!drift.contains("/work/repo/still.rs"), "still-protected not flagged");
    assert!(!drift.contains("~/.ssh"), "user entry never flagged");
}

#[test]
fn resolve_clamps_to_repo_and_handles_missing_leaf() {
    let repo = "/work/repo";
    assert!(resolve_under_repo(repo, &Some("/work/repo/src/exists.rs".to_string())));
    assert!(resolve_under_repo(repo, &Some("/work/repo/src/not_yet.rs".to_string())));
    assert!(!resolve_under_repo(repo, &Some("/work/escape.rs".to_string())));
    assert!(!resolve_under_repo(repo, &None));
}

#[test]
fn what_lies_outside_is_skipped() {
    let write = vec![
        Resolved { rel: "src/a.rs".to_string(), absolute: Some("/work/repo/src/a.rs".to_string()) },
        Resolved { rel: "../b.rs".to_string(), absolute: Some("/work/b.rs".to_string()) },
    ];
    let read = vec![Resolved { rel: "gone".to_string(), absolute: None }];
    let (abs, skipped) = resolve_rules("/work/repo", &write, &read);
    assert!(abs.deny_write.contains("/work/repo/src/a.rs"));
    assert_eq!(abs.deny_write.len(), 1);
    assert!(abs.deny_read.is_empty());
    assert!(skipped.contains("../b.rs"));
    assert!(skipped.contains("gone"));
}

#[test]
fn blast_radius_lists_only_extra_files() {
    assert!(blast_radius("src/a.rs", &sv(&["src/a.rs"])).is_empty());
    let extra = blast_radius("src/a.rs", &sv(&["src/a.rs", "./src/b.rs", "src/c.rs"]));
    assert_eq!(extra, sv(&["src/b.rs", "src/c.rs"]), "normalized, target excluded");
}

#[test]
fn materialize_guard_blocks_drift_unless_forced() {
    let repo = "/work/repo";
    let text = r#"{"sandbox":{"filesystem":{"denyWrite":["/work/repo/x.rs"]}}}"#;
    let empty = rules(&[], &[]);
    // guarded + drift + not forced: refused
    match materialize(json(text), repo, &empty, true, false) {
        Materialized::Refused(lost) => assert!(lost.contains("/work/repo/x.rs")),
        Materialized::Write { .. } => panic!("expected a refusal"),
    }
    // forced: the drifted entry goes
    match materialize(json(text), repo, &empty, true, true) {
        Materialized::Write { settings, removals } => {
            assert!(removals.contains("/work/repo/x.rs"));
            assert!(entries(&settings, "denyWrite").is_none());
        }
        Materialized::Refused(_) => panic!("expected a write"),
    }
}

#[test]
fn nothing_drifts_right_after_an_apply() {
    let repo = "/work/repo";
    let abs = rules(&["/work/repo/b.rs", "/work/repo/a.rs"], &["/work/repo/.env"]);
    let out = apply_into_settings(json(r#"{"sandbox":{"x":1}}"#), repo, &abs);
    assert!(drifted_removals(&out, repo, &abs).is_empty());
    assert_eq!(entries(&out, "denyWrite").unwrap(), vec!["/work/repo/a.rs", "/work/repo/b.rs"]);
    assert!(drifted_removals(&clear_from_settings(out, repo), repo, &rules(&[], &[])).is_empty());
}

fn gotcha(key: &str, tags: &[&str], confirmed: bool, files: &[&str]) -> SandboxGotcha {
    SandboxGotcha {
        key: key.to_string(),
        tags: sv(tags),
        active: true,
        confirmed,
        files: sv(files),
    }
}

#[test]
fn protecting_is_planned_by_the_gotchas_that_cover_a_file() {
    let gs = vec![
        gotcha("gotcha:a", &[], true, &["./src/a.rs"]),
        gotcha("gotcha:b", &[], false, &["src/a.rs"]),
        gotcha("gotcha:c", &[], true, &["src/a.rs", "src/b.rs"]),
    ];
    assert!(covers_file(&gs[0], "src/a.rs"));
    assert!(!covers_file(&gs[1], "src/a.rs"));
    assert!(matches!(plan_protect(&gs, "src/none.rs", false), ProtectPlan::NoGotcha));
    match plan_protect(&gs, "src/a.rs", false) {
        ProtectPlan::TooBroad { index, others } => {
            assert_eq!(index, 2);
            assert_eq!(others, vec!["src/b.rs"]);
        }
        other => panic!("expected a refusal, got {other:?}"),
    }
    assert_eq!(plan_protect(&gs, "src/a.rs", true), ProtectPlan::Retag(vec![0, 2]));
}

#[test]
fn tags_follow_the_request() {
    let mut tags = sv(&["enriched"]);
    retag(&mut tags, true, false);
    assert_eq!(tags, sv(&["enriched", "crown-jewel"]));
    retag(&mut tags, true, true);
    assert!(tags.contains(&"sandbox-deny-read".to_string()));
    retag(&mut tags, false, true);
    assert_eq!(tags, sv(&["enriched"]));
}

#[test]
fn unusable_tags_are_warned_about() {
    assert!(tag_warning(&gotcha("gotcha:a", &["crown-jewel"], false, &["x"]))
        .unwrap()
        .contains("not confirmed"));
    assert!(tag_warning(&gotcha("gotcha:a", &["crown-jewel"], true, &[]))
        .unwrap()
        .contains("no affected_files"));
    assert!(tag_warning(&gotcha("gotcha:a", &["crown-jewel"], true, &["x"])).is_none());
    assert!(tag_warning(&gotcha("gotcha:a", &[], false, &[])).is_none());
}

#[test]
fn sandbox_texts() {
    for p in ["src/x.rs", "./src/x.rs", "/src/x.rs", "/./src/x.rs", ".//src/x.rs", ".\\src\\x.rs"] {
        assert_eq!(normalize_rel(p), "src/x.rs", "{p}");
    }
    assert_eq!(normalize_rel("././/./"), "");
    assert_eq!(normalize_rel("../x"), "../x");
    let h = host();
    assert_eq!(
        settings_local_path("/work/repo", &h),
        format!("/work/repo/{}/settings.local.json", h.dir)
    );
    assert_eq!(
        applied_line(&rules(&["/a"], &[]), "/p"),
        "Applied 1 denyWrite + 0 denyRead entry to /p"
    );
    assert_eq!(
        applied_line(&rules(&["/a"], &["/b"]), "/p"),
        "Applied 1 denyWrite + 1 denyRead entries to /p"
    );
    assert!(preview(&rules(&["/a"], &[]), "/p", &h).join("\n").contains("/a"));
}
