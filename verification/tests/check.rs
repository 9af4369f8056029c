//! The installation checks.
use mati::check::{
    check_awk_float_math, check_daemon, check_git_repo, check_hooks, check_mati_on_path,
    check_settings_json, check_store, exit_code, results, tally, CheckItem, CheckStatus, HookFile,
    Ran, Settings,
};
use mati::daemon::Ping;
use mati::hook::HookVariant;
use mati::host::Assistant;
use mati::json::Json;

const HOOKS: [&str; 3] = ["pre-read.sh", "pre-bash.sh", "post-edit.sh"];

fn host() -> Assistant {
    let variant = format!("{:?}", HookVariant::ClaudePreRead);
    let name = variant.replace("PreRead", "");
    Assistant {
        product: format!("{name} Code"),
        dir: format!(".{}", name.to_lowercase()),
        memory: format!("{}.md", name.to_uppercase()),
        name,
    }
}

fn value(v: serde_json::Value) -> Json {
    match v {
        serde_json::Value::Null => Json::Null,
        serde_json::Value::Bool(b) => Json::Bool(b),
        serde_json::Value::Number(n) => Json::Number(n.to_string()),
        serde_json::Value::String(s) => Json::Str(s),
        serde_json::Value::Array(a) => Json::Array(a.into_iter().map(value).collect()),
        serde_json::Value::Object(o) => {
            Json::Object(o.into_iter().map(|(k, v)| (k, value(v))).collect())
        }
    }
}

fn read(text: &str) -> Settings {
    Settings::Read {
        content: text.to_string(),
        value: value(serde_json::from_str(text).unwrap()),
    }
}

fn names() -> Vec<String> {
    HOOKS.iter().map(|s| s.to_string()).collect()
}

fn entries(names: &[&str]) -> String {
    let dir = host().dir;
    let v: Vec<String> = names.iter().map(|n| format!("\"{dir}/hooks/{n}\"")).collect();
    v.join(", ")
}

#[test]
fn check_awk_float_math_passes() {
    let item = check_awk_float_math(&Ran::Ended { success: true, stdout: "ok\n".to_string() });
    assert!(matches!(item.status, CheckStatus::Pass(_)));
}

#[test]
fn check_awk_fail_produces_non_ok_output() {
    let item = check_awk_float_math(&Ran::Ended { success: true, stdout: "fail\n".to_string() });
    assert!(!matches!(item.status, CheckStatus::Pass(_)));
    assert!(!matches!(check_awk_float_math(&Ran::NotFound).status, CheckStatus::Pass(_)));
}

#[test]
fn check_hook_executable_detection_catches_missing_bit() {
    let mut hooks: Vec<HookFile> =
        HOOKS.iter().map(|n| HookFile { name: n.to_string(), mode: Some(0o755) }).collect();
    hooks[0].mode = Some(0o644);
    let item = check_hooks(&hooks);
    assert!(
        item.is_fail(),
        "expected FAIL when first hook is not executable: {:?}",
        item.status
    );
}

#[test]
fn check_hook_passes_when_all_installed_and_executable() {
    let hooks: Vec<HookFile> =
        HOOKS.iter().map(|n| HookFile { name: n.to_string(), mode: Some(0o755) }).collect();
    let item = check_hooks(&hooks);
    assert!(
        !item.is_fail(),
        "expected PASS when all hooks are present and executable: {:?}",
        item.status
    );
}

#[test]
fn a_hook_that_is_not_there_fails() {
    let hooks = vec![HookFile { name: "pre-read.sh".to_string(), mode: None }];
    assert!(check_hooks(&hooks).is_fail());
}

#[test]
fn check_settings_json_valid_passes() {
    let text = format!(
        r#"{{
  "hooks": {{ "PreToolUse": [{}] }},
  "mcpServers": {{ "mati": {{ "command": "mati", "args": ["serve"] }} }}
}}"#,
        entries(&HOOKS)
    );
    let item = check_settings_json(&read(&text), &host(), &names());
    assert!(!item.is_fail(), "expected PASS for valid settings.json: {:?}", item.status);
}

#[test]
fn check_settings_json_missing_hook_fails() {
    let text = format!(
        r#"{{
  "hooks": {{ "PreToolUse": [{}] }},
  "mcpServers": {{ "mati": {{ "command": "mati", "args": ["serve"] }} }}
}}"#,
        entries(&HOOKS[..1])
    );
    let item = check_settings_json(&read(&text), &host(), &names());
    assert!(
        item.is_fail(),
        "expected FAIL when hooks are missing from settings.json: {:?}",
        item.status
    );
    assert_eq!(
        item.status,
        CheckStatus::Fail("hooks absent: pre-bash.sh, post-edit.sh".to_string())
    );
}

#[test]
fn check_settings_json_missing_mcp_fails() {
    let text = format!(r#"{{ "hooks": {{ "PreToolUse": [{}] }} }}"#, entries(&HOOKS));
    let item = check_settings_json(&read(&text), &host(), &names());
    assert!(
        item.is_fail(),
        "expected FAIL when mcpServers.mati is absent: {:?}",
        item.status
    );
}

#[test]
fn settings_that_cannot_be_read_fail() {
    for s in [
        Settings::Absent,
        Settings::Unreadable("denied".to_string()),
        Settings::Invalid("line 1".to_string()),
    ] {
        assert!(check_settings_json(&s, &host(), &names()).is_fail());
    }
}

#[test]
fn surroundings_are_checked() {
    assert!(!check_git_repo(true).is_fail());
    assert!(!matches!(check_git_repo(false).status, CheckStatus::Pass(_)));
    assert!(!check_store(&Ok("/s".to_string()), true).is_fail());
    assert!(!matches!(check_store(&Ok("/s".to_string()), false).status, CheckStatus::Pass(_)));
    assert!(check_store(&Err("no home".to_string()), false).is_fail());
    assert!(!matches!(check_mati_on_path(&Ran::NotFound).status, CheckStatus::Pass(_)));
    assert_eq!(
        check_daemon(Some((Ping::Answered, "1.5"))).status,
        CheckStatus::Pass(Some("ping 1.5ms".to_string()))
    );
    assert!(check_daemon(Some((Ping::Unresponsive, "0"))).is_fail());
    assert!(matches!(check_daemon(None).status, CheckStatus::Warn(_)));
}

#[test]
fn the_exit_code_follows_the_failures() {
    let good = vec![CheckItem::pass("a", None), CheckItem::warn("b", "w".to_string(), None)];
    assert_eq!(exit_code(&good), 0);
    assert_eq!(tally(&good), (0, 1));
    let bad = vec![CheckItem::fail("c", "f".to_string(), Some("fix".to_string()))];
    assert_eq!(exit_code(&bad), 1);
    assert!(results(&bad).join("\n").contains("fix"));
}
