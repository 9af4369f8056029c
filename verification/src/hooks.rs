//! The commands that hook scripts run. They go through the daemon's socket only,
//! and where it does not answer they give a safe default.
use vstd::prelude::*;
use crate::daemon::DaemonResult;
use crate::json;
use crate::json::Json;
use crate::json::JsonView;
use crate::paths;
use crate::text;

verus! {

/// What a hook script asks of the daemon.
#[derive(Debug, PartialEq, Eq)]
pub enum HookCommand {
    Get { key: String },
    LogMiss { key: String },
    LogHit { key: String },
    /// A hit and a new parse in one round trip.
    EditHook { path: String },
    DocCapture { path: String, content: String },
    LogComplianceMiss { key: String },
    LogComplianceHit { key: String },
    LogCodexShellMiss { key: String },
    LogBootstrap { key: String },
    LogPromptNudge { key: String },
    SessionCheckConsulted { key: String },
    SessionCheckConsultedRecent { key: String, ttl_secs: u64 },
    SessionFlush,
    SessionHarvest,
}

/// The name under which the daemon knows a command.
pub open spec fn command_name(c: HookCommand) -> Seq<char> {
    match c {
        HookCommand::Get { .. } => "get"@,
        HookCommand::LogMiss { .. } => "log_miss"@,
        HookCommand::LogHit { .. } => "log_hit"@,
        HookCommand::EditHook { .. } => "edit_hook"@,
        HookCommand::DocCapture { .. } => "doc_capture"@,
        HookCommand::LogComplianceMiss { .. } => "log_compliance_miss"@,
        HookCommand::LogComplianceHit { .. } => "log_compliance_hit"@,
        HookCommand::LogCodexShellMiss { .. } => "log_codex_shell_miss"@,
        HookCommand::LogBootstrap { .. } => "log_bootstrap"@,
        HookCommand::LogPromptNudge { .. } => "log_prompt_nudge"@,
        HookCommand::SessionCheckConsulted { .. } => "session_check_consulted"@,
        HookCommand::SessionCheckConsultedRecent { .. } => "session_check_consulted_recent"@,
        HookCommand::SessionFlush => "session_flush"@,
        HookCommand::SessionHarvest => "session_harvest"@,
    }
}

/// The arguments that go with a command.
pub open spec fn command_args(c: HookCommand) -> Seq<(Seq<char>, JsonView)> {
    match c {
        HookCommand::Get { key } => seq![("key"@, JsonView::Str(key@))],
        HookCommand::LogMiss { key } => seq![("key"@, JsonView::Str(key@))],
        HookCommand::LogHit { key } => seq![("key"@, JsonView::Str(key@))],
        HookCommand::EditHook { path } => seq![("path"@, JsonView::Str(path@))],
        HookCommand::DocCapture { path, content } => seq![
            ("path"@, JsonView::Str(path@)),
            ("content"@, JsonView::Str(content@)),
        ],
        HookCommand::LogComplianceMiss { key } => seq![("key"@, JsonView::Str(key@))],
        HookCommand::LogComplianceHit { key } => seq![("key"@, JsonView::Str(key@))],
        HookCommand::LogCodexShellMiss { key } => seq![("key"@, JsonView::Str(key@))],
        HookCommand::LogBootstrap { key } => seq![("key"@, JsonView::Str(key@))],
        HookCommand::LogPromptNudge { key } => seq![("key"@, JsonView::Str(key@))],
        HookCommand::SessionCheckConsulted { key } => seq![("key"@, JsonView::Str(key@))],
        HookCommand::SessionCheckConsultedRecent { key, ttl_secs } => seq![
            ("key"@, JsonView::Str(key@)),
            ("ttl_secs"@, JsonView::Number(text::dec(ttl_secs as nat))),
        ],
        HookCommand::SessionFlush => Seq::empty(),
        HookCommand::SessionHarvest => Seq::empty(),
    }
}

/// An object with one text.
fn one(name: &str, value: String) -> (r: Json)
    ensures
        r@ == JsonView::Object(seq![(name@, JsonView::Str(value@))]),
{
    let mut m: Vec<(String, Json)> = Vec::new();
    m.push((name.to_owned(), Json::Str(value)));
    proof {
        json::lemma_object_view(m);
        assert(json::members(m@) =~= seq![(name@, JsonView::Str(value@))]);
    }
    Json::Object(m)
}

/// An object with two members.
fn two(name: &str, value: String, other: &str, second: Json) -> (r: Json)
    ensures
        r@ == JsonView::Object(seq![(name@, JsonView::Str(value@)), (other@, second@)]),
{
    let mut m: Vec<(String, Json)> = Vec::new();
    m.push((name.to_owned(), Json::Str(value)));
    m.push((other.to_owned(), second));
    proof {
        json::lemma_object_view(m);
        assert(json::members(m@) =~= seq![(name@, JsonView::Str(value@)), (other@, second@)]);
    }
    Json::Object(m)
}

fn empty() -> (r: Json)
    ensures
        r@ == JsonView::Object(Seq::empty()),
{
    let m: Vec<(String, Json)> = Vec::new();
    proof {
        json::lemma_object_view(m);
        assert(json::members(m@) =~= Seq::empty());
    }
    Json::Object(m)
}

/// The name and the arguments that are sent for a command.
pub fn hook_request(command: HookCommand) -> (r: (String, Json))
    ensures
        r.0@ == command_name(command),
        r.1@ == JsonView::Object(command_args(command)),
{
    match command {
        HookCommand::Get { key } => ("get".to_owned(), one("key", key)),
        HookCommand::LogMiss { key } => ("log_miss".to_owned(), one("key", key)),
        HookCommand::LogHit { key } => ("log_hit".to_owned(), one("key", key)),
        HookCommand::EditHook { path } => ("edit_hook".to_owned(), one("path", path)),
        HookCommand::DocCapture { path, content } => (
            "doc_capture".to_owned(),
            two("path", path, "content", Json::Str(content)),
        ),
        HookCommand::LogComplianceMiss { key } => (
            "log_compliance_miss".to_owned(),
            one("key", key),
        ),
        HookCommand::LogComplianceHit { key } => (
            "log_compliance_hit".to_owned(),
            one("key", key),
        ),
        HookCommand::LogCodexShellMiss { key } => (
            "log_codex_shell_miss".to_owned(),
            one("key", key),
        ),
        HookCommand::LogBootstrap { key } => ("log_bootstrap".to_owned(), one("key", key)),
        HookCommand::LogPromptNudge { key } => ("log_prompt_nudge".to_owned(), one("key", key)),
        HookCommand::SessionCheckConsulted { key } => (
            "session_check_consulted".to_owned(),
            one("key", key),
        ),
        HookCommand::SessionCheckConsultedRecent { key, ttl_secs } => (
            "session_check_consulted_recent".to_owned(),
            two("key", key, "ttl_secs", Json::Number(text::decimal(ttl_secs))),
        ),
        HookCommand::SessionFlush => ("session_flush".to_owned(), empty()),
        HookCommand::SessionHarvest => ("session_harvest".to_owned(), empty()),
    }
}

/// What an answer carries; null where there is no answer or it carries nothing.
pub open spec fn answer_data(r: DaemonResult) -> JsonView {
    match r {
        DaemonResult::Answer(e) => match json::member(e@, "data"@) {
            Some(d) => d,
            None => JsonView::Null,
        },
        _ => JsonView::Null,
    }
}

/// The value that `get` prints; none stands for null, which lets the read through.
pub fn fetched(result: &DaemonResult) -> (r: Option<&Json>)
    ensures
        match r {
            Some(d) => d@ == answer_data(*result) && d@ !is Null,
            None => answer_data(*result) is Null,
        },
{
    match result {
        DaemonResult::Answer(e) => match e.get("data") {
            Some(d) => match d {
                Json::Null => None,
                _ => Some(d),
            },
            None => None,
        },
        _ => None,
    }
}

/// Whether a key was consulted: what the answer says, and no where it does not.
pub fn consulted(result: &DaemonResult) -> (r: bool)
    ensures
        r == (answer_data(*result) == JsonView::Bool(true)),
{
    match fetched(result) {
        Some(d) => match d {
            Json::Bool(b) => *b,
            _ => false,
        },
        None => false,
    }
}

/// The path of an edited file below the working directory; one that lies elsewhere
/// is kept as it is.
pub fn edited_path(path: &str, cwd: &str) -> (r: String)
    ensures
        r@ == (match paths::below(path@, cwd@) {
            Some(p) => p,
            None => path@,
        }),
{
    match paths::strip_base(path, cwd) {
        Some(p) => p,
        None => path.to_owned(),
    }
}

/// Where the daemon does not answer, nothing is fetched and nothing counts as
/// consulted.
pub proof fn law_hooks_fail_open(r: DaemonResult)
    requires
        r !is Answer,
    ensures
        answer_data(r) == JsonView::Null,
        answer_data(r) != JsonView::Bool(true),
{
}

/// Each command has a name of its own: what is logged as a hit is no miss, and what
/// is looked up is not written.
pub proof fn law_commands_keep_their_names(c: HookCommand)
    ensures
        command_name(c) == "get"@ <==> c is Get,
        command_name(c) == "log_miss"@ <==> c is LogMiss,
        command_name(c) == "log_hit"@ <==> c is LogHit,
        command_name(c) == "edit_hook"@ <==> c is EditHook,
        command_name(c) == "doc_capture"@ <==> c is DocCapture,
        command_name(c) == "log_compliance_miss"@ <==> c is LogComplianceMiss,
        command_name(c) == "log_compliance_hit"@ <==> c is LogComplianceHit,
        command_name(c) == "log_codex_shell_miss"@ <==> c is LogCodexShellMiss,
        command_name(c) == "log_bootstrap"@ <==> c is LogBootstrap,
        command_name(c) == "log_prompt_nudge"@ <==> c is LogPromptNudge,
        command_name(c) == "session_check_consulted"@ <==> c is SessionCheckConsulted,
        command_name(c) == "session_check_consulted_recent"@ <==> c is SessionCheckConsultedRecent,
        command_name(c) == "session_flush"@ <==> c is SessionFlush,
        command_name(c) == "session_harvest"@ <==> c is SessionHarvest,
{
    reveal_strlit("get");
    reveal_strlit("log_miss");
    reveal_strlit("log_hit");
    reveal_strlit("edit_hook");
    reveal_strlit("doc_capture");
    reveal_strlit("log_compliance_miss");
    reveal_strlit("log_compliance_hit");
    reveal_strlit("log_codex_shell_miss");
    reveal_strlit("log_bootstrap");
    reveal_strlit("log_prompt_nudge");
    reveal_strlit("session_check_consulted");
    reveal_strlit("session_check_consulted_recent");
    reveal_strlit("session_flush");
    reveal_strlit("session_harvest");
    assert(command_name(c).len() == (match c {
        HookCommand::Get { .. } => 3nat,
        HookCommand::LogMiss { .. } => 8nat,
        HookCommand::LogHit { .. } => 7nat,
        HookCommand::EditHook { .. } => 9nat,
        HookCommand::DocCapture { .. } => 11nat,
        HookCommand::LogComplianceMiss { .. } => 19nat,
        HookCommand::LogComplianceHit { .. } => 18nat,
        HookCommand::LogCodexShellMiss { .. } => 20nat,
        HookCommand::LogBootstrap { .. } => 13nat,
        HookCommand::LogPromptNudge { .. } => 16nat,
        HookCommand::SessionCheckConsulted { .. } => 23nat,
        HookCommand::SessionCheckConsultedRecent { .. } => 30nat,
        HookCommand::SessionFlush => 13nat,
        HookCommand::SessionHarvest => 15nat,
    }));
    assert("log_bootstrap"@[0] == 'l' && "session_flush"@[0] == 's');
}

/// A command is about what it was given.
pub proof fn law_commands_carry_their_subject(c: HookCommand)
    ensures
        c matches HookCommand::Get { key } ==> json::lookup(command_args(c), "key"@) == Some(
            JsonView::Str(key@),
        ),
        c matches HookCommand::LogMiss { key } ==> json::lookup(command_args(c), "key"@) == Some(
            JsonView::Str(key@),
        ),
        c matches HookCommand::LogHit { key } ==> json::lookup(command_args(c), "key"@) == Some(
            JsonView::Str(key@),
        ),
        c matches HookCommand::LogComplianceMiss { key } ==> json::lookup(command_args(c), "key"@) == Some(
            JsonView::Str(key@),
        ),
        c matches HookCommand::LogComplianceHit { key } ==> json::lookup(command_args(c), "key"@) == Some(
            JsonView::Str(key@),
        ),
        c matches HookCommand::LogCodexShellMiss { key } ==> json::lookup(command_args(c), "key"@) == Some(
            JsonView::Str(key@),
        ),
        c matches HookCommand::LogBootstrap { key } ==> json::lookup(command_args(c), "key"@) == Some(
            JsonView::Str(key@),
        ),
        c matches HookCommand::LogPromptNudge { key } ==> json::lookup(command_args(c), "key"@) == Some(
            JsonView::Str(key@),
        ),
        c matches HookCommand::SessionCheckConsulted { key } ==> json::lookup(command_args(c), "key"@) == Some(
            JsonView::Str(key@),
        ),
        c matches HookCommand::SessionCheckConsultedRecent { key, .. } ==> json::lookup(command_args(c), "key"@) == Some(
            JsonView::Str(key@),
        ),
        c matches HookCommand::EditHook { path } ==> json::lookup(command_args(c), "path"@) == Some(
            JsonView::Str(path@),
        ),
        c matches HookCommand::DocCapture { path, content } ==> json::lookup(
            command_args(c),
            "path"@,
        ) == Some(JsonView::Str(path@)) && json::lookup(command_args(c), "content"@) == Some(
            JsonView::Str(content@),
        ),
        c matches HookCommand::SessionCheckConsultedRecent { ttl_secs, .. } ==> json::lookup(
            command_args(c),
            "ttl_secs"@,
        ) == Some(JsonView::Number(text::dec(ttl_secs as nat))),
{
    reveal_strlit("key");
    reveal_strlit("path");
    reveal_strlit("content");
    reveal_strlit("ttl_secs");
    assert("key"@.len() == 3 && "path"@.len() == 4 && "content"@.len() == 7 && "ttl_secs"@.len() == 8);
    reveal_with_fuel(json::lookup, 3);
    let m = command_args(c);
    if m.len() == 2 {
        assert(m.skip(1)[0] == m[1]);
    }
}

/// What the daemon answered is handed on; without an answer a file counts as not
/// consulted.
pub proof fn law_answers_are_handed_on(r: DaemonResult)
    ensures
        r matches DaemonResult::Answer(e) ==> (json::member(e@, "data"@) matches Some(d)
            ==> answer_data(r) == d),
        answer_data(r) == JsonView::Bool(true) ==> r is Answer,
{
}

} // verus!
