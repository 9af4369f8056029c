//! From the daemon's reply on one file to the adapter's answer, and the consult
//! mandate laid over it.
use vstd::prelude::*;
use globset::GlobSet;
use crate::globs;
use crate::hook;
use crate::hook::{Decision, HookEvent, HookVariant, EventKind};
use crate::json;
use crate::json::Json;

verus! {

/// What the enforcement rules are asked about.
#[derive(Debug, PartialEq, Eq)]
pub struct EnforcementInput<'a> {
    pub rel_path: String,
    pub file_record: Option<&'a Json>,
    /// The gotcha records that the reply carries, if it carries any.
    pub gotcha_records: Option<&'a Json>,
    pub already_consulted: bool,
}

/// What the enforcement rules answered.
#[derive(Debug, PartialEq, Eq)]
pub struct EnforcementResult {
    pub decision: Decision,
    pub events: Vec<HookEvent>,
}

/// The complete answer of the adapter for one file.
#[derive(Debug, PartialEq, Eq)]
pub struct AdapterResult {
    pub stdout: String,
    pub stderr: String,
    /// 2 where Codex is refused, else 0.
    pub exit_code: i32,
    /// The events to record, already in the platform's terms.
    pub events: Vec<HookEvent>,
    pub decision: Decision,
}

#[verifier::ext_equal]
pub struct AdapterView {
    pub output: hook::OutputView,
    pub events: Seq<hook::EventView>,
    pub decision: hook::DecisionView,
}

impl View for AdapterResult {
    type V = AdapterView;

    open spec fn view(&self) -> AdapterView {
        AdapterView {
            output: hook::OutputView {
                stdout: self.stdout@,
                stderr: self.stderr@,
                exit_code: self.exit_code as int,
            },
            events: hook::event_views(self.events@),
            decision: self.decision@,
        }
    }
}

impl AdapterResult {
    /// Whether the access is refused.
    pub fn denies(&self) -> (r: bool)
        ensures
            r == self@.decision is Deny,
    {
        matches!(self.decision, Decision::Deny { .. })
    }
}

/// Whether a check of a daemon reply stops enforcement.
#[derive(Debug, PartialEq, Eq)]
pub enum EvalDataCheck<'a> {
    Proceed(EnforcementInput<'a>),
    FailOpen(String),
}

/// The variants that ask for a recent consultation rather than any.
pub open spec fn wants_recent(variant: HookVariant) -> bool {
    match variant {
        HookVariant::ClaudePreRead | HookVariant::ClaudePreBash => false,
        _ => true,
    }
}

pub fn recent(variant: HookVariant) -> (r: bool)
    ensures
        r == wants_recent(variant),
{
    match variant {
        HookVariant::ClaudePreRead | HookVariant::ClaudePreBash => false,
        _ => true,
    }
}

/// Whether a reply says that the actor consulted the file.
pub open spec fn consulted_in(data: json::JsonView, recent: bool) -> bool {
    json::is_true(json::member(data, if recent { "consulted_recent"@ } else { "consulted"@ }))
}

/// The actor's consultation status in a reply.
pub fn consulted_flag(eval_data: &Json, include_recent: bool) -> (r: bool)
    ensures
        r == consulted_in(eval_data@, include_recent),
{
    if include_recent {
        eval_data.flag("consulted_recent")
    } else {
        eval_data.flag("consulted")
    }
}

/// The file record of a reply; `null` counts as absent.
pub open spec fn file_record_in(data: json::JsonView) -> Option<json::JsonView> {
    match json::member(data, "file_record"@) {
        Some(json::JsonView::Null) => None,
        r => r,
    }
}

/// The gotcha records of a reply, where they are an object.
pub open spec fn gotchas_in(data: json::JsonView) -> Option<json::JsonView> {
    match json::member(data, "gotcha_records"@) {
        Some(json::JsonView::Object(m)) => Some(json::JsonView::Object(m)),
        _ => None,
    }
}

/// Why a reply cannot be enforced: the store failed and there is no file record,
/// or the gotcha records could not be read.
pub open spec fn fail_open_reason(data: json::JsonView) -> Option<Seq<char>> {
    if json::is_true(json::member(data, "store_error"@)) && file_record_in(data) is None {
        Some("store error during hook_evaluate"@)
    } else if json::is_true(json::member(data, "gotcha_error"@)) {
        Some("gotcha fetch error during hook_evaluate"@)
    } else {
        None
    }
}

fn file_record(eval_data: &Json) -> (r: Option<&Json>)
    ensures
        json::opt_view(r) == file_record_in(eval_data@),
{
    match eval_data.get("file_record") {
        Some(j) => match j {
            Json::Null => None,
            _ => Some(j),
        },
        None => None,
    }
}

fn gotcha_records(eval_data: &Json) -> (r: Option<&Json>)
    ensures
        json::opt_view(r) == gotchas_in(eval_data@),
{
    match eval_data.get("gotcha_records") {
        Some(j) => match j {
            Json::Object(m) => Some(j),
            _ => None,
        },
        None => None,
    }
}

/// Checks a reply for errors and makes the input of the enforcement rules.
pub fn check_eval_data<'a>(variant: HookVariant, rel_path: &str, eval_data: &'a Json) -> (r:
    EvalDataCheck<'a>)
    ensures
        match r {
            EvalDataCheck::FailOpen(reason) => fail_open_reason(eval_data@) == Some(reason@),
            EvalDataCheck::Proceed(input) => {
                &&& fail_open_reason(eval_data@) is None
                &&& input.rel_path@ == rel_path@
                &&& json::opt_view(input.file_record) == file_record_in(eval_data@)
                &&& json::opt_view(input.gotcha_records) == gotchas_in(eval_data@)
                &&& input.already_consulted == consulted_in(eval_data@, wants_recent(variant))
            },
        },
{
    let input = EnforcementInput {
        rel_path: rel_path.to_owned(),
        file_record: file_record(eval_data),
        gotcha_records: gotcha_records(eval_data),
        already_consulted: consulted_flag(eval_data, recent(variant)),
    };
    if eval_data.flag("store_error") && input.file_record.is_none() {
        return EvalDataCheck::FailOpen("store error during hook_evaluate".to_owned());
    }
    if eval_data.flag("gotcha_error") {
        return EvalDataCheck::FailOpen("gotcha fetch error during hook_evaluate".to_owned());
    }
    EvalDataCheck::Proceed(input)
}

/// The answer that lets an access pass without any event.
pub open spec fn open_answer(variant: HookVariant) -> AdapterView {
    AdapterView {
        output: hook::OutputView {
            stdout: hook::allow_output(variant),
            stderr: Seq::empty(),
            exit_code: 0,
        },
        events: Seq::empty(),
        decision: hook::DecisionView::Allow,
    }
}

/// The answer for a decision and the events that came with it.
pub open spec fn answer(
    variant: HookVariant,
    decision: hook::DecisionView,
    events: Seq<hook::EventView>,
) -> AdapterView {
    AdapterView {
        output: hook::output_of(variant, decision),
        events: hook::recorded(variant, decision, events),
        decision,
    }
}

/// The answer for a reply and what the enforcement rules said of it.
pub open spec fn adapted(
    variant: HookVariant,
    data: json::JsonView,
    decision: hook::DecisionView,
    events: Seq<hook::EventView>,
) -> AdapterView {
    if fail_open_reason(data) is Some {
        open_answer(variant)
    } else {
        answer(variant, decision, events)
    }
}

fn answer_of(variant: HookVariant, decision: Decision, events: Vec<HookEvent>) -> (r: AdapterResult)
    ensures
        r@ == answer(variant, decision@, hook::event_views(events@)),
{
    let events = hook::platform_events(variant, &decision, events);
    let (stdout, stderr, exit_code) = hook::format_decision(variant, &decision);
    AdapterResult { stdout, stderr, exit_code, events, decision }
}

fn open_result(variant: HookVariant) -> (r: AdapterResult)
    ensures
        r@ == open_answer(variant),
{
    let r = AdapterResult {
        stdout: hook::emit_allow(variant),
        stderr: String::new(),
        exit_code: 0,
        events: Vec::new(),
        decision: Decision::Allow,
    };
    assert(r@.events =~= Seq::<hook::EventView>::empty());
    r
}

/// Takes a reply through the adapter. `evaluated` is what the enforcement rules
/// say of the input that [`check_eval_data`] makes from the reply.
pub fn process_eval_response(
    variant: HookVariant,
    rel_path: &str,
    eval_data: &Json,
    evaluated: EnforcementResult,
) -> (r: AdapterResult)
    ensures
        r@ == adapted(
            variant,
            eval_data@,
            evaluated.decision@,
            hook::event_views(evaluated.events@),
        ),
{
    match check_eval_data(variant, rel_path, eval_data) {
        EvalDataCheck::FailOpen(_) => open_result(variant),
        EvalDataCheck::Proceed(_) => answer_of(variant, evaluated.decision, evaluated.events),
    }
}

// ---------------------------------------------------------------------------
// Consult mandate
// ---------------------------------------------------------------------------

/// The record key of a file.
pub open spec fn file_key_of(rel_path: Seq<char>) -> Seq<char> {
    "file:"@ + rel_path
}

pub fn file_key(rel_path: &str) -> (r: String)
    ensures
        r@ == file_key_of(rel_path@),
{
    "file:".to_owned().concat(rel_path)
}

/// The reason given where policy asks for a consultation.
pub open spec fn mandate_reason(rel_path: Seq<char>) -> Seq<char> {
    "[mati] Org policy requires consulting "@ + rel_path + " before access \u{2014} call mem_get(\""@
        + file_key_of(rel_path) + "\") first."@
}

/// The refusal of a file that policy wants consulted first.
pub open spec fn mandate_answer(variant: HookVariant, rel_path: Seq<char>) -> AdapterView {
    answer(
        variant,
        hook::DecisionView::Deny {
            file_key: file_key_of(rel_path),
            reason: mandate_reason(rel_path),
        },
        seq![hook::EventView { kind: EventKind::FloorConsultBlocked, key: file_key_of(rel_path) }],
    )
}

/// An answer with the mandate laid over it: an unconsulted file under the
/// mandate is refused, unless it is refused already.
pub open spec fn mandated(
    before: AdapterView,
    variant: HookVariant,
    rel_path: Seq<char>,
    consulted: bool,
    matched: bool,
) -> AdapterView {
    if matched && !consulted && !(before.decision is Deny) {
        mandate_answer(variant, rel_path)
    } else {
        before
    }
}

/// Whether a path falls under an optional set of globs.
pub open spec fn under_mandate(set: Option<&GlobSet>, rel_path: Seq<char>) -> bool {
    match set {
        Some(g) => globs::any_matches(globs::set_patterns(*g), rel_path),
        None => false,
    }
}

/// Lays the mandate over an answer, given whether the path falls under it.
pub fn apply_mandate(
    adapter: &mut AdapterResult,
    variant: HookVariant,
    rel_path: &str,
    consulted: bool,
    matched: bool,
)
    ensures
        final(adapter)@ == mandated(old(adapter)@, variant, rel_path@, consulted, matched),
{
    if !matched || consulted || adapter.denies() {
        return;
    }
    let key = file_key(rel_path);
    let reason = "[mati] Org policy requires consulting ".to_owned().concat(rel_path).concat(
        " before access \u{2014} call mem_get(\"",
    ).concat(key.as_str()).concat("\") first.");
    let mut events: Vec<HookEvent> = Vec::new();
    events.push(HookEvent::FloorConsultBlocked { key: key.clone() });
    assert(hook::event_views(events@) =~= seq![
        hook::EventView { kind: EventKind::FloorConsultBlocked, key: key@ },
    ]);
    let decision = Decision::Deny { file_key: key, reason };
    *adapter = answer_of(variant, decision, events);
}

/// Refuses a file that matches a consult-required glob and has not been
/// consulted. An existing refusal stays as it is.
pub fn apply_consult_mandate(
    adapter: &mut AdapterResult,
    variant: HookVariant,
    rel_path: &str,
    consulted: bool,
    globs: Option<&GlobSet>,
)
    ensures
        final(adapter)@ == mandated(
            old(adapter)@,
            variant,
            rel_path@,
            consulted,
            under_mandate(globs, rel_path@),
        ),
{
    let matched = match globs {
        Some(g) => globs::set_matches(g, rel_path),
        None => false,
    };
    apply_mandate(adapter, variant, rel_path, consulted, matched);
}

// ---------------------------------------------------------------------------
// Laws
// ---------------------------------------------------------------------------

/// The mandate only ever turns an answer into a refusal: a refusal stays word
/// for word, and whatever changes becomes a refusal.
pub proof fn law_mandate_only_escalates(
    before: AdapterView,
    variant: HookVariant,
    rel_path: Seq<char>,
    consulted: bool,
    matched: bool,
)
    ensures
        before.decision is Deny ==> mandated(before, variant, rel_path, consulted, matched) == before,
        mandated(before, variant, rel_path, consulted, matched) != before ==> mandated(
            before,
            variant,
            rel_path,
            consulted,
            matched,
        ).decision is Deny,
        consulted ==> mandated(before, variant, rel_path, consulted, matched) == before,
        !matched ==> mandated(before, variant, rel_path, consulted, matched) == before,
{
}

/// The mandate's refusal is recorded under its own kind on every platform.
pub proof fn law_mandate_keeps_its_own_event(variant: HookVariant, rel_path: Seq<char>)
    ensures
        mandate_answer(variant, rel_path).events == seq![
            hook::EventView { kind: EventKind::FloorConsultBlocked, key: file_key_of(rel_path) },
        ],
{
    let e = hook::EventView { kind: EventKind::FloorConsultBlocked, key: file_key_of(rel_path) };
    let d = mandate_answer(variant, rel_path).decision;
    Seq::<hook::EventView>::lemma_filter_map_singleton(
        e,
        |e: hook::EventView| hook::platform_event(variant, d, e),
    );
}

/// The exit code is 2 exactly where a Codex hook that runs beforehand refuses,
/// and 0 everywhere else; only then is anything written to standard error.
pub proof fn law_exit_code(
    variant: HookVariant,
    data: json::JsonView,
    decision: hook::DecisionView,
    events: Seq<hook::EventView>,
)
    ensures
        ({
            let a = adapted(variant, data, decision, events);
            let refused = a.decision is Deny && (variant is CodexPreBash
                || variant is CodexPreApplyPatch);
            &&& a.output.exit_code == (if refused { 2int } else { 0 })
            &&& !refused ==> a.output.stderr.len() == 0
            &&& refused ==> a.output.stdout.len() == 0 && a.output.stderr.len() > 0
        }),
{
    reveal_strlit("mati: call mem_get(\"");
}

/// A reply with a store or gotcha error lets the access pass, whatever the rules
/// would have said, and records nothing.
pub proof fn law_errors_fail_open(
    variant: HookVariant,
    data: json::JsonView,
    decision: hook::DecisionView,
    events: Seq<hook::EventView>,
)
    requires
        fail_open_reason(data) is Some,
    ensures
        ({
            let a = adapted(variant, data, decision, events);
            &&& a.decision is Allow
            &&& a.events.len() == 0
            &&& a.output.exit_code == 0
            &&& a.output.stdout == hook::allow_output(variant)
        }),
{
}

/// Before a Codex shell command or patch no consultation receipt is recorded for
/// an outcome that shows the agent nothing: neither a hit of an advisory or
/// liability, nor any compliance hit.
pub proof fn law_codex_mints_no_silent_receipt(
    variant: HookVariant,
    decision: hook::DecisionView,
    events: Seq<hook::EventView>,
)
    requires
        variant is CodexPreBash || variant is CodexPreApplyPatch,
    ensures
        forall|i: int|
            0 <= i < answer(variant, decision, events).events.len() ==> {
                let e = #[trigger] answer(variant, decision, events).events[i];
                &&& e.kind != EventKind::ComplianceHit
                &&& decision is Advisory || decision is Liability ==> e.kind != EventKind::Hit
            },
{
    let f = |e: hook::EventView| hook::platform_event(variant, decision, e);
    let out = events.filter_map(f);
    assert(answer(variant, decision, events).events == out);
    assert forall|i: int| 0 <= i < out.len() implies {
        &&& (#[trigger] out[i]).kind != EventKind::ComplianceHit
        &&& decision is Advisory || decision is Liability ==> out[i].kind != EventKind::Hit
    } by {
        assert(out.contains(out[i]));
        events.lemma_filter_map_contains(f, out[i]);
    }
}

/// Whether a reply reports a failure that leaves nothing to enforce: the gotchas
/// could not be fetched, or the store failed and the file's record is missing.
pub open spec fn reports_failure(data: json::JsonView) -> bool {
    let store_failed = json::member(data, "store_error"@) == Some(json::JsonView::Bool(true));
    let gotchas_failed = json::member(data, "gotcha_error"@) == Some(json::JsonView::Bool(true));
    let no_record = json::member(data, "file_record"@) is None || json::member(
        data,
        "file_record"@,
    ) == Some(json::JsonView::Null);
    gotchas_failed || (store_failed && no_record)
}

/// A reply that reports no failure is answered with what the rules said, and one
/// that does lets the access pass.
pub proof fn law_the_rules_decide(
    variant: HookVariant,
    data: json::JsonView,
    decision: hook::DecisionView,
    events: Seq<hook::EventView>,
)
    ensures
        fail_open_reason(data) is Some <==> reports_failure(data),
        !reports_failure(data) ==> {
            let a = adapted(variant, data, decision, events);
            &&& a.decision == decision
            &&& a.output == hook::output_of(variant, decision)
            &&& a.events == hook::recorded(variant, decision, events)
        },
        reports_failure(data) ==> adapted(variant, data, decision, events).decision is Allow,
{
}

/// A file under the mandate that was not consulted is refused under its own key,
/// and the agent is told which record to read.
pub proof fn law_mandate_refuses_the_unconsulted(
    before: AdapterView,
    variant: HookVariant,
    rel_path: Seq<char>,
)
    requires
        !(before.decision is Deny),
    ensures
        ({
            let a = mandated(before, variant, rel_path, false, true);
            &&& a.decision matches hook::DecisionView::Deny { file_key, reason } && file_key
                == "file:"@ + rel_path && crate::text::text_contains(
                reason,
                "mem_get(\"file:"@ + rel_path + "\")"@,
            )
            &&& a.output == hook::output_of(variant, a.decision)
            &&& a.events.len() == 1
        }),
{
    law_mandate_keeps_its_own_event(variant, rel_path);
    let reason = mandate_reason(rel_path);
    reveal_strlit(" before access \u{2014} call mem_get(\"");
    reveal_strlit("mem_get(\"file:");
    reveal_strlit("file:");
    reveal_strlit("\")");
    reveal_strlit("\") first.");
    let call = "mem_get(\"file:"@ + rel_path + "\")"@;
    let lead = " before access \u{2014} call mem_get(\""@;
    let head = "[mati] Org policy requires consulting "@ + rel_path + lead.take(lead.len() - 9);
    let tail = "\") first."@.skip(2);
    assert(reason =~= head + call + tail);
    crate::text::lemma_part_occurs(head, call, tail);
}

/// Reads and shell commands of the assistant count any consultation, the other
/// hooks only a recent one.
pub proof fn law_which_consultation_counts(variant: HookVariant, data: json::JsonView)
    ensures
        consulted_in(data, wants_recent(variant)) <==> json::member(
            data,
            match variant {
                HookVariant::ClaudePreRead | HookVariant::ClaudePreBash => "consulted"@,
                HookVariant::ClaudePreEdit
                | HookVariant::CodexPreBash
                | HookVariant::CodexPostBash
                | HookVariant::CodexPreApplyPatch
                | HookVariant::ClaudePostMemGet => "consulted_recent"@,
            },
        ) == Some(json::JsonView::Bool(true)),
{
}

/// The rules are given what the reply holds: the record where there is one, the
/// gotchas where they are an object.
pub proof fn law_input_is_what_the_reply_holds(data: json::JsonView)
    ensures
        file_record_in(data) is None <==> json::member(data, "file_record"@) is None
            || json::member(data, "file_record"@) == Some(json::JsonView::Null),
        file_record_in(data) matches Some(r) ==> json::member(data, "file_record"@) == Some(r),
        gotchas_in(data) is Some <==> (json::member(data, "gotcha_records"@) matches Some(g) && g
            is Object),
        gotchas_in(data) matches Some(g) ==> json::member(data, "gotcha_records"@) == Some(g),
{
}

/// A file is under the mandate exactly where one of the patterns matches its path.
pub proof fn law_mandate_is_by_pattern(set: Option<&GlobSet>, rel_path: Seq<char>)
    ensures
        under_mandate(set, rel_path) <==> (set matches Some(g) && exists|i: int|
            0 <= i < globs::set_patterns(*g).len() && #[trigger] globs::glob_matches(
                globs::set_patterns(*g)[i],
                rel_path,
            )),
{
}

} // verus!
