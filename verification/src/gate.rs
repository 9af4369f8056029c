//! The hook flows: which file is looked up next, when an answer is final, and
//! what is recorded. The driver performs the lookups and hands the replies back.
use vstd::prelude::*;
use globset::GlobSet;
use crate::enforce;
use crate::enforce::{AdapterResult, EnforcementResult};
use crate::hook;
use crate::hook::{EventKind, HookEvent, HookVariant};
use crate::json;
use crate::json::Json;
use crate::text;

verus! {

// ---------------------------------------------------------------------------
// Reading the hook payload
// ---------------------------------------------------------------------------

/// The first of the path members that is there.
pub open spec fn path_member(input: json::JsonView) -> Option<json::JsonView> {
    match json::member2(input, "tool_input"@, "file_path"@) {
        Some(v) => Some(v),
        None => match json::member2(input, "tool_input"@, "notebook_path"@) {
            Some(v) => Some(v),
            None => json::member2(input, "tool_input"@, "path"@),
        },
    }
}

/// The shell command or patch of the payload.
pub open spec fn command_in(input: json::JsonView) -> Option<Seq<char>> {
    json::filled_text(json::text_value(json::member2(input, "tool_input"@, "command"@)))
}

pub fn command_text(input: &Json) -> (r: Option<String>)
    ensures
        json::opt_text(r) == command_in(input@),
{
    input.filled_in("tool_input", "command")
}

/// The file that a tool call accesses. Before a read or an edit the payload
/// names it; for a shell command it is the file that the command was found to
/// access; patches and receipts have flows of their own.
pub open spec fn accessed_path(
    input: json::JsonView,
    variant: HookVariant,
    command_file: Option<Seq<char>>,
) -> Option<Seq<char>> {
    match variant {
        HookVariant::ClaudePreRead | HookVariant::ClaudePreEdit => json::filled_text(
            json::text_value(path_member(input)),
        ),
        HookVariant::ClaudePreBash | HookVariant::CodexPreBash | HookVariant::CodexPostBash =>
        if command_in(input) is Some {
            command_file
        } else {
            None
        },
        HookVariant::CodexPreApplyPatch | HookVariant::ClaudePostMemGet => None,
    }
}

/// Extracts the accessed path. `command_file` is the file that the payload's
/// shell command accesses, if it is a command that reads one.
pub fn extract_path(input: &Json, variant: HookVariant, command_file: Option<String>) -> (r: Option<
    String,
>)
    ensures
        json::opt_text(r) == accessed_path(input@, variant, json::opt_text(command_file)),
{
    match variant {
        HookVariant::ClaudePreRead | HookVariant::ClaudePreEdit => {
            let found = match input.get("tool_input") {
                Some(t) => match t.get("file_path") {
                    Some(v) => Some(v),
                    None => match t.get("notebook_path") {
                        Some(v) => Some(v),
                        None => t.get("path"),
                    },
                },
                None => None,
            };
            match found {
                Some(v) => json::filled(v.as_text()),
                None => None,
            }
        },
        HookVariant::ClaudePreBash | HookVariant::CodexPreBash | HookVariant::CodexPostBash => {
            if command_text(input).is_some() {
                command_file
            } else {
                None
            }
        },
        HookVariant::CodexPreApplyPatch | HookVariant::ClaudePostMemGet => None,
    }
}

/// A nonempty text member at the top of the payload.
pub open spec fn top_text(input: json::JsonView, key: Seq<char>) -> Option<Seq<char>> {
    json::filled_text(json::text_value(json::member(input, key)))
}

/// Whose receipt counts: that of the actor named in the payload, else the shared
/// one. The session is no substitute.
pub fn gate_actor(input: &Json) -> (r: Option<String>)
    ensures
        json::opt_text(r) == top_text(input@, "agent_id"@),
{
    input.filled("agent_id")
}

// ---------------------------------------------------------------------------
// Audit commands
// ---------------------------------------------------------------------------

/// An entry of the daemon's session log.
#[derive(Debug, Clone, Copy, PartialEq, Eq, Structural)]
pub enum SessionEvent {
    Miss,
    ComplianceMiss,
    CodexShellMiss,
    ComplianceHit,
    EditConsulted,
    EditBlocked,
    FloorConsultMiss,
}

/// What the daemon is asked to record.
#[derive(Debug, PartialEq, Eq)]
pub enum AuditCommand {
    ConsultationHit {
        key: String,
        actor: Option<String>,
        session_id: Option<String>,
        agent_id: Option<String>,
    },
    SessionLog { event: SessionEvent, key: String, session_id: Option<String> },
}

#[verifier::ext_equal]
pub enum AuditView {
    ConsultationHit {
        key: Seq<char>,
        actor: Option<Seq<char>>,
        session_id: Option<Seq<char>>,
        agent_id: Option<Seq<char>>,
    },
    SessionLog { event: SessionEvent, key: Seq<char>, session_id: Option<Seq<char>> },
}

impl View for AuditCommand {
    type V = AuditView;

    open spec fn view(&self) -> AuditView {
        match self {
            AuditCommand::ConsultationHit { key, actor, session_id, agent_id } =>
            AuditView::ConsultationHit {
                key: key@,
                actor: json::opt_text(*actor),
                session_id: json::opt_text(*session_id),
                agent_id: json::opt_text(*agent_id),
            },
            AuditCommand::SessionLog { event, key, session_id } => AuditView::SessionLog {
                event: *event,
                key: key@,
                session_id: json::opt_text(*session_id),
            },
        }
    }
}

/// The log entry of an event; a hit is no log entry but a receipt.
pub open spec fn session_event(kind: EventKind) -> Option<SessionEvent> {
    match kind {
        EventKind::Hit => None,
        EventKind::Miss => Some(SessionEvent::Miss),
        EventKind::BlockedUnconsultedRead => Some(SessionEvent::ComplianceMiss),
        EventKind::CodexShellBlocked => Some(SessionEvent::CodexShellMiss),
        EventKind::ComplianceHit => Some(SessionEvent::ComplianceHit),
        EventKind::EditConsulted => Some(SessionEvent::EditConsulted),
        EventKind::EditBlocked => Some(SessionEvent::EditBlocked),
        EventKind::FloorConsultBlocked => Some(SessionEvent::FloorConsultMiss),
    }
}

/// What is recorded for an event. A log entry is attributed to the session; the
/// receipt of a hit is the shared one.
pub open spec fn audit_of(e: hook::EventView, session: Option<Seq<char>>) -> AuditView {
    match session_event(e.kind) {
        Some(event) => AuditView::SessionLog { event, key: e.key, session_id: session },
        None => AuditView::ConsultationHit {
            key: e.key,
            actor: None,
            session_id: None,
            agent_id: None,
        },
    }
}

pub open spec fn audits(v: Seq<AuditCommand>) -> Seq<AuditView> {
    v.map_values(|c: AuditCommand| c@)
}

fn log_event(kind: EventKind) -> (r: Option<SessionEvent>)
    ensures
        r == session_event(kind),
{
    match kind {
        EventKind::Hit => None,
        EventKind::Miss => Some(SessionEvent::Miss),
        EventKind::BlockedUnconsultedRead => Some(SessionEvent::ComplianceMiss),
        EventKind::CodexShellBlocked => Some(SessionEvent::CodexShellMiss),
        EventKind::ComplianceHit => Some(SessionEvent::ComplianceHit),
        EventKind::EditConsulted => Some(SessionEvent::EditConsulted),
        EventKind::EditBlocked => Some(SessionEvent::EditBlocked),
        EventKind::FloorConsultBlocked => Some(SessionEvent::FloorConsultMiss),
    }
}

fn copy_text(t: &Option<String>) -> (r: Option<String>)
    ensures
        json::opt_text(r) == json::opt_text(*t),
{
    match t {
        Some(s) => Some(s.clone()),
        None => None,
    }
}

/// The commands that record a list of events, one each and in order.
pub fn fire_events(events: &Vec<HookEvent>, session_id: &Option<String>) -> (r: Vec<AuditCommand>)
    ensures
        audits(r@) == hook::event_views(events@).map_values(
            |e: hook::EventView| audit_of(e, json::opt_text(*session_id)),
        ),
{
    let ghost f = |e: hook::EventView| audit_of(e, json::opt_text(*session_id));
    let ghost all = hook::event_views(events@);
    let mut out: Vec<AuditCommand> = Vec::new();
    let mut i: usize = 0;
    while i < events.len()
        invariant
            i <= events.len(),
            f == (|e: hook::EventView| audit_of(e, json::opt_text(*session_id))),
            all == hook::event_views(events@),
            audits(out@) =~= all.take(i as int).map_values(f),
        decreases events.len() - i,
    {
        let (kind, key) = events[i].parts();
        let command = match log_event(kind) {
            Some(event) => AuditCommand::SessionLog { event, key, session_id: copy_text(session_id) },
            None => AuditCommand::ConsultationHit {
                key,
                actor: None,
                session_id: None,
                agent_id: None,
            },
        };
        proof {
            assert(command@ == f(all[i as int]));
            assert(audits(out@.push(command)) =~= audits(out@).push(command@));
        }
        out.push(command);
        i = i + 1;
    }
    assert(all.take(i as int) =~= all);
    out
}

/// What is recorded after a shell command.
pub open spec fn post_bash_audit(rel_path: Seq<char>, consulted: bool) -> AuditView {
    AuditView::SessionLog {
        event: if consulted {
            SessionEvent::ComplianceHit
        } else {
            SessionEvent::CodexShellMiss
        },
        key: enforce::file_key_of(rel_path),
        session_id: None,
    }
}

/// Records after a shell command whether the file had been consulted.
pub fn post_bash_command(rel_path: &str, consulted: bool) -> (r: AuditCommand)
    ensures
        r@ == post_bash_audit(rel_path@, consulted),
{
    AuditCommand::SessionLog {
        event: if consulted {
            SessionEvent::ComplianceHit
        } else {
            SessionEvent::CodexShellMiss
        },
        key: enforce::file_key(rel_path),
        session_id: None,
    }
}

/// The receipt that a consultation calls for. Without a key there is none; the
/// actor is the one named in the payload, or the session where none is named.
pub open spec fn receipt_of(input: json::JsonView) -> Option<AuditView> {
    match json::filled_text(json::text_value(json::member2(input, "tool_input"@, "key"@))) {
        Some(key) => Some(
            AuditView::ConsultationHit {
                key,
                actor: match top_text(input, "agent_id"@) {
                    Some(a) => Some(a),
                    None => top_text(input, "session_id"@),
                },
                session_id: top_text(input, "session_id"@),
                agent_id: top_text(input, "agent_id"@),
            },
        ),
        None => None,
    }
}

pub open spec fn opt_audit(c: Option<AuditCommand>) -> Option<AuditView> {
    match c {
        Some(a) => Some(a@),
        None => None,
    }
}

/// The receipt to record after a record was consulted.
pub fn consult_receipt(input: &Json) -> (r: Option<AuditCommand>)
    ensures
        opt_audit(r) == receipt_of(input@),
{
    match input.filled_in("tool_input", "key") {
        Some(key) => {
            let agent_id = input.filled("agent_id");
            let session_id = input.filled("session_id");
            let actor = if agent_id.is_some() {
                copy_text(&agent_id)
            } else {
                copy_text(&session_id)
            };
            Some(AuditCommand::ConsultationHit { key, actor, session_id, agent_id })
        },
        None => None,
    }
}

// ---------------------------------------------------------------------------
// The single-file gate
// ---------------------------------------------------------------------------

/// How far the hook got before any file was looked up.
#[derive(Debug, Clone, Copy, PartialEq, Eq, Structural)]
pub enum Reach {
    /// The tool call accesses no file.
    NoPath,
    /// The store of the repository is unknown.
    NoRoot,
    /// The daemon cannot be reached, even after an attempt to start it.
    NoDaemon,
    Ready,
}

/// What the hook does first.
#[derive(Debug, PartialEq, Eq)]
pub enum Opening {
    /// Let the call pass; `log` says why enforcement was skipped, if it was.
    Pass { stdout: String, log: Option<String> },
    /// Only record whether the file had been consulted.
    PostBash,
    /// Look the file up.
    Evaluate { key: String, include_recent: bool },
}

pub open spec fn skip_reason(reach: Reach) -> Option<Seq<char>> {
    match reach {
        Reach::NoRoot => Some("cannot determine mati root"@),
        Reach::NoDaemon => Some("daemon not running after auto-start"@),
        _ => None,
    }
}

/// Whether a run opens with `r`.
pub open spec fn opens_with(
    variant: HookVariant,
    rel_path: Seq<char>,
    reach: Reach,
    r: Opening,
) -> bool {
    match r {
        Opening::Pass { stdout, log } => {
            &&& reach != Reach::Ready
            &&& stdout@ == hook::allow_output(variant)
            &&& json::opt_text(log) == skip_reason(reach)
        },
        Opening::PostBash => reach == Reach::Ready && variant == HookVariant::CodexPostBash,
        Opening::Evaluate { key, include_recent } => {
            &&& reach == Reach::Ready
            &&& variant != HookVariant::CodexPostBash
            &&& key@ == enforce::file_key_of(rel_path)
            &&& include_recent == enforce::wants_recent(variant)
        },
    }
}

/// Opens a run of a single-file hook.
pub fn open(variant: HookVariant, rel_path: &str, reach: Reach) -> (r: Opening)
    ensures
        opens_with(variant, rel_path@, reach, r),
{
    match reach {
        Reach::NoPath => Opening::Pass { stdout: hook::emit_allow(variant), log: None },
        Reach::NoRoot => Opening::Pass {
            stdout: hook::emit_allow(variant),
            log: Some("cannot determine mati root".to_owned()),
        },
        Reach::NoDaemon => Opening::Pass {
            stdout: hook::emit_allow(variant),
            log: Some("daemon not running after auto-start".to_owned()),
        },
        Reach::Ready => if variant == HookVariant::CodexPostBash {
            Opening::PostBash
        } else {
            Opening::Evaluate {
                key: enforce::file_key(rel_path),
                include_recent: enforce::recent(variant),
            }
        },
    }
}

/// A reply on one file together with what the enforcement rules say of it.
#[derive(Debug, PartialEq, Eq)]
pub struct Evaluation {
    pub data: Json,
    pub evaluated: EnforcementResult,
}

/// The answer for one file, with the mandate laid over it.
pub open spec fn judged(
    variant: HookVariant,
    rel_path: Seq<char>,
    data: json::JsonView,
    decision: hook::DecisionView,
    events: Seq<hook::EventView>,
    matched: bool,
) -> enforce::AdapterView {
    enforce::mandated(
        enforce::adapted(variant, data, decision, events),
        variant,
        rel_path,
        enforce::consulted_in(data, enforce::wants_recent(variant)),
        matched,
    )
}

/// The answer for one file.
pub open spec fn judgement(
    variant: HookVariant,
    rel_path: Seq<char>,
    e: Evaluation,
    globs: Option<&GlobSet>,
) -> enforce::AdapterView {
    judged(
        variant,
        rel_path,
        e.data@,
        e.evaluated.decision@,
        hook::event_views(e.evaluated.events@),
        enforce::under_mandate(globs, rel_path),
    )
}

/// Judges one file.
pub fn judge(variant: HookVariant, rel_path: &str, e: Evaluation, globs: Option<&GlobSet>) -> (r:
    AdapterResult)
    ensures
        r@ == judgement(variant, rel_path@, e, globs),
{
    let consulted = enforce::consulted_flag(&e.data, enforce::recent(variant));
    let mut adapter = enforce::process_eval_response(variant, rel_path, &e.data, e.evaluated);
    enforce::apply_consult_mandate(&mut adapter, variant, rel_path, consulted, globs);
    adapter
}

/// A refusal replaces an answer that is none; nothing else does.
pub open spec fn escalated(
    before: enforce::AdapterView,
    other: enforce::AdapterView,
) -> enforce::AdapterView {
    if !(before.decision is Deny) && other.decision is Deny {
        other
    } else {
        before
    }
}

/// The run of a single-file hook after the accessed file was looked up. Further
/// files are looked up one by one as long as nothing is refused.
#[derive(Debug, PartialEq, Eq)]
pub struct Gate {
    pub variant: HookVariant,
    pub rel_path: String,
    /// The answer so far.
    pub adapter: AdapterResult,
    /// Why the accessed file could not be enforced, for the log.
    pub fail_open: Option<String>,
    /// Paths still to be looked up, the next one last.
    pub pending: Vec<String>,
}

/// The paths that are still to be looked up, in order.
pub open spec fn queue(g: Gate) -> Seq<Seq<char>> {
    text::texts(g.pending@).reverse()
}

impl Gate {
    /// Starts with the reply on the accessed file; a failed lookup lets the call
    /// pass.
    pub fn start(
        variant: HookVariant,
        rel_path: &str,
        reply: Option<Evaluation>,
        globs: Option<&GlobSet>,
    ) -> (r: Option<Gate>)
        ensures
            match r {
                Some(g) => {
                    &&& reply matches Some(e) && {
                        &&& g.adapter@ == judgement(variant, rel_path@, e, globs)
                        &&& json::opt_text(g.fail_open) == enforce::fail_open_reason(e.data@)
                    }
                    &&& g.variant == variant
                    &&& g.rel_path@ == rel_path@
                    &&& queue(g).len() == 0
                },
                None => reply is None,
            },
    {
        match reply {
            Some(e) => {
                let fail_open = match enforce::check_eval_data(variant, rel_path, &e.data) {
                    enforce::EvalDataCheck::FailOpen(reason) => Some(reason),
                    enforce::EvalDataCheck::Proceed(_) => None,
                };
                Some(
                    Gate {
                        variant,
                        rel_path: rel_path.to_owned(),
                        adapter: judge(variant, rel_path, e, globs),
                        fail_open,
                        pending: Vec::new(),
                    },
                )
            },
            None => None,
        }
    }

    /// Whether the answer is final because the access is refused.
    pub fn settled(&self) -> (r: bool)
        ensures
            r == self.adapter@.decision is Deny,
    {
        self.adapter.denies()
    }

    /// Notes the file that the accessed path links to.
    pub fn add_link_target(&mut self, rel: Option<String>)
        ensures
            final(self).variant == old(self).variant,
            final(self).rel_path == old(self).rel_path,
            final(self).adapter == old(self).adapter,
            final(self).fail_open == old(self).fail_open,
            queue(*final(self)) == (match rel {
                Some(t) => queue(*old(self)) + seq![t@],
                None => queue(*old(self)),
            }),
    {
        let mut more: Vec<String> = Vec::new();
        if let Some(t) = rel {
            text::push_line(&mut more, t);
        }
        enqueue(&mut self.pending, more);
        assert(queue(*self) =~= (match rel {
            Some(t) => queue(*old(self)) + seq![t@],
            None => queue(*old(self)),
        }));
    }

    /// Notes the files of a shell command besides the accessed one. Only the
    /// first `cap` files of the command count.
    pub fn add_command_files(&mut self, files: Vec<String>, cap: usize)
        ensures
            final(self).variant == old(self).variant,
            final(self).rel_path == old(self).rel_path,
            final(self).adapter == old(self).adapter,
            final(self).fail_open == old(self).fail_open,
            queue(*final(self)) == queue(*old(self)) + further_files(
                old(self).variant,
                old(self).rel_path@,
                text::texts(files@),
                cap as nat,
            ),
    {
        let more = pick_files(self.variant, self.rel_path.as_str(), &files, cap);
        enqueue(&mut self.pending, more);
    }

    /// The next file to look up: none once the access is refused or all files
    /// were looked up.
    pub fn next(&mut self) -> (r: Option<String>)
        ensures
            final(self).variant == old(self).variant,
            final(self).rel_path == old(self).rel_path,
            final(self).adapter == old(self).adapter,
            final(self).fail_open == old(self).fail_open,
            match r {
                Some(rel) => {
                    &&& !(old(self).adapter@.decision is Deny)
                    &&& queue(*old(self)).len() > 0
                    &&& rel@ == queue(*old(self))[0]
                    &&& queue(*final(self)) == queue(*old(self)).skip(1)
                },
                None => {
                    &&& old(self).adapter@.decision is Deny || queue(*old(self)).len() == 0
                    &&& queue(*final(self)) == queue(*old(self))
                },
            },
    {
        if self.adapter.denies() {
            return None;
        }
        let ghost before = self.pending@;
        let r = self.pending.pop();
        proof {
            if before.len() > 0 {
                assert(text::texts(self.pending@) =~= text::texts(before).drop_last());
                assert(queue(*self) =~= queue(*old(self)).skip(1));
            } else {
                assert(queue(*self) =~= queue(*old(self)));
            }
        }
        r
    }

    /// Takes the reply on a further file into account. A failed lookup leaves
    /// the answer as it is.
    pub fn consider(&mut self, rel: &str, reply: Option<Evaluation>, globs: Option<&GlobSet>)
        ensures
            final(self).variant == old(self).variant,
            final(self).rel_path == old(self).rel_path,
            final(self).fail_open == old(self).fail_open,
            final(self).pending == old(self).pending,
            final(self).adapter@ == (match reply {
                Some(e) => escalated(
                    old(self).adapter@,
                    judgement(old(self).variant, rel@, e, globs),
                ),
                None => old(self).adapter@,
            }),
    {
        if let Some(e) = reply {
            let other = judge(self.variant, rel, e, globs);
            if !self.adapter.denies() && other.denies() {
                self.adapter = other;
            }
        }
    }
}

/// Being another path than the accessed one.
pub open spec fn not_path(rel_path: Seq<char>) -> spec_fn(Seq<char>) -> bool {
    |f: Seq<char>| f != rel_path
}

pub open spec fn first(s: Seq<Seq<char>>, cap: nat) -> Seq<Seq<char>> {
    if s.len() <= cap {
        s
    } else {
        s.take(cap as int)
    }
}

/// The files of a shell command that are gated besides the accessed one.
pub open spec fn further_files(
    variant: HookVariant,
    rel_path: Seq<char>,
    files: Seq<Seq<char>>,
    cap: nat,
) -> Seq<Seq<char>> {
    match variant {
        HookVariant::ClaudePreBash | HookVariant::CodexPreBash => first(files, cap).filter(
            not_path(rel_path),
        ),
        _ => Seq::empty(),
    }
}

fn pick_files(variant: HookVariant, rel_path: &str, files: &Vec<String>, cap: usize) -> (r: Vec<String>)
    ensures
        text::texts(r@) == further_files(variant, rel_path@, text::texts(files@), cap as nat),
{
    let mut out: Vec<String> = Vec::new();
    let shell = match variant {
        HookVariant::ClaudePreBash | HookVariant::CodexPreBash => true,
        _ => false,
    };
    if !shell {
        assert(text::texts(out@) =~= Seq::<Seq<char>>::empty());
        return out;
    }
    let n = if files.len() <= cap {
        files.len()
    } else {
        cap
    };
    let ghost all = text::texts(files@);
    let ghost f = not_path(rel_path@);
    let mut i: usize = 0;
    assert(all.take(0).filter(f) =~= Seq::<Seq<char>>::empty()) by {
        reveal(Seq::filter);
    }
    while i < n
        invariant
            i <= n <= files.len(),
            all == text::texts(files@),
            f == not_path(rel_path@),
            text::texts(out@) =~= all.take(i as int).filter(f),
        decreases n - i,
    {
        proof {
            assert(all.take(i + 1) =~= all.take(i as int).push(all[i as int]));
            all.take(i as int).lemma_filter_push(all[i as int], f);
        }
        if !text::same(files[i].as_str(), rel_path) {
            text::push_line(&mut out, files[i].clone());
        }
        i = i + 1;
    }
    assert(all.take(n as int) =~= first(all, cap as nat));
    out
}

/// Puts paths at the end of the queue.
fn enqueue(pending: &mut Vec<String>, more: Vec<String>)
    ensures
        text::texts(final(pending)@).reverse() == text::texts(old(pending)@).reverse() + text::texts(
            more@,
        ),
{
    let ghost before = text::texts(pending@);
    let ghost new = text::texts(more@);
    let mut more = more;
    let mut out: Vec<String> = Vec::new();
    while more.len() > 0
        invariant
            more@.len() <= new.len(),
            text::texts(more@) =~= new.take(more@.len() as int),
            text::texts(out@) =~= new.skip(more@.len() as int).reverse(),
        decreases more.len(),
    {
        let ghost n = more@.len() as int;
        let s = more.pop().unwrap();
        proof {
            assert(text::texts(more@) =~= new.take(n - 1));
            assert(new.skip(n - 1) =~= seq![new[n - 1]] + new.skip(n));
            assert(new.take(n)[n - 1] == s@);
        }
        text::push_line(&mut out, s);
    }
    assert(new.skip(0) =~= new);
    text::push_all(&mut out, pending);
    *pending = out;
    assert(text::texts(pending@).reverse() =~= before.reverse() + new);
}

/// The answer after a row of further files.
pub open spec fn escalated_by(
    before: enforce::AdapterView,
    others: Seq<enforce::AdapterView>,
) -> enforce::AdapterView
    decreases others.len(),
{
    if others.len() == 0 {
        before
    } else {
        escalated(escalated_by(before, others.drop_last()), others.last())
    }
}

/// Looking at further files never weakens an answer: the outcome is the answer
/// for the accessed file unless that is no refusal and a further file is
/// refused; then it is the answer for the first such file.
pub proof fn law_further_files_only_escalate(
    before: enforce::AdapterView,
    others: Seq<enforce::AdapterView>,
)
    ensures
        ({
            let after = escalated_by(before, others);
            &&& before.decision is Deny ==> after == before
            &&& (forall|i: int| 0 <= i < others.len() ==> !((#[trigger] others[i]).decision is Deny))
                ==> after == before
            &&& after != before ==> after.decision is Deny
            &&& after.decision is Deny && !(before.decision is Deny) ==> exists|i: int|
                0 <= i < others.len() && after == #[trigger] others[i] && forall|k: int|
                    0 <= k < i ==> !((#[trigger] others[k]).decision is Deny)
        }),
    decreases others.len(),
{
    if others.len() > 0 {
        let init = others.drop_last();
        law_further_files_only_escalate(before, init);
        let mid = escalated_by(before, init);
        let after = escalated_by(before, others);
        if forall|i: int| 0 <= i < others.len() ==> !((#[trigger] others[i]).decision is Deny) {
            assert forall|i: int| 0 <= i < init.len() implies !((#[trigger] init[i]).decision is Deny) by {
                assert(init[i] == others[i]);
            }
            assert(!(others[others.len() - 1].decision is Deny));
        }
        if after.decision is Deny && !(before.decision is Deny) {
            if mid.decision is Deny {
                let i = choose|i: int|
                    0 <= i < init.len() && mid == #[trigger] init[i] && forall|k: int|
                        0 <= k < i ==> !((#[trigger] init[k]).decision is Deny);
                assert(others[i] == init[i]);
                assert forall|k: int| 0 <= k < i implies !((#[trigger] others[k]).decision is Deny) by {
                    assert(init[k] == others[k]);
                }
            } else {
                let i = others.len() - 1;
                assert(after == others[i]);
                assert forall|k: int| 0 <= k < i implies !((#[trigger] others[k]).decision is Deny) by {
                    assert(init[k] == others[k]);
                    if others[k].decision is Deny {
                        lemma_refusal_sticks(before, init, k);
                    }
                }
            }
        }
    }
}

/// Once a further file is refused, the answer is a refusal.
proof fn lemma_refusal_sticks(
    before: enforce::AdapterView,
    others: Seq<enforce::AdapterView>,
    k: int,
)
    requires
        0 <= k < others.len(),
        others[k].decision is Deny,
    ensures
        escalated_by(before, others).decision is Deny,
    decreases others.len(),
{
    if k < others.len() - 1 {
        lemma_refusal_sticks(before, others.drop_last(), k);
    }
}

// ---------------------------------------------------------------------------
// The patch gate
// ---------------------------------------------------------------------------

/// The line logged where a patch touches more files than are gated.
pub open spec fn cap_note(n: nat, cap: nat) -> Option<Seq<char>> {
    if n > cap {
        Some(
            "patch touches "@ + text::dec(n) + " files; gating only the first "@ + text::dec(cap),
        )
    } else {
        None
    }
}

/// Keeps the first `cap` files of a patch and says so where that leaves some out.
pub fn cap_patch(paths: &mut Vec<String>, cap: usize) -> (r: Option<String>)
    ensures
        text::texts(final(paths)@) == first(text::texts(old(paths)@), cap as nat),
        json::opt_text(r) == cap_note(old(paths)@.len(), cap as nat),
{
    let n = paths.len();
    if n <= cap {
        return None;
    }
    paths.truncate(cap);
    assert(text::texts(paths@) =~= text::texts(old(paths)@).take(cap as int));
    Some(
        "patch touches ".to_owned().concat(text::decimal(n as u64).as_str()).concat(
            " files; gating only the first ",
        ).concat(text::decimal(cap as u64).as_str()),
    )
}

/// The answer for one file of a patch.
pub open spec fn patch_answer(reply: Option<Evaluation>) -> enforce::AdapterView {
    match reply {
        Some(e) => enforce::adapted(
            HookVariant::CodexPreApplyPatch,
            e.data@,
            e.evaluated.decision@,
            hook::event_views(e.evaluated.events@),
        ),
        None => enforce::open_answer(HookVariant::CodexPreApplyPatch),
    }
}

/// The refused files of a patch and the events that go with them.
#[derive(Debug, PartialEq, Eq)]
pub struct PatchGate {
    pub denied: Vec<String>,
    pub events: Vec<HookEvent>,
}

impl PatchGate {
    pub fn new() -> (r: PatchGate)
        ensures
            r.denied@.len() == 0,
            r.events@.len() == 0,
    {
        PatchGate { denied: Vec::new(), events: Vec::new() }
    }

    /// Takes the reply on one file of the patch into account: a refused file is
    /// noted under its key. A failed lookup is left out.
    pub fn consider(&mut self, rel_path: &str, reply: Option<Evaluation>)
        ensures
            ({
                let answer = patch_answer(reply);
                if answer.decision is Deny {
                    &&& text::texts(final(self).denied@) == text::texts(old(self).denied@).push(
                        enforce::file_key_of(rel_path@),
                    )
                    &&& hook::event_views(final(self).events@) == hook::event_views(
                        old(self).events@,
                    ) + answer.events
                } else {
                    *final(self) == *old(self)
                }
            }),
    {
        if let Some(e) = reply {
            let adapter = enforce::process_eval_response(
                HookVariant::CodexPreApplyPatch,
                rel_path,
                &e.data,
                e.evaluated,
            );
            if adapter.denies() {
                text::push_line(&mut self.denied, enforce::file_key(rel_path));
                let ghost before = hook::event_views(self.events@);
                let ghost new = hook::event_views(adapter.events@);
                let mut events = adapter.events;
                self.events.append(&mut events);
                assert(hook::event_views(self.events@) =~= before + new);
            }
        }
    }

    /// What a refused patch is answered; nothing where no file is refused.
    pub fn refusal(&self) -> (r: Option<String>)
        ensures
            json::opt_text(r) == patch_refusal(text::texts(self.denied@)),
    {
        if self.denied.is_empty() {
            None
        } else if self.denied.len() == 1 {
            assert(text::texts(self.denied@)[0] == self.denied@[0]@);
            Some(
                "mati: call mem_get(\"".to_owned().concat(self.denied[0].as_str()).concat(
                    "\") before editing",
                ),
            )
        } else {
            Some(
                "mati: consult these files before editing \u{2014} call mem_get for each: ".to_owned().concat(
                    text::join(&self.denied, ", ").as_str(),
                ),
            )
        }
    }
}

/// The line on standard error that refuses a patch.
pub open spec fn patch_refusal(denied: Seq<Seq<char>>) -> Option<Seq<char>> {
    if denied.len() == 0 {
        None
    } else if denied.len() == 1 {
        Some("mati: call mem_get(\""@ + denied[0] + "\") before editing"@)
    } else {
        Some(
            "mati: consult these files before editing \u{2014} call mem_get for each: "@
                + text::joined(denied, ", "@),
        )
    }
}

// ---------------------------------------------------------------------------
// Fail-open telemetry
// ---------------------------------------------------------------------------

/// The warning on standard error where enforcement is skipped.
pub fn fail_open_warning(rel_path: &str, reason: &str) -> (r: String)
    ensures
        r@ == "[mati] WARNING: enforcement bypassed for "@ + rel_path@ + " \u{2014} "@ + reason@,
{
    "[mati] WARNING: enforcement bypassed for ".to_owned().concat(rel_path).concat(
        " \u{2014} ",
    ).concat(reason)
}

/// The entry in the fail-open log; `now` is the time in ISO 8601.
pub fn fail_open_entry(now: &str, rel_path: &str, reason: &str) -> (r: String)
    ensures
        r@ == now@ + " FAIL_OPEN hook=hook-decide file="@ + rel_path@ + " reason="@ + reason@ + "\n"@,
{
    now.to_owned().concat(" FAIL_OPEN hook=hook-decide file=").concat(rel_path).concat(
        " reason=",
    ).concat(reason).concat("\n")
}

// ---------------------------------------------------------------------------
// What a decision is for
// ---------------------------------------------------------------------------

/// A file is refused exactly where the rules refuse it and the reply reports no
/// failure, or where policy wants it consulted and it was not. Once it was
/// consulted and the rules no longer refuse it, it passes.
pub proof fn law_gate_refuses_exactly_the_unconsulted(
    variant: HookVariant,
    rel_path: Seq<char>,
    data: json::JsonView,
    decision: hook::DecisionView,
    events: Seq<hook::EventView>,
    matched: bool,
)
    ensures
        ({
            let a = judged(variant, rel_path, data, decision, events, matched);
            let consulted = json::member(
                data,
                if variant == HookVariant::ClaudePreRead || variant == HookVariant::ClaudePreBash {
                    "consulted"@
                } else {
                    "consulted_recent"@
                },
            ) == Some(json::JsonView::Bool(true));
            let ruled_out = decision is Deny && !enforce::reports_failure(data);
            &&& a.decision is Deny <==> ruled_out || (matched && !consulted)
            &&& ruled_out ==> a.decision == decision
            &&& !(a.decision is Deny) && !enforce::reports_failure(data) ==> a.decision == decision
            &&& a.output == hook::output_of(variant, a.decision)
        }),
{
    enforce::law_the_rules_decide(variant, data, decision, events);
    enforce::law_which_consultation_counts(variant, data);
    hook::law_nothing_to_enforce_is_an_allow(variant);
}

/// After any number of further files the call is refused exactly where the
/// accessed file or one of them is.
pub proof fn law_one_refused_file_refuses_the_call(
    before: enforce::AdapterView,
    others: Seq<enforce::AdapterView>,
)
    ensures
        escalated_by(before, others).decision is Deny <==> before.decision is Deny || exists|i: int|
            0 <= i < others.len() && (#[trigger] others[i]).decision is Deny,
{
    law_further_files_only_escalate(before, others);
    if exists|i: int| 0 <= i < others.len() && (#[trigger] others[i]).decision is Deny {
        let i = choose|i: int| 0 <= i < others.len() && (#[trigger] others[i]).decision is Deny;
        lemma_refusal_sticks(before, others, i);
    }
    if !(before.decision is Deny) && escalated_by(before, others).decision is Deny {
        let i = choose|i: int|
            0 <= i < others.len() && escalated_by(before, others) == #[trigger] others[i];
        assert(others[i].decision is Deny);
    }
}

/// A hook that cannot reach what it needs lets the call pass and says why; one
/// that can looks the accessed file up, or only records it where the command has
/// run already.
pub proof fn law_hook_opens_by_what_it_reaches(
    variant: HookVariant,
    rel_path: Seq<char>,
    reach: Reach,
    r: Opening,
)
    requires
        opens_with(variant, rel_path, reach, r),
    ensures
        r is Pass <==> reach != Reach::Ready,
        r is PostBash <==> reach == Reach::Ready && variant == HookVariant::CodexPostBash,
        r matches Opening::Pass { stdout, log } ==> {
            &&& hook::output_of(variant, hook::DecisionView::Allow).stdout == stdout@
            &&& log is None <==> reach == Reach::NoPath
        },
        r matches Opening::Evaluate { key, include_recent } ==> {
            &&& key@ == "file:"@ + rel_path
            &&& include_recent <==> variant != HookVariant::ClaudePreRead && variant
                != HookVariant::ClaudePreBash
        },
{
    hook::law_nothing_to_enforce_is_an_allow(variant);
}

/// Before a read or an edit the file is the one that the payload names, under the
/// first of its three names that is there; a shell command accesses a file only
/// where there is a command.
pub proof fn law_accessed_file_is_the_named_one(
    input: json::JsonView,
    variant: HookVariant,
    command_file: Option<Seq<char>>,
    s: Seq<char>,
)
    requires
        s.len() > 0,
    ensures
        ({
            let named = |k: Seq<char>|
                json::member2(input, "tool_input"@, k) == Some(json::JsonView::Str(s));
            let absent = |k: Seq<char>| json::member2(input, "tool_input"@, k) is None;
            let r = accessed_path(input, variant, command_file);
            match variant {
                HookVariant::ClaudePreRead | HookVariant::ClaudePreEdit => r == Some(s) <==> {
                    ||| named("file_path"@)
                    ||| absent("file_path"@) && named("notebook_path"@)
                    ||| absent("file_path"@) && absent("notebook_path"@) && named("path"@)
                },
                HookVariant::ClaudePreBash
                | HookVariant::CodexPreBash
                | HookVariant::CodexPostBash => {
                    &&& r is Some ==> r == command_file
                    &&& named("command"@) ==> r == command_file
                    &&& absent("command"@) ==> r is None
                },
                HookVariant::CodexPreApplyPatch | HookVariant::ClaudePostMemGet => r is None,
            }
        }),
{
}

/// Every event is recorded once, under its record's key. A hit becomes a receipt
/// that belongs to nobody in particular, everything else an entry of the session;
/// blocks are recorded as misses and consultations as hits, and no two kinds of
/// event are recorded alike.
pub proof fn law_events_are_recorded_as_what_they_are(
    e: hook::EventView,
    other: hook::EventView,
    session: Option<Seq<char>>,
)
    ensures
        audit_of(e, session) matches AuditView::ConsultationHit { key, actor, session_id, agent_id }
            ==> e.kind == EventKind::Hit && key == e.key && actor is None && session_id is None
            && agent_id is None,
        audit_of(e, session) matches AuditView::SessionLog { event, key, session_id } ==> {
            &&& e.kind != EventKind::Hit && key == e.key && session_id == session
            &&& e.kind == EventKind::BlockedUnconsultedRead <==> event
                == SessionEvent::ComplianceMiss
            &&& e.kind == EventKind::CodexShellBlocked <==> event == SessionEvent::CodexShellMiss
            &&& e.kind == EventKind::EditBlocked <==> event == SessionEvent::EditBlocked
            &&& e.kind == EventKind::FloorConsultBlocked <==> event
                == SessionEvent::FloorConsultMiss
            &&& e.kind == EventKind::ComplianceHit <==> event == SessionEvent::ComplianceHit
            &&& e.kind == EventKind::EditConsulted <==> event == SessionEvent::EditConsulted
            &&& e.kind == EventKind::Miss <==> event == SessionEvent::Miss
        },
        audit_of(e, session) == audit_of(other, session) ==> e == other,
{
}

/// After a shell command a consulted file is recorded as compliance, another one
/// as a miss, under the file's key.
pub proof fn law_shell_commands_are_audited(rel_path: Seq<char>, consulted: bool)
    ensures
        post_bash_audit(rel_path, consulted) matches AuditView::SessionLog {
            event,
            key,
            session_id,
        } && key == "file:"@ + rel_path && session_id is None && (consulted <==> event
            == SessionEvent::ComplianceHit) && (!consulted <==> event
            == SessionEvent::CodexShellMiss),
{
}

/// A consultation leaves a receipt for the record that was read, exactly where its
/// key is known. It belongs to the agent where one is named, else to the session.
pub proof fn law_receipt_belongs_to_the_reader(input: json::JsonView, key: Seq<char>)
    requires
        key.len() > 0,
        json::member2(input, "tool_input"@, "key"@) == Some(json::JsonView::Str(key)),
    ensures
        receipt_of(input) matches Some(AuditView::ConsultationHit {
            key: k,
            actor,
            session_id,
            agent_id,
        }) && {
            &&& k == key
            &&& agent_id is Some ==> actor == agent_id
            &&& agent_id is None ==> actor == session_id
            &&& session_id is Some ==> json::member(input, "session_id"@) == Some(
                json::JsonView::Str(session_id.unwrap()),
            )
            &&& agent_id is Some ==> json::member(input, "agent_id"@) == Some(
                json::JsonView::Str(agent_id.unwrap()),
            )
            &&& json::member(input, "agent_id"@) matches Some(json::JsonView::Str(a)) ==> (a.len() > 0
                ==> agent_id == Some(a))
            &&& json::member(input, "session_id"@) matches Some(json::JsonView::Str(a)) ==> (a.len() > 0
                ==> session_id == Some(a))
        },
{
}

/// Only a shell command has further files: those among its first few that are not
/// the accessed one, each of them, in order.
pub proof fn law_further_files_are_the_other_ones(
    variant: HookVariant,
    rel_path: Seq<char>,
    files: Seq<Seq<char>>,
    cap: nat,
    f: Seq<char>,
)
    ensures
        further_files(variant, rel_path, files, cap).contains(f) <==> {
            &&& variant == HookVariant::ClaudePreBash || variant == HookVariant::CodexPreBash
            &&& f != rel_path
            &&& exists|i: int| 0 <= i < files.len() && i < cap && #[trigger] files[i] == f
        },
        further_files(variant, rel_path, files, cap).len() <= cap,
{
    let r = further_files(variant, rel_path, files, cap);
    let few = first(files, cap);
    let p = not_path(rel_path);
    few.lemma_filter_len(p);
    if variant == HookVariant::ClaudePreBash || variant == HookVariant::CodexPreBash {
        if r.contains(f) {
            let k = choose|k: int| 0 <= k < r.len() && r[k] == f;
            few.lemma_filter_pred(p, k);
            few.lemma_filter_contains_rev(p, f);
            let i = choose|i: int| 0 <= i < few.len() && few[i] == f;
            assert(files[i] == f);
        }
        if f != rel_path && exists|i: int|
            0 <= i < files.len() && i < cap && #[trigger] files[i] == f {
            let i = choose|i: int| 0 <= i < files.len() && i < cap && #[trigger] files[i] == f;
            assert(few[i] == f);
            few.lemma_filter_contains(p, i);
        }
    }
}

/// A file of a patch is refused exactly where its lookup succeeded, reports no
/// failure and the rules refuse it.
pub proof fn law_patch_files_are_judged_alone(reply: Option<Evaluation>)
    ensures
        patch_answer(reply).decision is Deny <==> (reply matches Some(e) && e.evaluated.decision@
            is Deny && !enforce::reports_failure(e.data@)),
        reply matches Some(e) && patch_answer(reply).decision is Deny
            ==> patch_answer(reply).decision == reply.unwrap().evaluated.decision@,
{
    if let Some(e) = reply {
        enforce::law_the_rules_decide(
            HookVariant::CodexPreApplyPatch,
            e.data@,
            e.evaluated.decision@,
            hook::event_views(e.evaluated.events@),
        );
    }
}

/// A patch is refused exactly where one of its files is, and every refused file is
/// named.
pub proof fn law_refused_patch_names_its_files(denied: Seq<Seq<char>>, i: int)
    requires
        0 <= i < denied.len(),
    ensures
        patch_refusal(Seq::empty()) is None,
        patch_refusal(denied) matches Some(s) && text::text_contains(s, denied[i]),
{
    let none = Seq::<char>::empty();
    if denied.len() == 1 {
        text::lemma_part_occurs("mati: call mem_get(\""@, denied[0], "\") before editing"@);
    } else {
        let lead = "mati: consult these files before editing \u{2014} call mem_get for each: "@;
        let list = text::joined(denied, ", "@);
        lemma_joined_holds(denied, ", "@, i);
        assert(lead + list =~= lead + list + none);
        text::lemma_contains_in_part(lead, list, none, denied[i]);
    }
}

proof fn lemma_joined_holds(v: Seq<Seq<char>>, sep: Seq<char>, i: int)
    requires
        0 <= i < v.len(),
    ensures
        text::text_contains(text::joined(v, sep), v[i]),
    decreases v.len(),
{
    let none = Seq::<char>::empty();
    if v.len() == 1 {
        assert(v[0] =~= none + v[0] + none);
        text::lemma_part_occurs(none, v[0], none);
    } else {
        let init = v.drop_last();
        let head = text::joined(init, sep);
        if i < v.len() - 1 {
            lemma_joined_holds(init, sep, i);
            assert(text::joined(v, sep) =~= none + head + (sep + v.last()));
            text::lemma_contains_in_part(none, head, sep + v.last(), v[i]);
        } else {
            assert(text::joined(v, sep) =~= (head + sep) + v.last() + none);
            text::lemma_part_occurs(head + sep, v.last(), none);
        }
    }
}

/// A patch with too many files is cut to its first ones, and that is logged; a
/// smaller one is left alone.
pub proof fn law_cut_patches_are_logged(files: Seq<Seq<char>>, cap: nat)
    ensures
        cap_note(files.len(), cap) is Some <==> files.len() > cap,
        first(files, cap).is_prefix_of(files),
        first(files, cap).len() == (if files.len() > cap {
            cap
        } else {
            files.len()
        }),
{
    let r = first(files, cap);
    assert(files.subrange(0, r.len() as int) =~= r);
}

/// The accessed file is refused exactly where the rules of the reply refuse it, or
/// where a pattern of the policy matches its path and it was not consulted.
pub proof fn law_file_is_judged_by_rules_and_patterns(
    variant: HookVariant,
    rel_path: Seq<char>,
    e: Evaluation,
    globs: Option<&GlobSet>,
)
    ensures
        ({
            let a = judgement(variant, rel_path, e, globs);
            let consulted = json::member(
                e.data@,
                if variant == HookVariant::ClaudePreRead || variant == HookVariant::ClaudePreBash {
                    "consulted"@
                } else {
                    "consulted_recent"@
                },
            ) == Some(json::JsonView::Bool(true));
            let wanted = globs matches Some(g) && exists|i: int|
                0 <= i < crate::globs::set_patterns(*g).len() && #[trigger] crate::globs::glob_matches(
                    crate::globs::set_patterns(*g)[i],
                    rel_path,
                );
            a.decision is Deny <==> (e.evaluated.decision@ is Deny && !enforce::reports_failure(
                e.data@,
            )) || (wanted && !consulted)
        }),
{
    enforce::law_mandate_is_by_pattern(globs, rel_path);
    law_gate_refuses_exactly_the_unconsulted(
        variant,
        rel_path,
        e.data@,
        e.evaluated.decision@,
        hook::event_views(e.evaluated.events@),
        enforce::under_mandate(globs, rel_path),
    );
}

/// A call that passes for want of a store or a daemon says which of them was missing.
pub proof fn law_missing_parts_are_named(reach: Reach)
    ensures
        skip_reason(reach) is Some <==> reach == Reach::NoRoot || reach == Reach::NoDaemon,
        skip_reason(reach) matches Some(w) ==> ("daemon not running"@.is_prefix_of(w) <==> reach
            == Reach::NoDaemon),
{
    reveal_strlit("daemon not running");
    reveal_strlit("daemon not running after auto-start");
    reveal_strlit("cannot determine mati root");
    let d = "daemon not running"@;
    if let Some(w) = skip_reason(reach) {
        if reach == Reach::NoDaemon {
            assert(w.subrange(0, d.len() as int) =~= d);
        } else if d.is_prefix_of(w) {
            assert(w.subrange(0, d.len() as int)[0] == 'd');
        }
    }
}

} // verus!
