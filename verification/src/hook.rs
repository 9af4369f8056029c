//! The hook adapter: from a tool call and what the store knows of the file to an
//! allow or deny answer in the form each platform expects.
use vstd::prelude::*;
use crate::json;
use crate::text;

verus! {

/// Which hook of which platform is running.
#[derive(Debug, Clone, Copy, PartialEq, Eq, Structural)]
pub enum HookVariant {
    ClaudePreRead,
    /// Gates file edits. A recent consultation is asked for, and anything but a
    /// deny defers to the normal permission flow.
    ClaudePreEdit,
    ClaudePreBash,
    CodexPreBash,
    CodexPostBash,
    /// Gates the files that a patch touches, all of them at once.
    CodexPreApplyPatch,
    /// Records that an actor consulted a record.
    ClaudePostMemGet,
}

/// Arguments of `mati hook-decide`.
#[derive(Debug, PartialEq, Eq)]
pub struct HookDecideArgs {
    pub variant: HookVariant,
}

/// What the enforcement rules say of one file access.
#[derive(Debug, PartialEq, Eq)]
pub enum Decision {
    Allow,
    NoRecord,
    Deny { file_key: String, reason: String },
    AlreadyConsulted { context: String },
    Advisory { context: String },
    Liability { context: String },
}

/// An audit event of one file access.
#[derive(Debug, PartialEq, Eq)]
pub enum HookEvent {
    Hit { key: String },
    Miss { key: String },
    BlockedUnconsultedRead { key: String },
    CodexShellBlocked { key: String },
    ComplianceHit { key: String },
    EditConsulted { key: String },
    EditBlocked { key: String },
    FloorConsultBlocked { key: String },
}

/// The variants of [`HookEvent`] without their key.
#[derive(Debug, Clone, Copy, PartialEq, Eq, Structural)]
pub enum EventKind {
    Hit,
    Miss,
    BlockedUnconsultedRead,
    CodexShellBlocked,
    ComplianceHit,
    EditConsulted,
    EditBlocked,
    FloorConsultBlocked,
}

/// An event as a kind and the key it is about.
#[verifier::ext_equal]
pub struct EventView {
    pub kind: EventKind,
    pub key: Seq<char>,
}

#[verifier::ext_equal]
pub enum DecisionView {
    Allow,
    NoRecord,
    Deny { file_key: Seq<char>, reason: Seq<char> },
    AlreadyConsulted { context: Seq<char> },
    Advisory { context: Seq<char> },
    Liability { context: Seq<char> },
}

impl View for HookEvent {
    type V = EventView;

    open spec fn view(&self) -> EventView {
        match self {
            HookEvent::Hit { key } => EventView { kind: EventKind::Hit, key: key@ },
            HookEvent::Miss { key } => EventView { kind: EventKind::Miss, key: key@ },
            HookEvent::BlockedUnconsultedRead { key } => EventView {
                kind: EventKind::BlockedUnconsultedRead,
                key: key@,
            },
            HookEvent::CodexShellBlocked { key } => EventView {
                kind: EventKind::CodexShellBlocked,
                key: key@,
            },
            HookEvent::ComplianceHit { key } => EventView { kind: EventKind::ComplianceHit, key: key@ },
            HookEvent::EditConsulted { key } => EventView { kind: EventKind::EditConsulted, key: key@ },
            HookEvent::EditBlocked { key } => EventView { kind: EventKind::EditBlocked, key: key@ },
            HookEvent::FloorConsultBlocked { key } => EventView {
                kind: EventKind::FloorConsultBlocked,
                key: key@,
            },
        }
    }
}

impl View for Decision {
    type V = DecisionView;

    open spec fn view(&self) -> DecisionView {
        match self {
            Decision::Allow => DecisionView::Allow,
            Decision::NoRecord => DecisionView::NoRecord,
            Decision::Deny { file_key, reason } => DecisionView::Deny {
                file_key: file_key@,
                reason: reason@,
            },
            Decision::AlreadyConsulted { context } => DecisionView::AlreadyConsulted {
                context: context@,
            },
            Decision::Advisory { context } => DecisionView::Advisory { context: context@ },
            Decision::Liability { context } => DecisionView::Liability { context: context@ },
        }
    }
}

impl HookEvent {
    /// The kind and the key of an event.
    pub fn parts(&self) -> (r: (EventKind, String))
        ensures
            self@ == (EventView { kind: r.0, key: r.1@ }),
    {
        match self {
            HookEvent::Hit { key } => (EventKind::Hit, key.clone()),
            HookEvent::Miss { key } => (EventKind::Miss, key.clone()),
            HookEvent::BlockedUnconsultedRead { key } => (
                EventKind::BlockedUnconsultedRead,
                key.clone(),
            ),
            HookEvent::CodexShellBlocked { key } => (EventKind::CodexShellBlocked, key.clone()),
            HookEvent::ComplianceHit { key } => (EventKind::ComplianceHit, key.clone()),
            HookEvent::EditConsulted { key } => (EventKind::EditConsulted, key.clone()),
            HookEvent::EditBlocked { key } => (EventKind::EditBlocked, key.clone()),
            HookEvent::FloorConsultBlocked { key } => (EventKind::FloorConsultBlocked, key.clone()),
        }
    }

    /// The event of a kind about a key.
    pub fn of(kind: EventKind, key: String) -> (r: HookEvent)
        ensures
            r@ == (EventView { kind, key: key@ }),
    {
        match kind {
            EventKind::Hit => HookEvent::Hit { key },
            EventKind::Miss => HookEvent::Miss { key },
            EventKind::BlockedUnconsultedRead => HookEvent::BlockedUnconsultedRead { key },
            EventKind::CodexShellBlocked => HookEvent::CodexShellBlocked { key },
            EventKind::ComplianceHit => HookEvent::ComplianceHit { key },
            EventKind::EditConsulted => HookEvent::EditConsulted { key },
            EventKind::EditBlocked => HookEvent::EditBlocked { key },
            EventKind::FloorConsultBlocked => HookEvent::FloorConsultBlocked { key },
        }
    }
}

/// The events of a list.
pub open spec fn event_views(v: Seq<HookEvent>) -> Seq<EventView> {
    v.map_values(|e: HookEvent| e@)
}

// ---------------------------------------------------------------------------
// Events per platform
// ---------------------------------------------------------------------------

/// The kind under which a platform records an event, if it records it.
///
/// Before a Codex shell command or patch, a block is recorded as a shell block;
/// an outcome without any output leaves no receipt, and a compliance hit is left
/// to the hook that runs afterwards. An edit records only that it was blocked or
/// consulted. The other hooks keep every event.
pub open spec fn platform_kind(variant: HookVariant, decision: DecisionView, kind: EventKind) -> Option<
    EventKind,
> {
    match variant {
        HookVariant::CodexPreBash | HookVariant::CodexPreApplyPatch => match kind {
            EventKind::BlockedUnconsultedRead => Some(EventKind::CodexShellBlocked),
            EventKind::Hit => if decision is Advisory || decision is Liability {
                None
            } else {
                Some(EventKind::Hit)
            },
            EventKind::ComplianceHit => None,
            _ => Some(kind),
        },
        HookVariant::ClaudePreEdit => match kind {
            EventKind::BlockedUnconsultedRead => Some(EventKind::EditBlocked),
            EventKind::FloorConsultBlocked => Some(EventKind::FloorConsultBlocked),
            EventKind::ComplianceHit => Some(EventKind::EditConsulted),
            _ => None,
        },
        _ => Some(kind),
    }
}

pub open spec fn platform_event(variant: HookVariant, decision: DecisionView, e: EventView) -> Option<
    EventView,
> {
    match platform_kind(variant, decision, e.kind) {
        Some(kind) => Some(EventView { kind, key: e.key }),
        None => None,
    }
}

/// The events that a platform records, in order.
pub open spec fn recorded(variant: HookVariant, decision: DecisionView, events: Seq<EventView>) -> Seq<
    EventView,
> {
    events.filter_map(|e: EventView| platform_event(variant, decision, e))
}

fn event_kind(variant: HookVariant, decision: &Decision, kind: EventKind) -> (r: Option<EventKind>)
    ensures
        r == platform_kind(variant, decision@, kind),
{
    match variant {
        HookVariant::CodexPreBash | HookVariant::CodexPreApplyPatch => match kind {
            EventKind::BlockedUnconsultedRead => Some(EventKind::CodexShellBlocked),
            EventKind::Hit => match decision {
                Decision::Advisory { .. } | Decision::Liability { .. } => None,
                _ => Some(EventKind::Hit),
            },
            EventKind::ComplianceHit => None,
            _ => Some(kind),
        },
        HookVariant::ClaudePreEdit => match kind {
            EventKind::BlockedUnconsultedRead => Some(EventKind::EditBlocked),
            EventKind::FloorConsultBlocked => Some(EventKind::FloorConsultBlocked),
            EventKind::ComplianceHit => Some(EventKind::EditConsulted),
            _ => None,
        },
        _ => Some(kind),
    }
}

/// Filters and translates events to what the platform records.
pub fn platform_events(variant: HookVariant, decision: &Decision, events: Vec<HookEvent>) -> (r: Vec<
    HookEvent,
>)
    ensures
        event_views(r@) == recorded(variant, decision@, event_views(events@)),
{
    let ghost all = event_views(events@);
    let ghost f = |e: EventView| platform_event(variant, decision@, e);
    let mut out: Vec<HookEvent> = Vec::new();
    let mut i: usize = 0;
    assert(all.take(0) =~= Seq::<EventView>::empty());
    while i < events.len()
        invariant
            i <= events.len(),
            all == event_views(events@),
            f == (|e: EventView| platform_event(variant, decision@, e)),
            event_views(out@) =~= all.take(i as int).filter_map(f),
        decreases events.len() - i,
    {
        proof {
            all.lemma_filter_map_take_succ(f, i as int);
        }
        let (kind, key) = events[i].parts();
        if let Some(k) = event_kind(variant, decision, kind) {
            out.push(HookEvent::of(k, key));
        }
        i = i + 1;
    }
    assert(all.take(i as int) =~= all);
    out
}

// ---------------------------------------------------------------------------
// Output per platform
// ---------------------------------------------------------------------------

/// A hexadecimal digit.
pub open spec fn hex_char(d: nat) -> char {
    if d < 10 {
        (48 + d) as char
    } else {
        (87 + d) as char
    }
}

/// The characters that stand for `c` inside a JSON string: a short escape where
/// there is one, the number of another control character, else `c` itself.
pub open spec fn escape_char(c: char) -> Seq<char> {
    if c == '\\' {
        seq!['\\', '\\']
    } else if c == '"' {
        seq!['\\', '"']
    } else if c == '\n' {
        seq!['\\', 'n']
    } else if c == '\r' {
        seq!['\\', 'r']
    } else if c == '\t' {
        seq!['\\', 't']
    } else if (c as int) < 0x20 {
        seq!['\\', 'u', '0', '0', hex_char((c as int / 16) as nat), hex_char((c as int % 16) as nat)]
    } else {
        seq![c]
    }
}

/// `s` as it is written inside a JSON string.
pub open spec fn escaped(s: Seq<char>) -> Seq<char>
    decreases s.len(),
{
    if s.len() == 0 {
        Seq::empty()
    } else {
        escape_char(s[0]) + escaped(s.skip(1))
    }
}

/// The value of a hexadecimal digit.
pub open spec fn hex_value(c: char) -> Option<int> {
    let n = c as int;
    if 48 <= n <= 57 {
        Some(n - 48)
    } else if 97 <= n <= 102 {
        Some(n - 87)
    } else if 65 <= n <= 70 {
        Some(n - 55)
    } else {
        None
    }
}

/// The number behind `\u`: four hexadecimal digits from `i` on.
pub open spec fn unit_at(s: Seq<char>, i: int) -> Option<int> {
    if i + 4 <= s.len() {
        match (hex_value(s[i]), hex_value(s[i + 1]), hex_value(s[i + 2]), hex_value(s[i + 3])) {
            (Some(a), Some(b), Some(c), Some(d)) => Some(4096 * a + 256 * b + 16 * c + d),
            _ => None,
        }
    } else {
        None
    }
}

/// What a short escape denotes.
pub open spec fn short_escape(c: char) -> Option<char> {
    if c == '"' || c == '\\' || c == '/' {
        Some(c)
    } else if c == 'b' {
        Some('\u{8}')
    } else if c == 'f' {
        Some('\u{c}')
    } else if c == 'n' {
        Some('\n')
    } else if c == 'r' {
        Some('\r')
    } else if c == 't' {
        Some('\t')
    } else {
        None
    }
}

/// The character at the start of the inside of a JSON string, and how many
/// characters it takes. Quotes, control characters and unpaired surrogates are none.
pub open spec fn next_char(s: Seq<char>) -> Option<(char, int)> {
    if s.len() == 0 || s[0] == '"' || (s[0] as int) < 0x20 {
        None
    } else if s[0] != '\\' {
        Some((s[0], 1))
    } else if s.len() < 2 {
        None
    } else if s[1] != 'u' {
        match short_escape(s[1]) {
            Some(c) => Some((c, 2)),
            None => None,
        }
    } else {
        match unit_at(s, 2) {
            None => None,
            Some(n) => if n < 0xD800 || n > 0xDFFF {
                Some((n as char, 6))
            } else if n <= 0xDBFF && s.len() >= 8 && s[6] == '\\' && s[7] == 'u' {
                match unit_at(s, 8) {
                    Some(m) => if 0xDC00 <= m <= 0xDFFF {
                        Some(((0x10000 + (n - 0xD800) * 0x400 + (m - 0xDC00)) as char, 12))
                    } else {
                        None
                    },
                    None => None,
                }
            } else {
                None
            },
        }
    }
}

/// What the inside of a JSON string denotes, where it is one.
pub open spec fn unescaped(s: Seq<char>) -> Option<Seq<char>>
    decreases s.len(),
{
    if s.len() == 0 {
        Some(Seq::empty())
    } else {
        match next_char(s) {
            None => None,
            Some((c, n)) => if 0 < n <= s.len() {
                match unescaped(s.skip(n)) {
                    Some(rest) => Some(seq![c] + rest),
                    None => None,
                }
            } else {
                None
            },
        }
    }
}

proof fn lemma_hex_char(d: nat)
    requires
        d < 16,
    ensures
        48 <= hex_char(d) as int,
        hex_value(hex_char(d)) == Some(d as int),
{
}

proof fn lemma_escape_is_read(c: char, rest: Seq<char>)
    ensures
        next_char(escape_char(c) + rest) == Some((c, escape_char(c).len() as int)),
{
    let s = escape_char(c) + rest;
    let n = c as int;
    if c == '\\' || c == '"' || c == '\n' || c == '\r' || c == '\t' {
        assert(s[0] == '\\');
        assert(s[1] == escape_char(c)[1]);
    } else if (c as int) < 0x20 {
        assert(s[0] == '\\' && s[1] == 'u' && s[2] == '0' && s[3] == '0');
        assert(s[4] == hex_char((n / 16) as nat) && s[5] == hex_char((n % 16) as nat));
        lemma_hex_char((n / 16) as nat);
        lemma_hex_char((n % 16) as nat);
        assert(unit_at(s, 2) == Some(n));
    } else {
        assert(s[0] == c);
    }
}

/// A JSON parser reads an escaped text as the text it was made from.
pub proof fn law_escape_is_undone(s: Seq<char>)
    ensures
        unescaped(escaped(s)) == Some(s),
    decreases s.len(),
{
    if s.len() > 0 {
        law_escape_is_undone(s.skip(1));
        let e = escaped(s);
        let n = escape_char(s[0]).len() as int;
        lemma_escape_is_read(s[0], escaped(s.skip(1)));
        assert(e.skip(n) =~= escaped(s.skip(1)));
        assert(s =~= seq![s[0]] + s.skip(1));
    } else {
        assert(s =~= Seq::<char>::empty());
    }
}

proof fn lemma_escape_is_plain(c: char, i: int)
    requires
        0 <= i < escape_char(c).len(),
    ensures
        escape_char(c)[i] as int >= 0x20,
        escape_char(c)[i] == '"' ==> i > 0 && escape_char(c)[i - 1] == '\\',
{
    let e = escape_char(c);
    let n = c as int;
    if n < 0x20 && c != '\n' && c != '\r' && c != '\t' {
        lemma_hex_char((n / 16) as nat);
        lemma_hex_char((n % 16) as nat);
        assert(e[2] == '0' && e[3] == '0');
        assert(e[4] == hex_char((n / 16) as nat) && e[5] == hex_char((n % 16) as nat));
        assert(e.len() == 6);
    } else {
        assert(e.len() <= 2);
    }
}

/// A quote in an escaped text stands behind a backslash, and no control character
/// is left, so the text cannot end the JSON string it is put into.
pub proof fn law_escaped_stays_inside_quotes(s: Seq<char>)
    ensures
        forall|i: int|
            0 <= i < escaped(s).len() ==> {
                &&& #[trigger] escaped(s)[i] as int >= 0x20
                &&& escaped(s)[i] == '"' ==> i > 0 && escaped(s)[i - 1] == '\\'
            },
    decreases s.len(),
{
    if s.len() > 0 {
        law_escaped_stays_inside_quotes(s.skip(1));
        let n = escape_char(s[0]).len();
        assert forall|i: int| 0 <= i < escaped(s).len() implies {
            &&& #[trigger] escaped(s)[i] as int >= 0x20
            &&& escaped(s)[i] == '"' ==> i > 0 && escaped(s)[i - 1] == '\\'
        } by {
            if i >= n {
                assert(escaped(s)[i] == escaped(s.skip(1))[i - n]);
                if i - n > 0 {
                    assert(escaped(s)[i - 1] == escaped(s.skip(1))[i - n - 1]);
                }
            } else {
                let e = escape_char(s[0]);
                lemma_escape_is_plain(s[0], i);
                assert(escaped(s)[i] == e[i]);
                if i > 0 {
                    assert(escaped(s)[i - 1] == e[i - 1]);
                }
            }
        }
    }
}

proof fn lemma_escaped_push(s: Seq<char>, c: char)
    ensures
        escaped(s.push(c)) == escaped(s) + escape_char(c),
    decreases s.len(),
{
    if s.len() == 0 {
        assert(s.push(c).skip(1) =~= Seq::<char>::empty());
        assert(escaped(Seq::<char>::empty()) =~= Seq::<char>::empty());
        assert(s.push(c)[0] == c);
        assert(escaped(s.push(c)) =~= escape_char(c));
        assert(escaped(s) + escape_char(c) =~= escape_char(c));
    } else {
        assert(s.push(c).skip(1) =~= s.skip(1).push(c));
        lemma_escaped_push(s.skip(1), c);
        assert(escaped(s.push(c)) =~= escaped(s) + escape_char(c));
    }
}

fn hex_digit(d: u8) -> (r: char)
    requires
        d < 16,
    ensures
        r == hex_char(d as nat),
{
    if d < 10 {
        (48 + d) as char
    } else {
        (87 + d) as char
    }
}

/// The number of a control character.
fn control_number(c: char) -> (r: u8)
    requires
        (c as int) < 0x20,
    ensures
        r == c as int,
{
    let mut n: u8 = 0;
    while n < 31 && n as char != c
        invariant
            n <= 31,
            n <= c as int,
            (c as int) < 0x20,
        decreases 31 - n,
    {
        n = n + 1;
    }
    n
}

/// Escapes a text for use inside a JSON string.
pub fn escape_json_string(s: &str) -> (r: String)
    ensures
        r@ == escaped(s@),
{
    let v = text::chars(s);
    let mut out = String::new();
    let mut i: usize = 0;
    assert(s@.take(0) =~= Seq::<char>::empty());
    while i < v.len()
        invariant
            v@ == s@,
            i <= v.len(),
            out@ == escaped(s@.take(i as int)),
        decreases v.len() - i,
    {
        let c = v[i];
        proof {
            assert(s@.take(i + 1) =~= s@.take(i as int).push(c));
            lemma_escaped_push(s@.take(i as int), c);
        }
        let ghost before = out@;
        if c == '\\' {
            out.push('\\');
            out.push('\\');
        } else if c == '"' {
            out.push('\\');
            out.push('"');
        } else if c == '\n' {
            out.push('\\');
            out.push('n');
        } else if c == '\r' {
            out.push('\\');
            out.push('r');
        } else if c == '\t' {
            out.push('\\');
            out.push('t');
        } else if c <= '\u{1f}' {
            let n: u8 = control_number(c);
            out.push('\\');
            out.push('u');
            out.push('0');
            out.push('0');
            let high = hex_digit(n / 16);
            let low = hex_digit(n % 16);
            out.push(high);
            out.push(low);
            assert(n == c as int);
            assert(escape_char(c) =~= seq!['\\', 'u', '0', '0', high, low]);
            assert(out@ =~= before + seq!['\\', 'u', '0', '0', high, low]);
        } else {
            out.push(c);
        }
        assert(out@ =~= before + escape_char(c));
        i = i + 1;
    }
    assert(s@.take(i as int) =~= s@);
    out
}

/// The answer that allows a tool call.
pub open spec fn allow_json() -> Seq<char> {
    "{\"hookSpecificOutput\":{\"hookEventName\":\"PreToolUse\",\"permissionDecision\":\"allow\"}}"@
}

/// The answer that allows a tool call and adds context for the agent.
pub open spec fn context_json(context: Seq<char>) -> Seq<char> {
    "{\"hookSpecificOutput\":{\"hookEventName\":\"PreToolUse\",\"permissionDecision\":\"allow\",\"additionalContext\":\""@
        + escaped(context) + "\"}}"@
}

/// The answer that refuses a tool call.
pub open spec fn deny_json(reason: Seq<char>) -> Seq<char> {
    "{\"hookSpecificOutput\":{\"hookEventName\":\"PreToolUse\",\"permissionDecision\":\"deny\",\"permissionDecisionReason\":\""@
        + escaped(reason) + "\"}}"@
}

fn allow_text() -> (r: String)
    ensures
        r@ == allow_json(),
{
    "{\"hookSpecificOutput\":{\"hookEventName\":\"PreToolUse\",\"permissionDecision\":\"allow\"}}".to_owned()
}

fn context_text(context: &str) -> (r: String)
    ensures
        r@ == context_json(context@),
{
    let e = escape_json_string(context);
    "{\"hookSpecificOutput\":{\"hookEventName\":\"PreToolUse\",\"permissionDecision\":\"allow\",\"additionalContext\":\"".to_owned().concat(
        e.as_str(),
    ).concat("\"}}")
}

fn deny_text(reason: &str) -> (r: String)
    ensures
        r@ == deny_json(reason@),
{
    let e = escape_json_string(reason);
    "{\"hookSpecificOutput\":{\"hookEventName\":\"PreToolUse\",\"permissionDecision\":\"deny\",\"permissionDecisionReason\":\"".to_owned().concat(
        e.as_str(),
    ).concat("\"}}")
}

/// The JSON answer for a decision.
pub open spec fn claude_output(d: DecisionView) -> Seq<char> {
    match d {
        DecisionView::Deny { reason, .. } => deny_json(reason),
        DecisionView::AlreadyConsulted { context } => context_json(
            "[mati] Record already consulted. "@ + context,
        ),
        DecisionView::Advisory { context } => context_json("[mati] "@ + context),
        DecisionView::Liability { context } => context_json("[mati] "@ + context),
        _ => allow_json(),
    }
}

pub fn format_claude_output(decision: &Decision) -> (r: String)
    ensures
        r@ == claude_output(decision@),
{
    match decision {
        Decision::Deny { reason, .. } => deny_text(reason.as_str()),
        Decision::AlreadyConsulted { context } => context_text(
            "[mati] Record already consulted. ".to_owned().concat(context.as_str()).as_str(),
        ),
        Decision::Advisory { context } => context_text(
            "[mati] ".to_owned().concat(context.as_str()).as_str(),
        ),
        Decision::Liability { context } => context_text(
            "[mati] ".to_owned().concat(context.as_str()).as_str(),
        ),
        _ => allow_text(),
    }
}

/// The path that a file key names.
pub open spec fn key_path(key: Seq<char>) -> Seq<char> {
    if "file:"@.is_prefix_of(key) {
        key.skip("file:"@.len() as int)
    } else {
        key
    }
}

/// The reason given for a refused edit.
pub open spec fn edit_reason(key: Seq<char>) -> Seq<char> {
    "[mati] Confirmed gotcha on "@ + key_path(key) + " \u{2014} call mem_get(\""@ + key
        + "\") and read the record before editing this file."@
}

/// What goes to standard output and standard error, and the exit code.
#[verifier::ext_equal]
pub struct OutputView {
    pub stdout: Seq<char>,
    pub stderr: Seq<char>,
    pub exit_code: int,
}

/// The output of a decision. The assistant's own hooks answer in JSON and always
/// exit with 0; Codex is refused by exit code 2 and a line on standard error. What
/// is not refused defers silently, except before a read or shell command of the
/// assistant.
pub open spec fn output_of(variant: HookVariant, d: DecisionView) -> OutputView {
    match variant {
        HookVariant::ClaudePreRead | HookVariant::ClaudePreBash => OutputView {
            stdout: claude_output(d),
            stderr: Seq::empty(),
            exit_code: 0,
        },
        HookVariant::ClaudePreEdit => OutputView {
            stdout: match d {
                DecisionView::Deny { file_key, .. } => deny_json(edit_reason(file_key)),
                _ => Seq::empty(),
            },
            stderr: Seq::empty(),
            exit_code: 0,
        },
        HookVariant::CodexPreBash | HookVariant::CodexPreApplyPatch => match d {
            DecisionView::Deny { file_key, .. } => OutputView {
                stdout: Seq::empty(),
                stderr: "mati: call mem_get(\""@ + file_key + "\") first"@,
                exit_code: 2,
            },
            _ => OutputView { stdout: Seq::empty(), stderr: Seq::empty(), exit_code: 0 },
        },
        _ => OutputView { stdout: Seq::empty(), stderr: Seq::empty(), exit_code: 0 },
    }
}

/// The decision as standard output, standard error and exit code.
pub fn format_decision(variant: HookVariant, decision: &Decision) -> (r: (String, String, i32))
    ensures
        output_of(variant, decision@) == (OutputView {
            stdout: r.0@,
            stderr: r.1@,
            exit_code: r.2 as int,
        }),
{
    match variant {
        HookVariant::ClaudePreRead | HookVariant::ClaudePreBash => (
            format_claude_output(decision),
            String::new(),
            0,
        ),
        HookVariant::ClaudePreEdit => match decision {
            Decision::Deny { file_key, .. } => {
                let key = file_key.as_str();
                let path = match text::strip_prefix(key, "file:") {
                    Some(p) => p,
                    None => key,
                };
                let reason = "[mati] Confirmed gotcha on ".to_owned().concat(path).concat(
                    " \u{2014} call mem_get(\"",
                ).concat(key).concat("\") and read the record before editing this file.");
                (deny_text(reason.as_str()), String::new(), 0)
            },
            _ => (String::new(), String::new(), 0),
        },
        HookVariant::CodexPreBash | HookVariant::CodexPreApplyPatch => match decision {
            Decision::Deny { file_key, .. } => (
                String::new(),
                "mati: call mem_get(\"".to_owned().concat(file_key.as_str()).concat("\") first"),
                2,
            ),
            _ => (String::new(), String::new(), 0),
        },
        _ => (String::new(), String::new(), 0),
    }
}

/// What a hook prints where nothing is enforced: the assistant's read and shell
/// hooks say `allow`, the others stay silent.
pub open spec fn allow_output(variant: HookVariant) -> Seq<char> {
    match variant {
        HookVariant::ClaudePreRead | HookVariant::ClaudePreBash => allow_json(),
        _ => Seq::empty(),
    }
}

/// What the hook prints to let the tool call pass.
pub fn emit_allow(variant: HookVariant) -> (r: String)
    ensures
        r@ == allow_output(variant),
{
    match variant {
        HookVariant::ClaudePreRead | HookVariant::ClaudePreBash => allow_text(),
        _ => String::new(),
    }
}

// ---------------------------------------------------------------------------
// Laws
// ---------------------------------------------------------------------------

/// What a refusal begins with on standard output.
pub open spec fn refusal_head() -> Seq<char> {
    "{\"hookSpecificOutput\":{\"hookEventName\":\"PreToolUse\",\"permissionDecision\":\"deny\",\"permissionDecisionReason\":\""@
}

/// What a permission begins with on standard output.
pub open spec fn permission_head() -> Seq<char> {
    "{\"hookSpecificOutput\":{\"hookEventName\":\"PreToolUse\",\"permissionDecision\":\"allow\""@
}

proof fn lemma_heads(reason: Seq<char>, context: Seq<char>)
    ensures
        refusal_head().is_prefix_of(deny_json(reason)),
        !permission_head().is_prefix_of(deny_json(reason)),
        permission_head().is_prefix_of(context_json(context)),
        !refusal_head().is_prefix_of(context_json(context)),
        permission_head().is_prefix_of(allow_json()),
        !refusal_head().is_prefix_of(allow_json()),
        refusal_head().len() > 0,
{
    reveal_strlit("{\"hookSpecificOutput\":{\"hookEventName\":\"PreToolUse\",\"permissionDecision\":\"deny\",\"permissionDecisionReason\":\"");
    reveal_strlit("{\"hookSpecificOutput\":{\"hookEventName\":\"PreToolUse\",\"permissionDecision\":\"allow\"");
    reveal_strlit("{\"hookSpecificOutput\":{\"hookEventName\":\"PreToolUse\",\"permissionDecision\":\"allow\",\"additionalContext\":\"");
    reveal_strlit("{\"hookSpecificOutput\":{\"hookEventName\":\"PreToolUse\",\"permissionDecision\":\"allow\"}}");
    let d = "{\"hookSpecificOutput\":{\"hookEventName\":\"PreToolUse\",\"permissionDecision\":\"deny\",\"permissionDecisionReason\":\""@;
    let c = "{\"hookSpecificOutput\":{\"hookEventName\":\"PreToolUse\",\"permissionDecision\":\"allow\",\"additionalContext\":\""@;
    let a = permission_head();
    assert(deny_json(reason).subrange(0, d.len() as int) =~= d);
    assert(context_json(context)[74] == c[74]);
    assert(deny_json(reason)[74] == d[74]);
    assert(a[74] == 'a' && d[74] == 'd' && c[74] == 'a' && allow_json()[74] == 'a');
    assert(c.subrange(0, a.len() as int) =~= a);
    assert(context_json(context).subrange(0, a.len() as int) =~= c.subrange(0, a.len() as int));
    assert(allow_json().subrange(0, a.len() as int) =~= a);
    if refusal_head().is_prefix_of(allow_json()) {
        assert(allow_json().subrange(0, d.len() as int)[74] == d[74]);
    }
    if refusal_head().is_prefix_of(context_json(context)) {
        assert(context_json(context).subrange(0, d.len() as int)[74] == d[74]);
    }
    if a.is_prefix_of(deny_json(reason)) {
        assert(deny_json(reason).subrange(0, a.len() as int)[74] == a[74]);
    }
}

/// A tool call is refused if and only if the decision is a deny. Before a read or
/// a shell command of the assistant the answer is a refusal for a deny and a
/// permission for everything else; before an edit it is a refusal or silence;
/// before a command or patch of Codex a deny is exit code 2 with a line that names
/// the record, and everything else is silent success. Hooks that run afterwards
/// refuse nothing.
pub proof fn law_only_a_deny_refuses(variant: HookVariant, d: DecisionView)
    ensures
        ({
            let o = output_of(variant, d);
            match variant {
                HookVariant::ClaudePreRead | HookVariant::ClaudePreBash => {
                    &&& o.exit_code == 0 && o.stderr.len() == 0
                    &&& d is Deny <==> refusal_head().is_prefix_of(o.stdout)
                    &&& !(d is Deny) <==> permission_head().is_prefix_of(o.stdout)
                },
                HookVariant::ClaudePreEdit => {
                    &&& o.exit_code == 0 && o.stderr.len() == 0
                    &&& d is Deny <==> refusal_head().is_prefix_of(o.stdout)
                    &&& !(d is Deny) <==> o.stdout.len() == 0
                },
                HookVariant::CodexPreBash | HookVariant::CodexPreApplyPatch => {
                    &&& o.stdout.len() == 0
                    &&& d is Deny <==> o.exit_code == 2
                    &&& !(d is Deny) <==> o.exit_code == 0
                    &&& !(d is Deny) <==> o.stderr.len() == 0
                    &&& d matches DecisionView::Deny { file_key, .. } ==> text::text_contains(
                        o.stderr,
                        "mem_get(\""@ + file_key + "\")"@,
                    )
                },
                HookVariant::CodexPostBash | HookVariant::ClaudePostMemGet => {
                    o.exit_code == 0 && o.stdout.len() == 0 && o.stderr.len() == 0
                },
            }
        }),
{
    let o = output_of(variant, d);
    let said = match d {
        DecisionView::AlreadyConsulted { context } => "[mati] Record already consulted. "@
            + context,
        DecisionView::Advisory { context } => "[mati] "@ + context,
        DecisionView::Liability { context } => "[mati] "@ + context,
        _ => Seq::empty(),
    };
    lemma_heads(Seq::empty(), said);
    if let DecisionView::Deny { file_key, reason } = d {
        lemma_heads(reason, said);
        lemma_heads(edit_reason(file_key), said);
        if variant == HookVariant::CodexPreBash || variant == HookVariant::CodexPreApplyPatch {
            reveal_strlit("mati: call mem_get(\"");
            reveal_strlit("mem_get(\"");
            reveal_strlit("\") first");
            reveal_strlit("\")");
            let call = "mem_get(\""@ + file_key + "\")"@;
            assert(o.stderr.subrange(11, (11 + call.len()) as int) =~= call);
            assert(text::occurs_at(o.stderr, call, 11));
        }
    }
}

/// What a JSON reader finds in the one free field of an answer that begins with
/// `head`.
pub open spec fn says(answer: Seq<char>, head: Seq<char>, said: Seq<char>) -> bool {
    exists|e: Seq<char>| answer == head + (e + "\"}}"@) && #[trigger] unescaped(e) == Some(said)
}

proof fn lemma_says(head: Seq<char>, said: Seq<char>)
    ensures
        says(head + escaped(said) + "\"}}"@, head, said),
{
    let e = escaped(said);
    law_escape_is_undone(said);
    assert(head + e + "\"}}"@ =~= head + (e + "\"}}"@));
}

/// The agent reads what the rules have to say: a refused read or command carries
/// the reason of the deny, a refused edit names the record to be read, and a
/// permission carries the context behind mati's mark. Where nothing is known the
/// answer only allows.
pub proof fn law_answers_carry_the_context(d: DecisionView)
    ensures
        ({
            let told = "{\"hookSpecificOutput\":{\"hookEventName\":\"PreToolUse\",\"permissionDecision\":\"allow\",\"additionalContext\":\""@;
            let o = output_of(HookVariant::ClaudePreRead, d).stdout;
            let edit = output_of(HookVariant::ClaudePreEdit, d).stdout;
            &&& output_of(HookVariant::ClaudePreBash, d).stdout == o
            &&& match d {
                DecisionView::Deny { file_key, reason } => {
                    &&& says(o, refusal_head(), reason)
                    &&& exists|r: Seq<char>|
                        #[trigger] says(edit, refusal_head(), r) && text::text_contains(
                            r,
                            "mem_get(\""@ + file_key + "\")"@,
                        )
                },
                DecisionView::AlreadyConsulted { context } => says(
                    o,
                    told,
                    "[mati] Record already consulted. "@ + context,
                ),
                DecisionView::Advisory { context } => says(o, told, "[mati] "@ + context),
                DecisionView::Liability { context } => says(o, told, "[mati] "@ + context),
                DecisionView::Allow | DecisionView::NoRecord => o
                    == "{\"hookSpecificOutput\":{\"hookEventName\":\"PreToolUse\",\"permissionDecision\":\"allow\"}}"@,
            }
        }),
{
    let told = "{\"hookSpecificOutput\":{\"hookEventName\":\"PreToolUse\",\"permissionDecision\":\"allow\",\"additionalContext\":\""@;
    match d {
        DecisionView::Deny { file_key, reason } => {
            lemma_says(refusal_head(), reason);
            let r = edit_reason(file_key);
            lemma_says(refusal_head(), r);
            let call = "mem_get(\""@ + file_key + "\")"@;
            let h = "[mati] Confirmed gotcha on "@ + key_path(file_key);
            reveal_strlit(" \u{2014} call mem_get(\"");
            reveal_strlit("mem_get(\"");
            reveal_strlit("\")");
            reveal_strlit("\") and read the record before editing this file.");
            let at = h.len() + 8;
            assert(r.subrange(at as int, (at + call.len()) as int) =~= call);
            assert(text::occurs_at(r, call, at as int));
            assert(says(output_of(HookVariant::ClaudePreEdit, d).stdout, refusal_head(), r));
        },
        DecisionView::AlreadyConsulted { context } => {
            lemma_says(told, "[mati] Record already consulted. "@ + context);
        },
        DecisionView::Advisory { context } => {
            lemma_says(told, "[mati] "@ + context);
        },
        DecisionView::Liability { context } => {
            lemma_says(told, "[mati] "@ + context);
        },
        _ => {},
    }
}

/// A hook that has nothing to enforce answers as it answers an allowed call.
pub proof fn law_nothing_to_enforce_is_an_allow(variant: HookVariant)
    ensures
        output_of(variant, DecisionView::Allow) == (OutputView {
            stdout: allow_output(variant),
            stderr: Seq::empty(),
            exit_code: 0,
        }),
        !refusal_head().is_prefix_of(allow_output(variant)),
{
    lemma_heads(Seq::empty(), Seq::empty());
}

/// What a hook records is about the records of its events, in their order, and a
/// block is always recorded as one of the blocks, never as a consultation.
pub proof fn law_blocks_are_recorded(variant: HookVariant, d: DecisionView, e: EventView)
    ensures
        platform_event(variant, d, e) matches Some(r) ==> r.key == e.key,
        e.kind == EventKind::BlockedUnconsultedRead ==> {
            &&& platform_event(variant, d, e) matches Some(r)
            &&& r.kind == (match variant {
                HookVariant::CodexPreBash | HookVariant::CodexPreApplyPatch =>
                EventKind::CodexShellBlocked,
                HookVariant::ClaudePreEdit => EventKind::EditBlocked,
                _ => EventKind::BlockedUnconsultedRead,
            })
        },
        e.kind == EventKind::FloorConsultBlocked ==> platform_event(variant, d, e) == Some(e),
        variant == HookVariant::ClaudePreRead || variant == HookVariant::ClaudePreBash || variant
            == HookVariant::CodexPostBash || variant == HookVariant::ClaudePostMemGet
            ==> platform_event(variant, d, e) == Some(e),
        variant == HookVariant::CodexPreBash || variant == HookVariant::CodexPreApplyPatch ==> {
            &&& e.kind == EventKind::ComplianceHit ==> platform_event(variant, d, e) is None
            &&& e.kind == EventKind::Miss ==> platform_event(variant, d, e) == Some(e)
            &&& e.kind == EventKind::Hit ==> (platform_event(variant, d, e) is None <==> d
                is Advisory || d is Liability)
            &&& e.kind == EventKind::Hit && !(d is Advisory || d is Liability)
                ==> platform_event(variant, d, e) == Some(e)
        },
        variant == HookVariant::ClaudePreEdit ==> {
            &&& e.kind == EventKind::Hit || e.kind == EventKind::Miss ==> platform_event(
                variant,
                d,
                e,
            ) is None
            &&& e.kind == EventKind::ComplianceHit ==> platform_event(variant, d, e) == Some(
                EventView { kind: EventKind::EditConsulted, key: e.key },
            )
        },
{
}

/// What is recorded of a row of events is what is recorded of each, in order.
pub proof fn law_events_are_recorded_one_by_one(
    variant: HookVariant,
    d: DecisionView,
    events: Seq<EventView>,
    e: EventView,
)
    ensures
        recorded(variant, d, Seq::empty()).len() == 0,
        recorded(variant, d, events.push(e)) == (match platform_event(variant, d, e) {
            Some(x) => recorded(variant, d, events).push(x),
            None => recorded(variant, d, events),
        }),
{
    let f = |x: EventView| platform_event(variant, d, x);
    let all = events.push(e);
    all.lemma_filter_map_take_succ(f, events.len() as int);
    assert(all.take(events.len() as int) =~= events);
    assert(all.take((events.len() + 1) as int) =~= all);
    reveal(Seq::filter_map);
}

} // verus!
