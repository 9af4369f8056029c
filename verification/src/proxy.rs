//! Routing store operations to the daemon or to the store itself: which way is
//! taken, what is asked of the daemon, and how its replies are read.
use vstd::prelude::*;
use crate::daemon;
use crate::daemon::Ping;
use crate::json;
use crate::json::{Json, JsonView};
use crate::ranking;
use crate::ranking::Ranked;
use crate::record::{Priority, RecordSource};
use crate::sentinel;
use crate::text;

verus! {

// ---------------------------------------------------------------------------
// The two ways
// ---------------------------------------------------------------------------

/// The store itself, or the directory in which the daemon's socket is.
pub enum ProxyInner<S> {
    Direct(S),
    Socket { root: String },
}

/// Access to the records of a repository.
pub struct StoreProxy<S> {
    pub inner: ProxyInner<S>,
}

impl<S> StoreProxy<S> {
    /// The store, where it is accessed directly.
    pub fn direct_store(&self) -> (r: Option<&S>)
        ensures
            match r {
                Some(s) => self.inner == ProxyInner::Direct(*s),
                None => self.inner is Socket,
            },
    {
        match &self.inner {
            ProxyInner::Direct(s) => Some(s),
            ProxyInner::Socket { .. } => None,
        }
    }

    pub fn is_direct(&self) -> (r: bool)
        ensures
            r == self.inner is Direct,
    {
        match &self.inner {
            ProxyInner::Direct(_) => true,
            ProxyInner::Socket { .. } => false,
        }
    }

    /// Gives the store out of a proxy that accesses it directly.
    pub fn into_store(self) -> (r: S)
        requires
            self.inner is Direct,
        ensures
            self.inner == ProxyInner::Direct(r),
    {
        match self.inner {
            ProxyInner::Direct(s) => s,
            ProxyInner::Socket { .. } => vstd::pervasive::unreached(),
        }
    }
}

/// How a command reaches the records.
#[derive(Debug, PartialEq, Eq)]
pub enum Route {
    Socket,
    Direct,
    Refused(String),
}

/// Whether `r` is the way that is taken.
pub open spec fn is_route(ping: Ping, has_store: bool, r: Route) -> bool {
    match ping {
        Ping::Answered => r is Socket,
        Ping::NotRunning | Ping::StaleSocket => if has_store {
            r is Direct
        } else {
            r matches Route::Refused(m) && m@
                == "no mati store initialized for this directory.\nRun `mati init` to set up, or `cd` into a project that has been initialized."@
        },
        Ping::Unresponsive => r matches Route::Refused(m) && m@
            == "mati daemon is running but not responding.\nCannot open the store while the daemon holds the lock.\nTry: mati daemon stop"@,
    }
}

/// Chooses the way: through a daemon that answers; directly where none runs and
/// there is a store. No store is created, and none is opened behind a daemon that
/// does not answer.
pub fn open_route(ping: Ping, has_store: bool) -> (r: Route)
    ensures
        is_route(ping, has_store, r),
{
    match ping {
        Ping::Answered => Route::Socket,
        Ping::NotRunning | Ping::StaleSocket => if has_store {
            Route::Direct
        } else {
            Route::Refused(
                "no mati store initialized for this directory.\nRun `mati init` to set up, or `cd` into a project that has been initialized.".to_owned(),
            )
        },
        Ping::Unresponsive => Route::Refused(
            "mati daemon is running but not responding.\nCannot open the store while the daemon holds the lock.\nTry: mati daemon stop".to_owned(),
        ),
    }
}

/// Milliseconds for which opening a locked store is tried again.
pub const LOCK_BUDGET_MS: u64 = 15_000;

/// Whether one of the texts says that the store is locked.
pub open spec fn says_locked(s: Seq<char>) -> bool {
    text::text_contains(s, "already locked"@) || text::text_contains(s, "WouldBlock"@)
        || text::text_contains(s, "holds the lock"@)
}

/// Whether opening is tried again.
pub open spec fn tries_again(chain: Seq<Seq<char>>, elapsed_ms: u64) -> bool {
    elapsed_ms < LOCK_BUDGET_MS && exists|k: int|
        0 <= k < chain.len() && says_locked(#[trigger] chain[k])
}

/// Whether opening is tried again after an error, given the texts of the error and
/// its causes: only where the store is locked, and as long as the budget lasts.
pub fn retries_open(chain: &Vec<String>, elapsed_ms: u64) -> (r: bool)
    ensures
        r == tries_again(text::texts(chain@), elapsed_ms),
{
    if elapsed_ms >= LOCK_BUDGET_MS {
        return false;
    }
    let mut i: usize = 0;
    while i < chain.len()
        invariant
            i <= chain.len(),
            elapsed_ms < LOCK_BUDGET_MS,
            forall|k: int| 0 <= k < i ==> !says_locked(#[trigger] text::texts(chain@)[k]),
        decreases chain.len() - i,
    {
        let s = chain[i].as_str();
        if text::contains(s, "already locked") || text::contains(s, "WouldBlock") || text::contains(
            s,
            "holds the lock",
        ) {
            assert(says_locked(text::texts(chain@)[i as int]));
            return true;
        }
        i = i + 1;
    }
    false
}

/// Milliseconds to wait before the next try, spread by the clock.
pub fn retry_delay_ms(nanos: u32) -> (r: u64)
    ensures
        r == 30 + nanos % 90,
        30 <= r < 120,
{
    30 + (nanos % 90) as u64
}

/// The write counter out of its file; 0 where there is none.
pub fn read_write_seq(content: Option<&str>) -> (r: u64)
    ensures
        r == (match content {
            Some(c) => match text::number_text(text::trimmed(c@), u64::MAX as nat) {
                Some(n) => n,
                None => 0,
            },
            None => 0,
        }),
{
    match content {
        Some(c) => {
            let t = text::trim(c);
            match text::parse_number(t.as_str(), u64::MAX) {
                Some(n) => n,
                None => 0,
            }
        },
        None => 0,
    }
}

/// Whether `r` is the outcome of an operation after the proxy was closed.
pub open spec fn is_closing_result<T, E>(
    result: Result<T, E>,
    closed: Result<(), E>,
    r: Result<T, E>,
) -> bool {
    match result {
        Ok(t) => match closed {
            Ok(_) => r == Ok::<T, E>(t),
            Err(e) => r == Err::<T, E>(e),
        },
        Err(e) => r == Err::<T, E>(e),
    }
}

/// The outcome of an operation after the proxy was closed: its own error is kept;
/// a failure to close counts only where it succeeded.
pub fn close_with_result<T, E>(result: Result<T, E>, closed: Result<(), E>) -> (r: Result<T, E>)
    ensures
        is_closing_result(result, closed, r),
{
    match result {
        Ok(t) => match closed {
            Ok(_) => Ok(t),
            Err(e) => Err(e),
        },
        Err(e) => Err(e),
    }
}

// ---------------------------------------------------------------------------
// Reading replies
// ---------------------------------------------------------------------------

/// The data of an envelope; none where they are missing or null.
pub open spec fn data_of(envelope: JsonView) -> Option<JsonView> {
    match json::member(envelope, "data"@) {
        Some(JsonView::Null) => None,
        Some(d) => Some(d),
        None => None,
    }
}

pub fn reply_data(envelope: &Json) -> (r: Option<&Json>)
    ensures
        json::opt_view(r) == data_of(envelope@),
{
    match envelope.get("data") {
        Some(Json::Null) => None,
        Some(d) => Some(d),
        None => None,
    }
}

/// What a reply complains of; nothing where it reports success.
pub open spec fn complaint_of(envelope: JsonView, default: Seq<char>) -> Option<Seq<char>> {
    if json::is_true(json::member(envelope, "ok"@)) {
        None
    } else {
        Some(daemon::text_or(envelope, "error"@, default))
    }
}

pub fn complaint(envelope: &Json, default: &str) -> (r: Option<String>)
    ensures
        json::opt_text(r) == complaint_of(envelope@, default@),
{
    if envelope.flag("ok") {
        None
    } else {
        match envelope.text_of("error") {
            Some(e) => Some(e),
            None => Some(default.to_owned()),
        }
    }
}

/// The error of a put that the daemon rejects.
pub open spec fn put_error(envelope: JsonView) -> Option<Seq<char>> {
    match complaint_of(envelope, "(no message returned)"@) {
        Some(e) => Some(
            "daemon rejected put: "@ + e
                + "\nIf this persists, restart the daemon: `mati daemon stop && mati daemon start`"@,
        ),
        None => None,
    }
}

pub fn put_reply(envelope: &Json) -> (r: Option<String>)
    ensures
        json::opt_text(r) == put_error(envelope@),
{
    match complaint(envelope, "(no message returned)") {
        Some(e) => Some(
            "daemon rejected put: ".to_owned().concat(e.as_str()).concat(
                "\nIf this persists, restart the daemon: `mati daemon stop && mati daemon start`",
            ),
        ),
        None => None,
    }
}

/// The error of another write that the daemon refuses: the operation and why.
pub fn write_reply(what: &str, envelope: &Json) -> (r: Option<String>)
    ensures
        json::opt_text(r) == (match complaint_of(envelope@, "unknown"@) {
            Some(e) => Some(what@ + ": "@ + e),
            None => None,
        }),
{
    match complaint(envelope, "unknown") {
        Some(e) => Some(what.to_owned().concat(": ").concat(e.as_str())),
        None => None,
    }
}

pub open spec fn failure_text(p: Ping) -> Seq<char> {
    match p {
        Ping::NotRunning => "daemon stopped"@,
        Ping::StaleSocket => "daemon socket became stale"@,
        _ => "daemon did not respond"@,
    }
}

/// The error of an operation that got no answer.
pub fn socket_read_error(op: &str, result: Ping) -> (r: String)
    requires
        result != Ping::Answered,
    ensures
        r@ == "mati daemon "@ + failure_text(result) + " while handling '"@ + op@
            + "' read; retry after restarting the daemon"@,
{
    let detail = match result {
        Ping::NotRunning => "daemon stopped",
        Ping::StaleSocket => "daemon socket became stale",
        _ => "daemon did not respond",
    };
    "mati daemon ".to_owned().concat(detail).concat(" while handling '").concat(op).concat(
        "' read; retry after restarting the daemon",
    )
}

// ---------------------------------------------------------------------------
// Writing a record through the daemon
// ---------------------------------------------------------------------------

/// The payload of a gotcha record.
#[derive(Debug, PartialEq, Eq)]
pub struct GotchaPayload {
    pub rule: String,
    pub reason: String,
    pub severity: Priority,
    pub affected_files: Vec<String>,
    pub ref_url: Option<String>,
}

/// What a put reads of a record. `gotcha` is the payload, where it has the shape
/// of a gotcha.
#[derive(Debug, PartialEq, Eq)]
pub struct PutRecord {
    pub value: String,
    pub tags: Vec<String>,
    pub priority: Priority,
    pub source: RecordSource,
    pub payload: Option<Json>,
    pub gotcha: Option<GotchaPayload>,
}

/// What the daemon is asked to write.
#[derive(Debug, PartialEq, Eq)]
pub enum PutCommand {
    GotchaUpsert {
        key: String,
        rule: String,
        reason: String,
        /// The daemon's default where there is none.
        severity: Option<Priority>,
        affected_files: Vec<String>,
        ref_url: Option<String>,
        tags: Vec<String>,
        priority: Priority,
        source: Option<String>,
    },
    FileEnrich { path: String, purpose: String, tags: Vec<String> },
    DecisionUpsert {
        slug: String,
        value: String,
        summary: String,
        rationale: String,
        tags: Vec<String>,
    },
    DevNoteUpsert { key: String, text: String, tags: Vec<String>, priority: Priority },
}

#[verifier::ext_equal]
pub enum PutView {
    GotchaUpsert {
        key: Seq<char>,
        rule: Seq<char>,
        reason: Seq<char>,
        severity: Option<Priority>,
        affected_files: Seq<Seq<char>>,
        ref_url: Option<Seq<char>>,
        tags: Seq<Seq<char>>,
        priority: Priority,
        source: Option<Seq<char>>,
    },
    FileEnrich { path: Seq<char>, purpose: Seq<char>, tags: Seq<Seq<char>> },
    DecisionUpsert {
        slug: Seq<char>,
        value: Seq<char>,
        summary: Seq<char>,
        rationale: Seq<char>,
        tags: Seq<Seq<char>>,
    },
    DevNoteUpsert { key: Seq<char>, text: Seq<char>, tags: Seq<Seq<char>>, priority: Priority },
}

impl View for PutCommand {
    type V = PutView;

    open spec fn view(&self) -> PutView {
        match self {
            PutCommand::GotchaUpsert {
                key,
                rule,
                reason,
                severity,
                affected_files,
                ref_url,
                tags,
                priority,
                source,
            } => PutView::GotchaUpsert {
                key: key@,
                rule: rule@,
                reason: reason@,
                severity: *severity,
                affected_files: text::texts(affected_files@),
                ref_url: json::opt_text(*ref_url),
                tags: text::texts(tags@),
                priority: *priority,
                source: json::opt_text(*source),
            },
            PutCommand::FileEnrich { path, purpose, tags } => PutView::FileEnrich {
                path: path@,
                purpose: purpose@,
                tags: text::texts(tags@),
            },
            PutCommand::DecisionUpsert { slug, value, summary, rationale, tags } =>
            PutView::DecisionUpsert {
                slug: slug@,
                value: value@,
                summary: summary@,
                rationale: rationale@,
                tags: text::texts(tags@),
            },
            PutCommand::DevNoteUpsert { key, text, tags, priority } => PutView::DevNoteUpsert {
                key: key@,
                text: text@,
                tags: text::texts(tags@),
                priority: *priority,
            },
        }
    }
}

/// A text member of the payload.
pub open spec fn payload_text(r: PutRecord, name: Seq<char>) -> Option<Seq<char>> {
    match r.payload {
        Some(p) => json::text_value(json::member(p@, name)),
        None => None,
    }
}

/// The texts among the first `n` values.
pub open spec fn texts_among(v: Seq<JsonView>, n: int) -> Seq<Seq<char>>
    decreases n,
{
    if n <= 0 {
        Seq::empty()
    } else {
        let before = texts_among(v, n - 1);
        match v[n - 1] {
            JsonView::Str(s) => before.push(s),
            _ => before,
        }
    }
}

/// The texts in a list of the payload.
pub open spec fn payload_list(r: PutRecord, name: Seq<char>) -> Seq<Seq<char>> {
    match r.payload {
        Some(p) => match json::member(p@, name) {
            Some(JsonView::Array(v)) => texts_among(v, v.len() as int),
            _ => Seq::empty(),
        },
        None => Seq::empty(),
    }
}

/// The rule of a gotcha: of its payload, of the payload's member, or the record's
/// value, whichever is first not empty.
pub open spec fn put_rule(r: PutRecord) -> Seq<char> {
    match json::filled_text(
        match r.gotcha {
            Some(g) => Some(g.rule@),
            None => None,
        },
    ) {
        Some(rule) => rule,
        None => match json::filled_text(payload_text(r, "rule"@)) {
            Some(rule) => rule,
            None => r.value@,
        },
    }
}

pub open spec fn put_reason(r: PutRecord) -> Seq<char> {
    match json::filled_text(
        match r.gotcha {
            Some(g) => Some(g.reason@),
            None => None,
        },
    ) {
        Some(reason) => reason,
        None => match payload_text(r, "reason"@) {
            Some(reason) => reason,
            None => Seq::empty(),
        },
    }
}

pub open spec fn put_files(r: PutRecord) -> Seq<Seq<char>> {
    match r.gotcha {
        Some(g) => if g.affected_files@.len() > 0 {
            text::texts(g.affected_files@)
        } else {
            payload_list(r, "affected_files"@)
        },
        None => payload_list(r, "affected_files"@),
    }
}

/// Where a gotcha comes from, as far as the daemon is told.
pub open spec fn put_source(s: RecordSource) -> Option<Seq<char>> {
    match s {
        RecordSource::DeveloperManual => Some("developer_manual"@),
        RecordSource::Import => Some("import"@),
        _ => None,
    }
}

pub open spec fn gotcha_put(key: Seq<char>, r: PutRecord) -> PutView {
    PutView::GotchaUpsert {
        key,
        rule: put_rule(r),
        reason: put_reason(r),
        severity: match r.gotcha {
            Some(g) => Some(g.severity),
            None => None,
        },
        affected_files: put_files(r),
        ref_url: match r.gotcha {
            Some(g) => json::opt_text(g.ref_url),
            None => None,
        },
        tags: text::texts(r.tags@),
        priority: r.priority,
        source: put_source(r.source),
    }
}

pub open spec fn text_or_empty(t: Option<Seq<char>>) -> Seq<char> {
    match t {
        Some(s) => s,
        None => Seq::empty(),
    }
}

/// What the daemon is asked for a key and a record, by the key's namespace; none
/// for the namespaces that the daemon keeps to itself.
pub open spec fn put_of(key: Seq<char>, r: PutRecord) -> Option<PutView> {
    if "gotcha:"@.is_prefix_of(key) {
        Some(gotcha_put(key, r))
    } else if "file:"@.is_prefix_of(key) {
        Some(
            PutView::FileEnrich {
                path: key.skip("file:"@.len() as int),
                purpose: r.value@,
                tags: text::texts(r.tags@),
            },
        )
    } else if "decision:"@.is_prefix_of(key) {
        Some(
            PutView::DecisionUpsert {
                slug: key.skip("decision:"@.len() as int),
                value: r.value@,
                summary: text_or_empty(payload_text(r, "summary"@)),
                rationale: text_or_empty(payload_text(r, "rationale"@)),
                tags: text::texts(r.tags@),
            },
        )
    } else if "dev_note:"@.is_prefix_of(key) {
        Some(
            PutView::DevNoteUpsert {
                key,
                text: r.value@,
                tags: text::texts(r.tags@),
                priority: r.priority,
            },
        )
    } else {
        None
    }
}

fn copy_list(v: &Vec<String>) -> (r: Vec<String>)
    ensures
        text::texts(r@) == text::texts(v@),
{
    let mut out: Vec<String> = Vec::new();
    text::push_all(&mut out, v);
    assert(text::texts(out@) =~= text::texts(v@));
    out
}

fn read_payload(r: &PutRecord, name: &str) -> (t: Option<String>)
    ensures
        json::opt_text(t) == payload_text(*r, name@),
{
    match &r.payload {
        Some(p) => p.text_of(name),
        None => None,
    }
}

fn read_list(r: &PutRecord, name: &str) -> (t: Vec<String>)
    ensures
        text::texts(t@) == payload_list(*r, name@),
{
    let mut out: Vec<String> = Vec::new();
    assert(text::texts(out@) =~= Seq::<Seq<char>>::empty());
    if let Some(p) = &r.payload {
        if let Some(j) = p.get(name) {
            if let Json::Array(v) = j {
                proof {
                    json::lemma_array_view(*v);
                }
                let ghost all = json::items(v@);
                let mut i: usize = 0;
                while i < v.len()
                    invariant
                        i <= v.len(),
                        all == json::items(v@),
                        text::texts(out@) == texts_among(all, i as int),
                    decreases v.len() - i,
                {
                    assert(all[i as int] == v@[i as int]@);
                    if let Some(s) = v[i].as_text() {
                        text::push_line(&mut out, s);
                    }
                    i = i + 1;
                }
            }
        }
    }
    out
}

fn read_gotcha(key: &str, r: &PutRecord) -> (c: PutCommand)
    ensures
        c@ == gotcha_put(key@, *r),
{
    let own_rule = match &r.gotcha {
        Some(g) => Some(g.rule.clone()),
        None => None,
    };
    let rule = match json::filled(own_rule) {
        Some(s) => s,
        None => match json::filled(read_payload(r, "rule")) {
            Some(s) => s,
            None => r.value.clone(),
        },
    };
    let own_reason = match &r.gotcha {
        Some(g) => Some(g.reason.clone()),
        None => None,
    };
    let reason = match json::filled(own_reason) {
        Some(s) => s,
        None => match read_payload(r, "reason") {
            Some(s) => s,
            None => String::new(),
        },
    };
    let affected_files = match &r.gotcha {
        Some(g) => if g.affected_files.len() > 0 {
            copy_list(&g.affected_files)
        } else {
            read_list(r, "affected_files")
        },
        None => read_list(r, "affected_files"),
    };
    let severity = match &r.gotcha {
        Some(g) => Some(g.severity),
        None => None,
    };
    let ref_url = match &r.gotcha {
        Some(g) => match &g.ref_url {
            Some(u) => Some(u.clone()),
            None => None,
        },
        None => None,
    };
    let source = match r.source {
        RecordSource::DeveloperManual => Some("developer_manual".to_owned()),
        RecordSource::Import => Some("import".to_owned()),
        _ => None,
    };
    assert(reason@ =~= put_reason(*r));
    PutCommand::GotchaUpsert {
        key: key.to_owned(),
        rule,
        reason,
        severity,
        affected_files,
        ref_url,
        tags: copy_list(&r.tags),
        priority: r.priority,
        source,
    }
}

fn text_or_none(t: Option<String>) -> (r: String)
    ensures
        r@ == text_or_empty(json::opt_text(t)),
{
    match t {
        Some(s) => s,
        None => {
            let s = String::new();
            assert(s@ =~= Seq::<char>::empty());
            s
        },
    }
}

/// What to ask of the daemon to write a record, or why it cannot be asked.
pub fn put_command(key: &str, r: &PutRecord) -> (c: Result<PutCommand, String>)
    ensures
        match c {
            Ok(cmd) => put_of(key@, *r) == Some(cmd@),
            Err(e) => put_of(key@, *r) is None && e@
                == "StoreProxy::put: unsupported namespace in socket mode: "@ + key@
                + "\nSupported: gotcha:*, file:*, decision:*, dev_note:*"@,
        },
{
    if text::starts_with(key, "gotcha:") {
        return Ok(read_gotcha(key, r));
    }
    if let Some(path) = text::strip_prefix(key, "file:") {
        return Ok(
            PutCommand::FileEnrich {
                path: path.to_owned(),
                purpose: r.value.clone(),
                tags: copy_list(&r.tags),
            },
        );
    }
    if let Some(slug) = text::strip_prefix(key, "decision:") {
        return Ok(
            PutCommand::DecisionUpsert {
                slug: slug.to_owned(),
                value: r.value.clone(),
                summary: text_or_none(read_payload(r, "summary")),
                rationale: text_or_none(read_payload(r, "rationale")),
                tags: copy_list(&r.tags),
            },
        );
    }
    if text::starts_with(key, "dev_note:") {
        return Ok(
            PutCommand::DevNoteUpsert {
                key: key.to_owned(),
                text: r.value.clone(),
                tags: copy_list(&r.tags),
                priority: r.priority,
            },
        );
    }
    Err(
        "StoreProxy::put: unsupported namespace in socket mode: ".to_owned().concat(key).concat(
            "\nSupported: gotcha:*, file:*, decision:*, dev_note:*",
        ),
    )
}

/// The upsert of a gotcha whose files the caller names: what the record lacks is
/// filled in from its value.
pub open spec fn write_of(key: Seq<char>, r: PutRecord, new_files: Seq<Seq<char>>) -> PutView {
    PutView::GotchaUpsert {
        key,
        rule: match r.gotcha {
            Some(g) => g.rule@,
            None => r.value@,
        },
        reason: match r.gotcha {
            Some(g) => g.reason@,
            None => Seq::empty(),
        },
        severity: match r.gotcha {
            Some(g) => Some(g.severity),
            None => Some(Priority::Normal),
        },
        affected_files: new_files,
        ref_url: match r.gotcha {
            Some(g) => json::opt_text(g.ref_url),
            None => None,
        },
        tags: text::texts(r.tags@),
        priority: r.priority,
        source: put_source(r.source),
    }
}

pub fn gotcha_write(key: &str, r: &PutRecord, new_files: &Vec<String>) -> (c: PutCommand)
    ensures
        c@ == write_of(key@, *r, text::texts(new_files@)),
{
    let (rule, reason, severity, ref_url) = match &r.gotcha {
        Some(g) => (
            g.rule.clone(),
            g.reason.clone(),
            g.severity,
            match &g.ref_url {
                Some(u) => Some(u.clone()),
                None => None,
            },
        ),
        None => (r.value.clone(), String::new(), Priority::Normal, None),
    };
    let source = match r.source {
        RecordSource::DeveloperManual => Some("developer_manual".to_owned()),
        RecordSource::Import => Some("import".to_owned()),
        _ => None,
    };
    assert(reason@ =~= write_of(key@, *r, text::texts(new_files@))->reason);
    PutCommand::GotchaUpsert {
        key: key.to_owned(),
        rule,
        reason,
        severity: Some(severity),
        affected_files: copy_list(new_files),
        ref_url,
        tags: copy_list(&r.tags),
        priority: r.priority,
        source,
    }
}

// ---------------------------------------------------------------------------
// Importing
// ---------------------------------------------------------------------------

/// Whether records with this key can be imported.
pub open spec fn importable(key: Seq<char>) -> bool {
    "gotcha:"@.is_prefix_of(key) || "decision:"@.is_prefix_of(key) || "dev_note:"@.is_prefix_of(key)
        || "file:"@.is_prefix_of(key) || "stage:"@.is_prefix_of(key) || "dep:"@.is_prefix_of(key)
}

fn can_import(key: &str) -> (r: bool)
    ensures
        r == importable(key@),
{
    text::starts_with(key, "gotcha:") || text::starts_with(key, "decision:") || text::starts_with(
        key,
        "dev_note:",
    ) || text::starts_with(key, "file:") || text::starts_with(key, "stage:") || text::starts_with(
        key,
        "dep:",
    )
}

/// The positions, below `n`, of the records that are imported: those that can be
/// and that are written durably.
pub open spec fn accepted(keys: Seq<Seq<char>>, durable: Seq<bool>, n: int) -> Seq<int>
    decreases n,
{
    if n <= 0 {
        Seq::empty()
    } else {
        let before = accepted(keys, durable, n - 1);
        if importable(keys[n - 1]) && durable[n - 1] {
            before.push(n - 1)
        } else {
            before
        }
    }
}

/// Parts the records into those that are imported and a count of the others.
pub fn partition_import(keys: &Vec<String>, durable: &Vec<bool>) -> (r: (Vec<usize>, u64))
    requires
        keys.len() == durable.len(),
    ensures
        r.0@.map_values(|i: usize| i as int) == accepted(
            text::texts(keys@),
            durable@,
            keys@.len() as int,
        ),
        r.0@.len() + r.1 == keys@.len(),
{
    let ghost all = text::texts(keys@);
    let mut out: Vec<usize> = Vec::new();
    let mut skipped: u64 = 0;
    let mut i: usize = 0;
    assert(out@.map_values(|i: usize| i as int) =~= Seq::<int>::empty());
    while i < keys.len()
        invariant
            i <= keys.len(),
            keys.len() == durable.len(),
            all == text::texts(keys@),
            out@.map_values(|i: usize| i as int) == accepted(all, durable@, i as int),
            out@.len() + skipped == i,
        decreases keys.len() - i,
    {
        assert(all[i as int] == keys@[i as int]@);
        let ghost before = out@;
        if can_import(keys[i].as_str()) && durable[i] {
            out.push(i);
            assert(out@.map_values(|i: usize| i as int) =~= before.map_values(
                |i: usize| i as int,
            ).push(i as int));
        } else {
            skipped = skipped + 1;
        }
        i = i + 1;
    }
    (out, skipped)
}

/// Bytes of records that go into one request.
pub const FRAME_BUDGET: usize = 49_152;

/// Records that go into one request.
pub const MAX_CHUNK: usize = 200;

/// What a record counts for: its length and what separates it from the next; a
/// record whose length is unknown counts for 2048 bytes.
pub fn record_estimate(len: Option<usize>) -> (r: usize)
    requires
        len matches Some(n) ==> n <= usize::MAX - 8,
    ensures
        r == (match len {
            Some(n) => n + 8,
            None => 2048,
        }),
{
    match len {
        Some(n) => n + 8,
        None => 2048,
    }
}

/// The bytes of the records from `i` up to `j`.
pub open spec fn bytes_between(sizes: Seq<usize>, i: int, j: int) -> nat
    decreases j - i,
{
    if j <= i {
        0
    } else {
        bytes_between(sizes, i, j - 1) + sizes[j - 1] as nat
    }
}

/// The records from `i` up to `j` make one request: at least one and at most 200,
/// within the budget unless it is a single one, and as many as fit.
pub open spec fn is_chunk(sizes: Seq<usize>, i: int, j: int) -> bool {
    &&& i < j <= sizes.len()
    &&& j - i <= MAX_CHUNK
    &&& j - i == 1 || bytes_between(sizes, i, j) <= FRAME_BUDGET
    &&& j == sizes.len() || j - i == MAX_CHUNK || bytes_between(sizes, i, j) + sizes[j]
        > FRAME_BUDGET
}

/// Where a chunk begins: at the end of the one before it.
pub open spec fn chunk_start(ends: Seq<usize>, k: int) -> int {
    if k <= 0 {
        0
    } else {
        ends[k - 1] as int
    }
}

/// `ends` cuts the records into chunks, from the first to the last.
pub open spec fn is_chunking(sizes: Seq<usize>, ends: Seq<usize>) -> bool {
    &&& forall|k: int|
        0 <= k < ends.len() ==> is_chunk(sizes, chunk_start(ends, k), #[trigger] ends[k] as int)
    &&& chunk_start(ends, ends.len() as int) == sizes.len()
}

fn chunk_end(sizes: &Vec<usize>, i: usize) -> (j: usize)
    requires
        i < sizes.len(),
    ensures
        is_chunk(sizes@, i as int, j as int),
{
    let mut total: usize = sizes[i];
    let mut j: usize = i + 1;
    assert(bytes_between(sizes@, i as int, i as int) == 0);
    while j < sizes.len() && j - i < MAX_CHUNK && total <= FRAME_BUDGET && sizes[j] <= FRAME_BUDGET
        - total
        invariant
            i < j <= sizes.len(),
            j - i <= MAX_CHUNK,
            total == bytes_between(sizes@, i as int, j as int),
            j - i == 1 || total <= FRAME_BUDGET,
        decreases sizes.len() - j,
    {
        total = total + sizes[j];
        j = j + 1;
    }
    j
}

/// Cuts records of the given sizes into requests.
pub fn import_chunks(sizes: &Vec<usize>) -> (r: Vec<usize>)
    ensures
        is_chunking(sizes@, r@),
{
    let mut ends: Vec<usize> = Vec::new();
    let mut i: usize = 0;
    while i < sizes.len()
        invariant
            i <= sizes.len(),
            i == chunk_start(ends@, ends@.len() as int),
            forall|k: int|
                0 <= k < ends@.len() ==> is_chunk(
                    sizes@,
                    chunk_start(ends@, k),
                    #[trigger] ends@[k] as int,
                ),
        decreases sizes.len() - i,
    {
        let ghost before = ends@;
        let j = chunk_end(sizes, i);
        ends.push(j);
        proof {
            assert forall|k: int| 0 <= k < ends@.len() implies is_chunk(
                sizes@,
                chunk_start(ends@, k),
                #[trigger] ends@[k] as int,
            ) by {
                if k < before.len() {
                    assert(ends@[k] == before[k]);
                    assert(chunk_start(ends@, k) == chunk_start(before, k));
                } else {
                    assert(chunk_start(ends@, k) == i);
                }
            }
        }
        i = j;
    }
    ends
}

proof fn lemma_bytes_grow(sizes: Seq<usize>, i: int, j: int, k: int)
    requires
        i <= j <= k,
    ensures
        bytes_between(sizes, i, j) <= bytes_between(sizes, i, k),
    decreases k - j,
{
    if j < k {
        lemma_bytes_grow(sizes, i, j, k - 1);
    }
}

/// A chunk that begins at a record ends at one place only.
pub proof fn law_chunks_are_fixed(sizes: Seq<usize>, i: int, j: int, k: int)
    requires
        is_chunk(sizes, i, j),
        is_chunk(sizes, i, k),
    ensures
        j == k,
{
    if j < k {
        lemma_bytes_grow(sizes, i, j + 1, k);
        assert(bytes_between(sizes, i, j + 1) == bytes_between(sizes, i, j) + sizes[j]);
    }
    if k < j {
        lemma_bytes_grow(sizes, i, k + 1, j);
        assert(bytes_between(sizes, i, k + 1) == bytes_between(sizes, i, k) + sizes[k]);
    }
}

/// Every record is in exactly one chunk: the chunks follow one another from the
/// first record to the last.
pub proof fn law_chunks_cover_all(sizes: Seq<usize>, ends: Seq<usize>, x: int)
    requires
        is_chunking(sizes, ends),
        0 <= x < sizes.len(),
    ensures
        exists|k: int|
            #![trigger ends[k]]
            0 <= k < ends.len() && chunk_start(ends, k) <= x < ends[k] && (forall|m: int|
                #![trigger ends[m]]
                0 <= m < ends.len() && chunk_start(ends, m) <= x < ends[m] ==> m == k),
{
    lemma_chunk_of(sizes, ends, x, ends.len() as int);
    let k = choose|k: int|
        #![trigger ends[k]]
        0 <= k < ends.len() && chunk_start(ends, k) <= x < ends[k];
    assert forall|m: int|
        #![trigger ends[m]]
        0 <= m < ends.len() && chunk_start(ends, m) <= x < ends[m] implies m == k by {
        if m < k {
            lemma_ends_ascend(sizes, ends, m, k - 1);
        }
        if k < m {
            lemma_ends_ascend(sizes, ends, k, m - 1);
        }
    }
}

proof fn lemma_ends_ascend(sizes: Seq<usize>, ends: Seq<usize>, a: int, b: int)
    requires
        is_chunking(sizes, ends),
        0 <= a <= b < ends.len(),
    ensures
        ends[a] <= ends[b],
    decreases b - a,
{
    if a < b {
        lemma_ends_ascend(sizes, ends, a, b - 1);
        assert(is_chunk(sizes, chunk_start(ends, b), ends[b] as int));
    }
}

proof fn lemma_chunk_of(sizes: Seq<usize>, ends: Seq<usize>, x: int, n: int)
    requires
        is_chunking(sizes, ends),
        0 <= n <= ends.len(),
        0 <= x < chunk_start(ends, n),
    ensures
        exists|k: int| #![trigger ends[k]] 0 <= k < n && chunk_start(ends, k) <= x < ends[k],
    decreases n,
{
    if n > 0 {
        if x < chunk_start(ends, n - 1) {
            lemma_chunk_of(sizes, ends, x, n - 1);
        } else {
            assert(chunk_start(ends, n - 1) <= x < ends[n - 1]);
        }
    }
}

/// A count in a reply: in its data, or beside them.
pub open spec fn count_of(envelope: JsonView, name: Seq<char>) -> nat {
    match sentinel::unsigned_value(json::member2(envelope, "data"@, name)) {
        Some(n) => n,
        None => match sentinel::unsigned_value(json::member(envelope, name)) {
            Some(n) => n,
            None => 0,
        },
    }
}

fn count_in(envelope: &Json, name: &str) -> (r: u64)
    ensures
        r == count_of(envelope@, name@),
{
    let inner = match envelope.get("data") {
        Some(d) => sentinel::unsigned(d.get(name)),
        None => None,
    };
    match inner {
        Some(n) => n,
        None => match sentinel::unsigned(envelope.get(name)) {
            Some(n) => n,
            None => 0,
        },
    }
}

/// The counts of imported and skipped records in a reply to a chunk, or the error.
pub fn import_reply(envelope: &Json) -> (r: Result<(u64, u64), String>)
    ensures
        match r {
            Ok((imported, skipped)) => {
                &&& complaint_of(envelope@, "unknown"@) is None
                &&& imported == count_of(envelope@, "imported"@)
                &&& skipped == count_of(envelope@, "skipped"@)
            },
            Err(e) => complaint_of(envelope@, "unknown"@) matches Some(c) && e@
                == "daemon rejected record_import: "@ + c,
        },
{
    match complaint(envelope, "unknown") {
        Some(e) => Err("daemon rejected record_import: ".to_owned().concat(e.as_str())),
        None => Ok((count_in(envelope, "imported"), count_in(envelope, "skipped"))),
    }
}

/// Adds the counts of one reply to those of the chunks before it; nothing where a
/// sum does not fit.
pub fn add_reply(total: (u64, u64), reply: (u64, u64)) -> (r: Option<(u64, u64)>)
    ensures
        match r {
            Some(t) => t.0 == total.0 + reply.0 && t.1 == total.1 + reply.1,
            None => total.0 + reply.0 > u64::MAX || total.1 + reply.1 > u64::MAX,
        },
{
    match (total.0.checked_add(reply.0), total.1.checked_add(reply.1)) {
        (Some(imported), Some(skipped)) => Some((imported, skipped)),
        _ => None,
    }
}

/// How many records the first `n` replies count as imported and as skipped.
pub open spec fn reply_sums(replies: Seq<(u64, u64)>, n: int) -> (nat, nat)
    decreases n,
{
    if n <= 0 {
        (0, 0)
    } else {
        let before = reply_sums(replies, n - 1);
        (before.0 + replies[n - 1].0 as nat, before.1 + replies[n - 1].1 as nat)
    }
}

proof fn lemma_sums_grow(replies: Seq<(u64, u64)>, m: int, n: int)
    requires
        0 <= m <= n,
    ensures
        reply_sums(replies, m).0 <= reply_sums(replies, n).0,
        reply_sums(replies, m).1 <= reply_sums(replies, n).1,
    decreases n,
{
    if m < n {
        lemma_sums_grow(replies, m, n - 1);
    }
}

/// The counts of a whole import, chunk after chunk; nothing where one does not
/// fit.
pub fn import_total(replies: &Vec<(u64, u64)>) -> (r: Option<(u64, u64)>)
    ensures
        ({
            let all = reply_sums(replies@, replies@.len() as int);
            match r {
                Some(t) => t.0 == all.0 && t.1 == all.1,
                None => all.0 > u64::MAX || all.1 > u64::MAX,
            }
        }),
{
    let mut total: (u64, u64) = (0, 0);
    let mut i: usize = 0;
    while i < replies.len()
        invariant
            i <= replies.len(),
            total.0 == reply_sums(replies@, i as int).0,
            total.1 == reply_sums(replies@, i as int).1,
        decreases replies.len() - i,
    {
        match add_reply(total, replies[i]) {
            Some(t) => {
                total = t;
            },
            None => {
                proof {
                    lemma_sums_grow(replies@, i + 1, replies@.len() as int);
                }
                return None;
            },
        }
        i = i + 1;
    }
    Some(total)
}

// ---------------------------------------------------------------------------
// Records since a time
// ---------------------------------------------------------------------------

/// The namespaces of the knowledge records, in the order in which they are read.
pub open spec fn namespaces() -> Seq<Seq<char>> {
    seq!["gotcha:"@, "decision:"@, "file:"@, "stage:"@, "dev_note:"@, "dep:"@]
}

/// The prefixes that are scanned for all knowledge records.
pub fn knowledge_namespaces() -> (r: Vec<String>)
    ensures
        text::texts(r@) == namespaces(),
{
    let mut out: Vec<String> = Vec::new();
    text::push_line(&mut out, "gotcha:".to_owned());
    text::push_line(&mut out, "decision:".to_owned());
    text::push_line(&mut out, "file:".to_owned());
    text::push_line(&mut out, "stage:".to_owned());
    text::push_line(&mut out, "dev_note:".to_owned());
    text::push_line(&mut out, "dep:".to_owned());
    assert(text::texts(out@) =~= namespaces());
    out
}

/// A part of an export for people: the namespace and the heading above its records.
#[derive(Debug, PartialEq, Eq)]
pub struct ExportPart {
    pub prefix: String,
    pub heading: String,
}

pub open spec fn part_views(v: Seq<ExportPart>) -> Seq<(Seq<char>, Seq<char>)> {
    v.map_values(|p: ExportPart| (p.prefix@, p.heading@))
}

/// The parts of an export in their order. Stages are left to the machine-readable
/// form.
pub open spec fn export_layout() -> Seq<(Seq<char>, Seq<char>)> {
    seq![
        ("gotcha:"@, "Gotchas"@),
        ("decision:"@, "Decisions"@),
        ("file:"@, "Files"@),
        ("dev_note:"@, "Notes"@),
        ("dep:"@, "Dependencies"@),
    ]
}

fn push_part(v: &mut Vec<ExportPart>, prefix: &str, heading: &str)
    ensures
        part_views(final(v)@) == part_views(old(v)@).push((prefix@, heading@)),
{
    let ghost before = v@;
    v.push(ExportPart { prefix: prefix.to_owned(), heading: heading.to_owned() });
    assert(part_views(v@) =~= part_views(before).push((prefix@, heading@)));
}

pub fn export_parts() -> (r: Vec<ExportPart>)
    ensures
        part_views(r@) == export_layout(),
{
    let mut out: Vec<ExportPart> = Vec::new();
    push_part(&mut out, "gotcha:", "Gotchas");
    push_part(&mut out, "decision:", "Decisions");
    push_part(&mut out, "file:", "Files");
    push_part(&mut out, "dev_note:", "Notes");
    push_part(&mut out, "dep:", "Dependencies");
    assert(part_views(out@) =~= export_layout());
    out
}

/// The namespaces whose records can be stale, in the order in which they are read.
pub open spec fn aging_namespaces() -> Seq<Seq<char>> {
    seq!["gotcha:"@, "decision:"@, "file:"@, "dev_note:"@]
}

/// The prefixes that are scanned for stale records.
pub fn stale_namespaces() -> (r: Vec<String>)
    ensures
        text::texts(r@) == aging_namespaces(),
{
    let mut out: Vec<String> = Vec::new();
    text::push_line(&mut out, "gotcha:".to_owned());
    text::push_line(&mut out, "decision:".to_owned());
    text::push_line(&mut out, "file:".to_owned());
    text::push_line(&mut out, "dev_note:".to_owned());
    assert(text::texts(out@) =~= aging_namespaces());
    out
}

/// A record can be imported exactly where a scan of the namespaces finds it.
pub proof fn law_importable_is_scanned(key: Seq<char>)
    ensures
        importable(key) <==> exists|i: int|
            0 <= i < namespaces().len() && (#[trigger] namespaces()[i]).is_prefix_of(key),
{
    let n = namespaces();
    assert(n[0] == "gotcha:"@ && n[1] == "decision:"@ && n[2] == "file:"@ && n[3] == "stage:"@
        && n[4] == "dev_note:"@ && n[5] == "dep:"@);
}

/// When a record was last written.
#[derive(Debug, PartialEq, Eq)]
pub struct Stamp {
    pub key: String,
    pub updated_at: u64,
}

/// By time with the newest first, then by key.
pub open spec fn stamp_le(a: Stamp, b: Stamp) -> bool {
    a.updated_at > b.updated_at || (a.updated_at == b.updated_at && !text::text_less(b.key@, a.key@))
}

impl Ranked for Stamp {
    open spec fn le(&self, other: &Stamp) -> bool {
        stamp_le(*self, *other)
    }

    proof fn le_total(a: &Stamp, b: &Stamp) {
        if text::text_less(a.key@, b.key@) && text::text_less(b.key@, a.key@) {
            text::lemma_text_less_asymmetric(a.key@, b.key@);
        }
    }

    proof fn le_transitive(a: &Stamp, b: &Stamp, c: &Stamp) {
        if text::text_less(c.key@, a.key@) && !text::text_less(b.key@, a.key@) && !text::text_less(
            c.key@,
            b.key@,
        ) {
            text::lemma_text_less_total(a.key@, b.key@);
            text::lemma_text_less_total(b.key@, c.key@);
            if a.key@ == b.key@ {
            } else if b.key@ == c.key@ {
            } else {
                text::lemma_text_less_transitive(a.key@, b.key@, c.key@);
                text::lemma_text_less_asymmetric(a.key@, c.key@);
            }
        }
    }

    fn may_precede(&self, other: &Stamp) -> (r: bool) {
        self.updated_at > other.updated_at || (self.updated_at == other.updated_at && !text::less(
            other.key.as_str(),
            self.key.as_str(),
        ))
    }
}

/// Which records were written since a time.
pub open spec fn written_since(v: Seq<Stamp>, since: u64) -> Seq<bool> {
    Seq::new(v.len(), |k: int| v[k].updated_at >= since)
}

/// How many records a limit lets through; 0 stands for no limit.
pub open spec fn effective_limit(limit: nat, total: nat) -> nat {
    if limit == 0 {
        total
    } else {
        limit
    }
}

/// The positions of the records written since a time, newest first and then by
/// key, at most `limit` of them unless that is 0.
pub fn records_since(v: &Vec<Stamp>, since: u64, limit: usize) -> (r: Vec<usize>)
    ensures
        ranking::is_pick(
            v@,
            written_since(v@, since),
            effective_limit(limit as nat, v@.len()),
            r@,
        ),
{
    let mut keep: Vec<bool> = Vec::new();
    let mut i: usize = 0;
    while i < v.len()
        invariant
            i <= v.len(),
            keep.len() == i,
            forall|k: int| 0 <= k < i ==> #[trigger] keep@[k] == (v@[k].updated_at >= since),
        decreases v.len() - i,
    {
        keep.push(v[i].updated_at >= since);
        i = i + 1;
    }
    assert(keep@ =~= written_since(v@, since));
    let most: usize = if limit == 0 {
        v.len()
    } else {
        limit
    };
    ranking::pick(v, &keep, most)
}

// ---------------------------------------------------------------------------
// Configuration
// ---------------------------------------------------------------------------

#[derive(Debug, Clone, Copy, PartialEq, Eq, Structural)]
pub enum EnforcementMode {
    Advisory,
    Strict,
}

pub open spec fn mode_text(m: EnforcementMode) -> Seq<char> {
    match m {
        EnforcementMode::Advisory => "advisory"@,
        EnforcementMode::Strict => "strict"@,
    }
}

pub fn mode_label(m: EnforcementMode) -> (r: &'static str)
    ensures
        r@ == mode_text(m),
{
    match m {
        EnforcementMode::Advisory => "advisory",
        EnforcementMode::Strict => "strict",
    }
}

/// The mode with a name.
pub open spec fn mode_named(s: Seq<char>) -> Option<EnforcementMode> {
    if s == "advisory"@ {
        Some(EnforcementMode::Advisory)
    } else if s == "strict"@ {
        Some(EnforcementMode::Strict)
    } else {
        None
    }
}

/// A mode is read back from its name.
pub proof fn law_modes_round_trip(m: EnforcementMode)
    ensures
        mode_named(mode_text(m)) == Some(m),
{
    reveal_strlit("advisory");
    reveal_strlit("strict");
    assert("advisory"@.len() != "strict"@.len());
}

/// A setting that can be read.
#[derive(Debug, Clone, Copy, PartialEq, Eq, Structural)]
pub enum ConfigKey {
    Mode,
    Retention,
}

pub open spec fn config_key_named(s: Seq<char>) -> Option<ConfigKey> {
    if s == "enforcement.mode"@ || s == "audit.write_durability"@ {
        Some(ConfigKey::Mode)
    } else if s == "enforcement.retention"@ {
        Some(ConfigKey::Retention)
    } else {
        None
    }
}

pub open spec fn unknown_key(key: Seq<char>) -> Seq<char> {
    "unknown config key: "@ + key + "\nValid keys: enforcement.mode, enforcement.retention"@
}

/// The setting with a name.
pub fn config_get(key: &str) -> (r: Result<ConfigKey, String>)
    ensures
        match r {
            Ok(k) => config_key_named(key@) == Some(k),
            Err(e) => config_key_named(key@) is None && e@ == unknown_key(key@),
        },
{
    if text::same(key, "enforcement.mode") || text::same(key, "audit.write_durability") {
        Ok(ConfigKey::Mode)
    } else if text::same(key, "enforcement.retention") {
        Ok(ConfigKey::Retention)
    } else {
        Err(
            "unknown config key: ".to_owned().concat(key).concat(
                "\nValid keys: enforcement.mode, enforcement.retention",
            ),
        )
    }
}

/// A change of a setting.
#[derive(Debug, Clone, Copy, PartialEq, Eq, Structural)]
pub enum ConfigWrite {
    Mode(EnforcementMode),
    /// In days.
    Retention(u64),
}

/// The change that a key and a value stand for, or why they stand for none.
pub open spec fn config_write(key: Seq<char>, value: Seq<char>) -> Result<ConfigWrite, Seq<char>> {
    match config_key_named(key) {
        Some(ConfigKey::Mode) => match mode_named(value) {
            Some(m) => Ok(ConfigWrite::Mode(m)),
            None => Err(
                "invalid enforcement mode: "@ + value + "\nValid values: advisory, strict"@,
            ),
        },
        Some(ConfigKey::Retention) => match text::number_text(value, u64::MAX as nat) {
            Some(n) => if n == 0 {
                Err("retention must be at least 1 day"@)
            } else {
                Ok(ConfigWrite::Retention(n as u64))
            },
            None => Err(
                "invalid retention value: "@ + value + " (expected integer days)"@,
            ),
        },
        None => Err(unknown_key(key)),
    }
}

/// Reads a change of a setting.
pub fn config_set(key: &str, value: &str) -> (r: Result<ConfigWrite, String>)
    ensures
        match r {
            Ok(w) => config_write(key@, value@) == Ok::<ConfigWrite, Seq<char>>(w),
            Err(e) => config_write(key@, value@) == Err::<ConfigWrite, Seq<char>>(e@),
        },
{
    match config_get(key) {
        Ok(ConfigKey::Mode) => if text::same(value, "advisory") {
            Ok(ConfigWrite::Mode(EnforcementMode::Advisory))
        } else if text::same(value, "strict") {
            Ok(ConfigWrite::Mode(EnforcementMode::Strict))
        } else {
            Err(
                "invalid enforcement mode: ".to_owned().concat(value).concat(
                    "\nValid values: advisory, strict",
                ),
            )
        },
        Ok(ConfigKey::Retention) => match text::parse_number(value, u64::MAX) {
            Some(n) => if n == 0 {
                Err("retention must be at least 1 day".to_owned())
            } else {
                Ok(ConfigWrite::Retention(n))
            },
            None => Err(
                "invalid retention value: ".to_owned().concat(value).concat(
                    " (expected integer days)",
                ),
            ),
        },
        Err(e) => Err(e),
    }
}

/// The value of a setting in the daemon's reply, or its complaint.
pub fn config_value(envelope: &Json) -> (r: Result<String, String>)
    ensures
        match r {
            Ok(v) => complaint_of(envelope@, "unknown"@) is None && v@ == text_or_empty(
                json::text_value(json::member(envelope@, "data"@)),
            ),
            Err(e) => complaint_of(envelope@, "unknown"@) == Some(e@),
        },
{
    match complaint(envelope, "unknown") {
        Some(e) => Err(e),
        None => Ok(text_or_none(envelope.text_of("data"))),
    }
}

/// The value that a setting had, out of the daemon's reply to a change.
pub fn config_old_value(envelope: &Json) -> (r: Result<String, String>)
    ensures
        match r {
            Ok(v) => complaint_of(envelope@, "unknown"@) is None && v@ == text_or_empty(
                json::text_value(json::member2(envelope@, "data"@, "old"@)),
            ),
            Err(e) => complaint_of(envelope@, "unknown"@) == Some(e@),
        },
{
    match complaint(envelope, "unknown") {
        Some(e) => Err(e),
        None => {
            let old = match envelope.get("data") {
                Some(d) => d.text_of("old"),
                None => None,
            };
            Ok(text_or_none(old))
        },
    }
}

// ---------------------------------------------------------------------------
// What the two ways have in common
// ---------------------------------------------------------------------------

/// A reply is a complaint exactly where it does not say that all is well; the
/// complaint is the reply's own, and an empty answer is no data.
pub proof fn law_complaints_are_passed_on(envelope: JsonView, default: Seq<char>)
    ensures
        complaint_of(envelope, default) is None <==> json::member(envelope, "ok"@) == Some(
            JsonView::Bool(true),
        ),
        complaint_of(envelope, default) matches Some(c) ==> (json::member(envelope, "error"@)
            matches Some(JsonView::Str(e)) ==> c == e),
        put_error(envelope) is None <==> json::member(envelope, "ok"@) == Some(
            JsonView::Bool(true),
        ),
        put_error(envelope) matches Some(p) ==> (json::member(envelope, "error"@)
            matches Some(JsonView::Str(e)) ==> text::text_contains(p, e)),
        data_of(envelope) is Some <==> (json::member(envelope, "data"@) matches Some(d) && d
            != JsonView::Null),
        data_of(envelope) matches Some(d) ==> json::member(envelope, "data"@) == Some(d),
{
    if let Some(p) = put_error(envelope) {
        if let Some(JsonView::Str(e)) = json::member(envelope, "error"@) {
            let a = "daemon rejected put: "@;
            let z =
                "\nIf this persists, restart the daemon: `mati daemon stop && mati daemon start`"@;
            text::lemma_part_occurs(a, e, z);
        }
    }
}

/// A record is written by its namespace, with its own text; a namespace the daemon
/// does not write is refused.
pub proof fn law_records_are_written_by_namespace(slug: Seq<char>, r: PutRecord)
    ensures
        put_of("gotcha:"@ + slug, r) matches Some(PutView::GotchaUpsert { key, priority, .. })
            && key == "gotcha:"@ + slug && priority == r.priority,
        put_of("file:"@ + slug, r) matches Some(PutView::FileEnrich { path, purpose, .. }) && path
            == slug && purpose == r.value@,
        put_of("decision:"@ + slug, r) matches Some(PutView::DecisionUpsert { slug: s, value, .. })
            && s == slug && value == r.value@,
        put_of("dev_note:"@ + slug, r) matches Some(
            PutView::DevNoteUpsert { key, text, priority, .. },
        ) && key == "dev_note:"@ + slug && text == r.value@ && priority == r.priority,
        put_of("stage:"@ + slug, r) is None,
        put_of("dep:"@ + slug, r) is None,
{
    reveal_strlit("gotcha:");
    reveal_strlit("file:");
    reveal_strlit("decision:");
    reveal_strlit("dev_note:");
    reveal_strlit("stage:");
    reveal_strlit("dep:");
    lemma_apart("gotcha:"@, "file:"@, slug, 0);
    lemma_own("gotcha:"@, slug);
    lemma_own("file:"@, slug);
    lemma_own("decision:"@, slug);
    lemma_own("dev_note:"@, slug);
    lemma_apart("gotcha:"@, "decision:"@, slug, 0);
    lemma_apart("file:"@, "decision:"@, slug, 0);
    lemma_apart("gotcha:"@, "dev_note:"@, slug, 0);
    lemma_apart("file:"@, "dev_note:"@, slug, 0);
    lemma_apart("decision:"@, "dev_note:"@, slug, 2);
    lemma_apart("gotcha:"@, "stage:"@, slug, 0);
    lemma_apart("file:"@, "stage:"@, slug, 0);
    lemma_apart("decision:"@, "stage:"@, slug, 0);
    lemma_apart("dev_note:"@, "stage:"@, slug, 0);
    lemma_apart("gotcha:"@, "dep:"@, slug, 0);
    lemma_apart("file:"@, "dep:"@, slug, 0);
    lemma_apart("decision:"@, "dep:"@, slug, 2);
    lemma_apart("dev_note:"@, "dep:"@, slug, 2);
}

proof fn lemma_own(p: Seq<char>, slug: Seq<char>)
    ensures
        p.is_prefix_of(p + slug),
        (p + slug).skip(p.len() as int) == slug,
{
    assert((p + slug).subrange(0, p.len() as int) =~= p);
    assert((p + slug).skip(p.len() as int) =~= slug);
}

proof fn lemma_apart(p: Seq<char>, q: Seq<char>, slug: Seq<char>, i: int)
    requires
        0 <= i < p.len(),
        i < q.len(),
        p[i] != q[i],
    ensures
        !p.is_prefix_of(q + slug),
{
    if p.is_prefix_of(q + slug) {
        assert((q + slug).subrange(0, p.len() as int)[i] == p[i]);
    }
}

/// A gotcha is written as it is: its own rule and reason where it has them, else those
/// of the stored payload, and in place of a rule at last the text; its files likewise.
/// Only what a developer entered or imported names its source.
pub proof fn law_gotcha_is_written_as_it_is(key: Seq<char>, r: PutRecord, new: Seq<Seq<char>>)
    ensures
        gotcha_put(key, r) matches PutView::GotchaUpsert {
            rule,
            reason,
            severity,
            affected_files,
            ref_url,
            tags,
            source,
            ..
        } && {
            &&& r.gotcha matches Some(g) ==> severity == Some(g.severity) && ref_url
                == json::opt_text(g.ref_url)
            &&& r.gotcha is None ==> severity is None && ref_url is None
            &&& r.gotcha matches Some(g) ==> (g.rule@.len() > 0 ==> rule == g.rule@)
            &&& r.gotcha matches Some(g) ==> (g.reason@.len() > 0 ==> reason == g.reason@)
            &&& r.gotcha matches Some(g) ==> (g.affected_files@.len() > 0 ==> affected_files
                == text::texts(g.affected_files@))
            &&& r.gotcha is None && r.payload is None ==> rule == r.value@ && reason.len() == 0
                && affected_files.len() == 0
            &&& r.gotcha is None ==> (r.payload matches Some(p) ==> (json::member(p@, "rule"@)
                matches Some(JsonView::Str(s)) ==> (s.len() > 0 ==> rule == s)))
            &&& tags == text::texts(r.tags@)
            &&& source is Some <==> r.source is DeveloperManual || r.source is Import
        },
        write_of(key, r, new) matches PutView::GotchaUpsert {
            key: k,
            rule,
            reason,
            severity,
            affected_files,
            priority,
            ..
        } && {
            &&& k == key && affected_files == new && priority == r.priority
            &&& r.gotcha matches Some(g) ==> rule == g.rule@ && reason == g.reason@ && severity
                == Some(g.severity)
            &&& r.gotcha is None ==> rule == r.value@ && reason.len() == 0 && severity == Some(
                Priority::Normal,
            )
        },
{
}

/// What is imported is durable and of a known namespace, all of it, in order.
pub proof fn law_import_takes_all_it_can(keys: Seq<Seq<char>>, durable: Seq<bool>, n: int)
    requires
        0 <= n <= keys.len(),
        keys.len() == durable.len(),
    ensures
        forall|k: int| #[trigger]
            accepted(keys, durable, n).contains(k) <==> 0 <= k < n && durable[k] && {
                ||| "gotcha:"@.is_prefix_of(keys[k])
                ||| "decision:"@.is_prefix_of(keys[k])
                ||| "dev_note:"@.is_prefix_of(keys[k])
                ||| "file:"@.is_prefix_of(keys[k])
                ||| "stage:"@.is_prefix_of(keys[k])
                ||| "dep:"@.is_prefix_of(keys[k])
            },
        forall|a: int, b: int|
            0 <= a < b < accepted(keys, durable, n).len() ==> #[trigger] accepted(
                keys,
                durable,
                n,
            )[a] < #[trigger] accepted(keys, durable, n)[b],
    decreases n,
{
    if n > 0 {
        law_import_takes_all_it_can(keys, durable, n - 1);
        let before = accepted(keys, durable, n - 1);
        let all = accepted(keys, durable, n);
        assert forall|k: int| #[trigger]
            all.contains(k) <==> 0 <= k < n && durable[k] && importable(keys[k]) by {
            if all.contains(k) {
                let j = choose|j: int| 0 <= j < all.len() && all[j] == k;
                if j < before.len() {
                    assert(before[j] == k);
                    assert(before.contains(k));
                }
            }
            if before.contains(k) {
                let j = choose|j: int| 0 <= j < before.len() && before[j] == k;
                assert(all[j] == k);
            }
            if k == n - 1 && durable[k] && importable(keys[k]) {
                assert(all[before.len() as int] == k);
            }
        }
        assert forall|a: int, b: int| 0 <= a < b < all.len() implies #[trigger] all[a]
            < #[trigger] all[b] by {
            if b < before.len() {
                assert(before[a] < before[b]);
            } else {
                assert(before.contains(before[a]));
            }
        }
    }
}

/// A chunk holds at most two hundred records and fits into a frame, unless it is one
/// record alone.
pub proof fn law_chunks_fit_a_frame(sizes: Seq<usize>, ends: Seq<usize>, k: int)
    requires
        is_chunking(sizes, ends),
        0 <= k < ends.len(),
    ensures
        1 <= ends[k] - chunk_start(ends, k) <= 200,
        ends[k] - chunk_start(ends, k) > 1 ==> bytes_between(
            sizes,
            chunk_start(ends, k),
            ends[k] as int,
        ) <= 49152,
{
    assert(is_chunk(sizes, chunk_start(ends, k), ends[k] as int));
}

/// The totals are the sums of the replies.
pub proof fn law_totals_add_up(replies: Seq<(u64, u64)>, one: (u64, u64))
    ensures
        reply_sums(Seq::empty(), 0) == (0nat, 0nat),
        ({
            let n = replies.len() as int;
            let all = reply_sums(replies.push(one), n + 1);
            &&& all.0 == reply_sums(replies, n).0 + one.0
            &&& all.1 == reply_sums(replies, n).1 + one.1
        }),
{
    lemma_sums_same(replies, replies.push(one), replies.len() as int);
}

proof fn lemma_sums_same(a: Seq<(u64, u64)>, b: Seq<(u64, u64)>, n: int)
    requires
        0 <= n <= a.len() <= b.len(),
        forall|i: int| 0 <= i < n ==> a[i] == #[trigger] b[i],
    ensures
        reply_sums(a, n) == reply_sums(b, n),
    decreases n,
{
    if n > 0 {
        lemma_sums_same(a, b, n - 1);
        assert(a[n - 1] == b[n - 1]);
    }
}

/// A count is read from the data of a reply, and from the reply itself where the data
/// do not have it.
pub proof fn law_counts_are_read_from_the_data(envelope: JsonView, name: Seq<char>, n: u64)
    ensures
        json::member2(envelope, "data"@, name) == Some(JsonView::Number(text::dec(n as nat)))
            ==> count_of(envelope, name) == n,
        json::member2(envelope, "data"@, name) is None && json::member(envelope, name) == Some(
            JsonView::Number(text::dec(n as nat)),
        ) ==> count_of(envelope, name) == n,
        json::member2(envelope, "data"@, name) is None && json::member(envelope, name) is None
            ==> count_of(envelope, name) == 0,
{
    text::law_numbers_are_read_back(n as nat, u64::MAX as nat);
}

/// Recent records come latest first. Each was written since the time asked for, and
/// one that is left out is no later than any that is shown, where there is a limit.
pub proof fn law_recent_records_come_first(v: Seq<Stamp>, since: u64, limit: nat, r: Seq<usize>)
    requires
        ranking::is_pick(v, written_since(v, since), effective_limit(limit, v.len()), r),
        v.len() <= usize::MAX,
    ensures
        limit > 0 ==> r.len() <= limit,
        forall|i: int| 0 <= i < r.len() ==> v[#[trigger] r[i] as int].updated_at >= since,
        forall|i: int, j: int|
            0 <= i < j < r.len() ==> v[#[trigger] r[i] as int].updated_at
                >= v[#[trigger] r[j] as int].updated_at && r[i] != r[j] && (
            v[r[i] as int].updated_at == v[r[j] as int].updated_at ==> !text::text_less(
                v[r[j] as int].key@,
                v[r[i] as int].key@,
            )),
        forall|x: int, i: int|
            0 <= x < v.len() && (#[trigger] v[x]).updated_at >= since && !r.contains(x as usize)
                && 0 <= i < r.len() ==> v[#[trigger] r[i] as int].updated_at >= v[x].updated_at,
        forall|x: int|
            0 <= x < v.len() && (#[trigger] v[x]).updated_at >= since && !r.contains(x as usize)
                ==> limit > 0 && r.len() == limit || r.len() == v.len(),
{
    let keep = written_since(v, since);
    assert forall|i: int| 0 <= i < r.len() implies v[#[trigger] r[i] as int].updated_at
        >= since by {
        assert(keep[r[i] as int]);
    }
    assert forall|i: int, j: int| 0 <= i < j < r.len() implies v[#[trigger] r[i] as int].updated_at
        >= v[#[trigger] r[j] as int].updated_at && r[i] != r[j] && (v[r[i] as int].updated_at
        == v[r[j] as int].updated_at ==> !text::text_less(
        v[r[j] as int].key@,
        v[r[i] as int].key@,
    )) by {
        assert(ranking::comes_first(v, r[i] as int, r[j] as int));
        assert(stamp_le(v[r[i] as int], v[r[j] as int]));
    }
    assert forall|x: int, i: int|
        0 <= x < v.len() && (#[trigger] v[x]).updated_at >= since && !r.contains(x as usize) && 0
            <= i < r.len() implies v[#[trigger] r[i] as int].updated_at >= v[x].updated_at by {
        assert(keep[x]);
        assert(ranking::all_come_first(v, r, x));
        assert(ranking::comes_first(v, r[i] as int, x));
        assert(stamp_le(v[r[i] as int], v[x]));
    }
    assert forall|x: int|
        0 <= x < v.len() && (#[trigger] v[x]).updated_at >= since && !r.contains(
            x as usize,
        ) implies limit > 0 && r.len() == limit || r.len() == v.len() by {
        assert(keep[x]);
    }
}

/// A setting takes only its own values: the mode one of two words, the retention a
/// number of days from one up. Another key is refused.
pub proof fn law_settings_take_their_values(key: Seq<char>, value: Seq<char>, n: u64)
    ensures
        ({
            let mode = key == "enforcement.mode"@ || key == "audit.write_durability"@;
            let retention = key == "enforcement.retention"@;
            &&& mode ==> (config_write(key, value) == Ok::<ConfigWrite, Seq<char>>(
                ConfigWrite::Mode(EnforcementMode::Advisory),
            ) <==> value == "advisory"@)
            &&& mode ==> (config_write(key, value) == Ok::<ConfigWrite, Seq<char>>(
                ConfigWrite::Mode(EnforcementMode::Strict),
            ) <==> value == "strict"@)
            &&& mode ==> (config_write(key, value) is Ok <==> value == "advisory"@ || value
                == "strict"@)
            &&& retention && n > 0 ==> config_write(key, text::dec(n as nat)) == Ok::<
                ConfigWrite,
                Seq<char>,
            >(ConfigWrite::Retention(n))
            &&& retention ==> config_write(key, text::dec(0)) is Err
            &&& retention ==> (config_write(key, value) matches Ok(w) ==> (
            w matches ConfigWrite::Retention(d) && d > 0))
            &&& !mode && !retention ==> config_write(key, value) is Err && config_key_named(
                key,
            ) is None
        }),
{
    reveal_strlit("advisory");
    reveal_strlit("strict");
    reveal_strlit("enforcement.mode");
    reveal_strlit("audit.write_durability");
    reveal_strlit("enforcement.retention");
    assert("advisory"@.len() == 8 && "strict"@.len() == 6);
    assert("enforcement.mode"@.len() == 16 && "audit.write_durability"@.len() == 22
        && "enforcement.retention"@.len() == 21);
    text::law_numbers_are_read_back(n as nat, u64::MAX as nat);
    text::law_numbers_are_read_back(0, u64::MAX as nat);
}

/// Every namespace that is exported or ages is one of the knowledge namespaces, and
/// none is named twice.
pub proof fn law_namespaces_agree()
    ensures
        namespaces().no_duplicates(),
        forall|i: int|
            0 <= i < export_layout().len() ==> namespaces().contains(
                (#[trigger] export_layout()[i]).0,
            ),
        forall|i: int|
            0 <= i < aging_namespaces().len() ==> namespaces().contains(
                #[trigger] aging_namespaces()[i],
            ),
        namespaces().len() == 6 && export_layout().len() == 5 && aging_namespaces().len() == 4,
        !aging_namespaces().contains("stage:"@) && !aging_namespaces().contains("dep:"@),
{
    reveal_strlit("gotcha:");
    reveal_strlit("file:");
    reveal_strlit("decision:");
    reveal_strlit("dev_note:");
    reveal_strlit("stage:");
    reveal_strlit("dep:");
    let n = namespaces();
    assert(n[0].len() == 7 && n[1].len() == 9 && n[2].len() == 5 && n[3].len() == 6 && n[4].len()
        == 9 && n[5].len() == 4);
    assert(n[1][2] == 'c' && n[4][2] == 'v');
    assert(n.contains(n[0]) && n.contains(n[1]) && n.contains(n[2]) && n.contains(n[3])
        && n.contains(n[4]) && n.contains(n[5]));
    let a = aging_namespaces();
    assert(a[0] == n[0] && a[1] == n[1] && a[2] == n[2] && a[3] == n[4]);
    let e = export_layout();
    assert(e[0].0 == n[0] && e[1].0 == n[1] && e[2].0 == n[2] && e[3].0 == n[4] && e[4].0 == n[5]);
}

/// The store is opened directly only where no daemon may hold it and it is there; a
/// daemon that answers is asked.
pub proof fn law_store_is_opened_behind_no_daemon(ping: Ping, has_store: bool, r: Route)
    requires
        is_route(ping, has_store, r),
    ensures
        r is Socket <==> ping == Ping::Answered,
        r is Direct <==> has_store && (ping == Ping::NotRunning || ping == Ping::StaleSocket),
        r is Refused <==> ping == Ping::Unresponsive || (!has_store && ping != Ping::Answered),
{
}

/// Opening is tried again only where a text of the error tells of a lock, and not after
/// a quarter of a minute.
pub proof fn law_only_locks_are_waited_for(chain: Seq<Seq<char>>, elapsed_ms: u64)
    ensures
        tries_again(chain, elapsed_ms) ==> elapsed_ms < 15000,
        elapsed_ms < 15000 ==> (tries_again(chain, elapsed_ms) <==> exists|k: int|
            0 <= k < chain.len() && (text::text_contains(#[trigger] chain[k], "already locked"@)
                || text::text_contains(chain[k], "WouldBlock"@) || text::text_contains(
                chain[k],
                "holds the lock"@,
            ))),
{
    assert forall|k: int| 0 <= k < chain.len() implies (says_locked(#[trigger] chain[k]) <==> (
    text::text_contains(chain[k], "already locked"@) || text::text_contains(
        chain[k],
        "WouldBlock"@,
    ) || text::text_contains(chain[k], "holds the lock"@))) by {
    }
}

/// An operation succeeds exactly where it and the closing did; its own error comes
/// before one of the closing.
pub proof fn law_own_error_comes_first<T, E>(
    result: Result<T, E>,
    closed: Result<(), E>,
    r: Result<T, E>,
)
    requires
        is_closing_result(result, closed, r),
    ensures
        r is Ok <==> result is Ok && closed is Ok,
        result is Err ==> r == result,
        r is Ok ==> r == result,
        result is Ok && closed is Err ==> r->Err_0 == closed->Err_0,
{
}

/// What a gotcha does not say itself is taken from the stored payload: the reason under
/// its name, and the files that are texts, in order.
pub proof fn law_payload_fills_the_gaps(r: PutRecord, p: Json)
    requires
        r.gotcha is None,
        r.payload == Some(p),
    ensures
        json::member(p@, "reason"@) matches Some(JsonView::Str(s)) ==> put_reason(r) == s,
        json::member(p@, "reason"@) is None ==> put_reason(r).len() == 0,
        json::member(p@, "affected_files"@) is None ==> put_files(r).len() == 0,
        json::member(p@, "affected_files"@) matches Some(JsonView::Array(v)) ==> put_files(r)
            == texts_among(v, v.len() as int),
{
}

/// The texts of a list are kept in order, and what is no text is left out.
pub proof fn law_only_texts_are_listed(v: Seq<JsonView>, s: Seq<char>, n: Seq<char>)
    ensures
        texts_among(Seq::empty(), 0).len() == 0,
        texts_among(v.push(JsonView::Str(s)), v.len() as int + 1) == texts_among(
            v,
            v.len() as int,
        ).push(s),
        texts_among(v.push(JsonView::Number(n)), v.len() as int + 1) == texts_among(
            v,
            v.len() as int,
        ),
        texts_among(v.push(JsonView::Null), v.len() as int + 1) == texts_among(v, v.len() as int),
{
    let k = v.len() as int;
    lemma_texts_same(v, v.push(JsonView::Str(s)), k);
    lemma_texts_same(v, v.push(JsonView::Number(n)), k);
    lemma_texts_same(v, v.push(JsonView::Null), k);
}

proof fn lemma_texts_same(a: Seq<JsonView>, b: Seq<JsonView>, n: int)
    requires
        0 <= n <= a.len() <= b.len(),
        forall|i: int| 0 <= i < n ==> a[i] == #[trigger] b[i],
    ensures
        texts_among(a, n) == texts_among(b, n),
    decreases n,
{
    if n > 0 {
        lemma_texts_same(a, b, n - 1);
        assert(a[n - 1] == b[n - 1]);
    }
}

/// A read that got no answer says why: the daemon stopped, its socket went stale, or
/// it kept silent.
pub proof fn law_failed_reads_say_why(p: Ping)
    requires
        p != Ping::Answered,
    ensures
        failure_text(p) == "daemon stopped"@ <==> p == Ping::NotRunning,
        failure_text(p) == "daemon socket became stale"@ <==> p == Ping::StaleSocket,
        failure_text(p) == "daemon did not respond"@ <==> p == Ping::Unresponsive,
{
    reveal_strlit("daemon stopped");
    reveal_strlit("daemon socket became stale");
    reveal_strlit("daemon did not respond");
    assert("daemon stopped"@.len() == 14 && "daemon socket became stale"@.len() == 26
        && "daemon did not respond"@.len() == 22);
}

} // verus!
