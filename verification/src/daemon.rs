//! Talking to the daemon, finding out in which state it is, and stopping it. The
//! driver does the I/O; what it finds decides here.
use vstd::prelude::*;
use crate::host::Assistant;
use crate::json;
use crate::json::{Json, JsonView};
use crate::sentinel;
use crate::sentinel::PidInfo;
use crate::text;

verus! {

// ---------------------------------------------------------------------------
// Arguments
// ---------------------------------------------------------------------------

/// `mati daemon <start|stop|status>`.
#[derive(Debug, PartialEq, Eq)]
pub struct DaemonArgs {
    pub command: DaemonCommand,
}

#[derive(Debug, PartialEq, Eq)]
pub enum DaemonCommand {
    /// Start the daemon in the foreground.
    Start,
    /// Stop a running daemon.
    Stop(DaemonStopArgs),
    /// Show whether the daemon is running.
    Status,
}

/// Arguments of `mati daemon stop`.
#[derive(Debug, Clone, PartialEq, Eq)]
pub struct DaemonStopArgs {
    /// Stop even if the socket is owned by an MCP server.
    pub force: bool,
    /// Seconds to wait after SIGTERM before SIGKILL.
    pub timeout: u64,
    /// Send SIGTERM and do not wait.
    pub no_wait: bool,
}

impl Default for DaemonStopArgs {
    fn default() -> (r: DaemonStopArgs)
        ensures
            !r.force,
            r.timeout == 0,
            !r.no_wait,
    {
        DaemonStopArgs { force: false, timeout: 0, no_wait: false }
    }
}

impl DaemonStopArgs {
    /// The seconds to wait, kept between 1 and 60.
    pub fn timeout_clamped(&self) -> (r: u64)
        ensures
            1 <= r <= 60,
            1 <= self.timeout <= 60 ==> r == self.timeout,
            self.timeout < 1 ==> r == 1,
            self.timeout > 60 ==> r == 60,
    {
        if self.timeout < 1 {
            1
        } else if self.timeout > 60 {
            60
        } else {
            self.timeout
        }
    }
}

// ---------------------------------------------------------------------------
// A request and its outcome
// ---------------------------------------------------------------------------

/// What came of a request. The store may be opened directly after `NotRunning`
/// and `StaleSocket`, never after `Unresponsive`.
#[derive(Debug, PartialEq, Eq)]
pub enum DaemonResult {
    /// The daemon's answer as an envelope: `ok`, `v`, and `data` or `error`.
    Answer(Json),
    /// There is no socket.
    NotRunning,
    /// The socket was left behind and is removed.
    StaleSocket,
    /// A process is alive but gives no usable answer.
    Unresponsive,
}

/// What a look at the files of a daemon that refuses connections says.
#[derive(Debug, PartialEq, Eq)]
pub enum StaleCheck {
    Clean,
    StaleRemoved,
    /// A socket without metadata.
    OrphanSocket,
    LiveDaemon { pid: u32, owner: String },
}

/// How far a request got.
#[derive(Debug, PartialEq, Eq)]
pub enum Attempt {
    /// The socket's path is longer than the system allows.
    PathTooLong,
    NoSocket,
    /// The connection was refused.
    Refused(StaleCheck),
    /// It could not be made for another reason.
    NotConnected,
    /// The request could not be written.
    NotSent,
    /// No line came in time.
    NoLine,
    /// The line is no JSON.
    NotJson,
    Response(Json),
}

/// The parts of a request, one per connection.
pub open spec fn request_members(
    version: nat,
    id: Seq<char>,
    session: Option<Seq<char>>,
    cmd: JsonView,
) -> Seq<(Seq<char>, JsonView)> {
    seq![
        ("v"@, JsonView::Number(text::dec(version))),
        ("id"@, JsonView::Str(id)),
        (
            "session"@,
            JsonView::Str(
                match session {
                    Some(s) => s,
                    None => "00000000-0000-0000-0000-000000000000"@,
                },
            ),
        ),
        ("cmd"@, cmd),
    ]
}

/// Builds a request. Without a session the nil UUID stands for it.
pub fn request(version: u64, id: &str, session: Option<String>, cmd: Json) -> (r: Json)
    ensures
        r@ == JsonView::Object(
            request_members(version as nat, id@, json::opt_text(session), cmd@),
        ),
{
    let session_id = match session {
        Some(s) => s,
        None => "00000000-0000-0000-0000-000000000000".to_owned(),
    };
    let mut m: Vec<(String, Json)> = Vec::new();
    m.push(("v".to_owned(), Json::Number(text::decimal(version))));
    m.push(("id".to_owned(), Json::Str(id.to_owned())));
    m.push(("session".to_owned(), Json::Str(session_id)));
    m.push(("cmd".to_owned(), cmd));
    proof {
        json::lemma_object_view(m);
        assert(json::members(m@) =~= request_members(
            version as nat,
            id@,
            json::opt_text(session),
            cmd@,
        ));
    }
    Json::Object(m)
}

/// Seconds to wait for the answer to a command: a ping fails fast.
pub fn response_timeout(cmd: &str) -> (r: u64)
    ensures
        r == (if cmd@ == "ping"@ { 2u64 } else { 10u64 }),
{
    if text::same(cmd, "ping") {
        2
    } else {
        10
    }
}

/// A text member, or `default` where there is none.
pub open spec fn text_or(resp: JsonView, key: Seq<char>, default: Seq<char>) -> Seq<char> {
    match json::text_value(json::member(resp, key)) {
        Some(s) => s,
        None => default,
    }
}

/// The envelope of a response that reports success with its data.
pub open spec fn ok_envelope(data: JsonView) -> JsonView {
    JsonView::Object(
        seq![
            ("ok"@, JsonView::Bool(true)),
            ("v"@, JsonView::Number("2"@)),
            ("data"@, data),
        ],
    )
}

/// The envelope of a response that reports an error.
pub open spec fn err_envelope(message: Seq<char>, code: Seq<char>) -> JsonView {
    JsonView::Object(
        seq![
            ("ok"@, JsonView::Bool(false)),
            ("v"@, JsonView::Number("2"@)),
            ("error"@, JsonView::Str(message)),
            ("code"@, JsonView::Str(code)),
        ],
    )
}

/// The envelope of a response; none where its status is neither `ok` nor `err`.
pub open spec fn envelope_of(resp: JsonView) -> Option<JsonView> {
    match json::text_value(json::member(resp, "status"@)) {
        Some(s) => if s == "ok"@ {
            Some(
                ok_envelope(
                    match json::member(resp, "data"@) {
                        Some(d) => d,
                        None => JsonView::Null,
                    },
                ),
            )
        } else if s == "err"@ {
            Some(
                err_envelope(
                    text_or(resp, "message"@, "unknown error"@),
                    text_or(resp, "code"@, "internal"@),
                ),
            )
        } else {
            None
        },
        None => None,
    }
}

/// What became of a request that got this far.
pub open spec fn outcome_is(a: Attempt, r: DaemonResult) -> bool {
    match a {
        Attempt::PathTooLong | Attempt::NoSocket | Attempt::NotConnected => r is NotRunning,
        Attempt::Refused(StaleCheck::LiveDaemon { .. }) => r is Unresponsive,
        Attempt::Refused(_) => r is StaleSocket,
        Attempt::NotSent | Attempt::NoLine | Attempt::NotJson => r is Unresponsive,
        Attempt::Response(resp) => match envelope_of(resp@) {
            Some(e) => r matches DaemonResult::Answer(j) && j@ == e,
            None => r is Unresponsive,
        },
    }
}

fn text_member(resp: &Json, key: &str, default: &str) -> (r: String)
    ensures
        r@ == text_or(resp@, key@, default@),
{
    match resp.text_of(key) {
        Some(s) => s,
        None => default.to_owned(),
    }
}

fn ok_answer(data: Json) -> (r: Json)
    ensures
        r@ == ok_envelope(data@),
{
    let mut m: Vec<(String, Json)> = Vec::new();
    m.push(("ok".to_owned(), Json::Bool(true)));
    m.push(("v".to_owned(), Json::Number("2".to_owned())));
    m.push(("data".to_owned(), data));
    proof {
        json::lemma_object_view(m);
        assert(json::members(m@) =~= ok_envelope(data@)->Object_0);
    }
    Json::Object(m)
}

fn err_answer(message: String, code: String) -> (r: Json)
    ensures
        r@ == err_envelope(message@, code@),
{
    let mut m: Vec<(String, Json)> = Vec::new();
    m.push(("ok".to_owned(), Json::Bool(false)));
    m.push(("v".to_owned(), Json::Number("2".to_owned())));
    m.push(("error".to_owned(), Json::Str(message)));
    m.push(("code".to_owned(), Json::Str(code)));
    proof {
        json::lemma_object_view(m);
        assert(json::members(m@) =~= err_envelope(message@, code@)->Object_0);
    }
    Json::Object(m)
}

fn answer(resp: Json) -> (r: DaemonResult)
    ensures
        outcome_is(Attempt::Response(resp), r),
{
    match resp.text_of("status") {
        Some(status) => if text::same(status.as_str(), "ok") {
            let data = match resp {
                Json::Object(m) => {
                    proof {
                        json::lemma_object_view(m);
                    }
                    let mut m = m;
                    json::take_member(&mut m, "data")
                },
                _ => None,
            };
            match data {
                Some(d) => DaemonResult::Answer(ok_answer(d)),
                None => DaemonResult::Answer(ok_answer(Json::Null)),
            }
        } else if text::same(status.as_str(), "err") {
            let message = text_member(&resp, "message", "unknown error");
            let code = text_member(&resp, "code", "internal");
            DaemonResult::Answer(err_answer(message, code))
        } else {
            DaemonResult::Unresponsive
        },
        None => DaemonResult::Unresponsive,
    }
}

/// What becomes of a request.
pub fn outcome(a: Attempt) -> (r: DaemonResult)
    ensures
        outcome_is(a, r),
{
    match a {
        Attempt::PathTooLong | Attempt::NoSocket | Attempt::NotConnected => DaemonResult::NotRunning,
        Attempt::Refused(check) => match check {
            StaleCheck::LiveDaemon { .. } => DaemonResult::Unresponsive,
            _ => DaemonResult::StaleSocket,
        },
        Attempt::NotSent | Attempt::NoLine | Attempt::NotJson => DaemonResult::Unresponsive,
        Attempt::Response(resp) => answer(resp),
    }
}

/// Whether the socket of a refused connection has to be removed here; in the
/// other cases the check has done so.
pub fn removes_socket(check: &StaleCheck) -> (r: bool)
    ensures
        r == (*check is OrphanSocket),
{
    match check {
        StaleCheck::OrphanSocket => true,
        _ => false,
    }
}

/// The data of an envelope that reports success.
pub open spec fn envelope_data(e: JsonView) -> Option<JsonView> {
    if json::is_true(json::member(e, "ok"@)) {
        json::member(e, "data"@)
    } else {
        None
    }
}

/// The data of a successful answer; none in every other outcome.
pub fn daemon_get(result: &DaemonResult) -> (r: Option<&Json>)
    ensures
        json::opt_view(r) == (match *result {
            DaemonResult::Answer(e) => envelope_data(e@),
            _ => None,
        }),
{
    match result {
        DaemonResult::Answer(e) => if e.flag("ok") {
            e.get("data")
        } else {
            None
        },
        _ => None,
    }
}

/// The data of a successful response are what the caller gets; a response that
/// reports an error yields none.
pub proof fn law_data_survives_the_envelope(resp: JsonView)
    ensures
        ({
            let status = json::text_value(json::member(resp, "status"@));
            &&& status == Some("ok"@) ==> envelope_of(resp) is Some && envelope_data(
                envelope_of(resp).unwrap(),
            ) == (match json::member(resp, "data"@) {
                Some(d) => Some(d),
                None => Some(JsonView::Null),
            })
            &&& status == Some("err"@) ==> envelope_of(resp) is Some && envelope_data(
                envelope_of(resp).unwrap(),
            ) is None
        }),
{
    reveal_strlit("ok");
    reveal_strlit("err");
    reveal_strlit("v");
    reveal_strlit("data");
    reveal_strlit("error");
    reveal_strlit("code");
    assert("ok"@ != "err"@) by {
        assert("ok"@.len() != "err"@.len());
    }
    assert("v"@.len() != "data"@.len() && "ok"@.len() != "data"@.len());
    reveal_with_fuel(json::lookup, 4);
    let d = match json::member(resp, "data"@) {
        Some(d) => d,
        None => JsonView::Null,
    };
    let m = ok_envelope(d)->Object_0;
    assert(m.skip(1)[0] == m[1]);
    assert(m.skip(1).skip(1)[0] == m[2]);
}

// ---------------------------------------------------------------------------
// The state of the daemon
// ---------------------------------------------------------------------------

/// The daemon's state as its files and processes show it.
#[derive(Debug, Clone, Copy, PartialEq, Eq, Structural)]
#[allow(inconsistent_fields)]
pub enum DaemonState {
    /// No PID file, no socket.
    Empty,
    /// Files without a live owner.
    StaleFiles,
    LiveOwnerDaemon { pid: u32 },
    /// Owned by an MCP server.
    LiveOwnerMcp { pid: u32 },
    /// The socket answers but no PID file says whose it is. `from_metadata` says
    /// that the metadata name the process.
    LiveOwnerUnknown { pid: Option<u32>, from_metadata: bool },
    /// Only the sentinel of a live process is there.
    StartingSentinelOnly { pid: u32 },
    /// The process is alive and the socket there, but it does not answer.
    Unresponsive { pid: u32 },
}

/// What came of a ping.
#[derive(Debug, Clone, Copy, PartialEq, Eq, Structural)]
pub enum Ping {
    Answered,
    NotRunning,
    StaleSocket,
    Unresponsive,
}

pub open spec fn ping_of(r: DaemonResult) -> Ping {
    match r {
        DaemonResult::Answer(_) => Ping::Answered,
        DaemonResult::NotRunning => Ping::NotRunning,
        DaemonResult::StaleSocket => Ping::StaleSocket,
        DaemonResult::Unresponsive => Ping::Unresponsive,
    }
}

pub fn ping_outcome(r: &DaemonResult) -> (p: Ping)
    ensures
        p == ping_of(*r),
{
    match r {
        DaemonResult::Answer(_) => Ping::Answered,
        DaemonResult::NotRunning => Ping::NotRunning,
        DaemonResult::StaleSocket => Ping::StaleSocket,
        DaemonResult::Unresponsive => Ping::Unresponsive,
    }
}

/// Who a PID file names.
#[derive(Debug, Clone, Copy, PartialEq, Eq, Structural)]
pub struct Owner {
    pub pid: u32,
    pub is_mcp: bool,
    pub alive: bool,
}

/// The owner that a PID file names; `alive` is what is known of its process.
pub fn owner_of(info: &PidInfo, alive: bool) -> (r: Owner)
    ensures
        r == (Owner { pid: info.pid, is_mcp: info.owner@ == "mcp"@, alive }),
{
    Owner { pid: info.pid, is_mcp: text::same(info.owner.as_str(), "mcp"), alive }
}

/// What can be looked at to find the state out.
#[derive(Debug, Clone, Copy, PartialEq, Eq, Structural)]
pub enum Probe {
    /// The live process that the sentinel names.
    StartingPid,
    /// The PID file.
    PidFile,
    Ping,
    /// The process that the metadata name.
    MetadataPid,
    /// The process that holds the socket open.
    SocketOwner,
}

/// What has been found so far; `None` where nobody has looked yet.
#[derive(Debug, Clone, Copy, PartialEq, Eq, Structural)]
pub struct Findings {
    pub force: bool,
    pub has_pid: bool,
    pub has_sock: bool,
    pub has_starting: bool,
    pub starting: Option<Option<u32>>,
    pub pid_file: Option<Option<Owner>>,
    pub ping: Option<Ping>,
    pub metadata: Option<Option<u32>>,
    pub socket_owner: Option<Option<u32>>,
}

/// The next thing to look at, or the state.
#[derive(Debug, Clone, Copy, PartialEq, Eq, Structural)]
pub enum Finding {
    Look(Probe),
    State(DaemonState),
}

/// The state where neither PID file nor socket is there.
pub open spec fn state_without_files(f: Findings) -> Finding {
    if !f.has_starting {
        Finding::State(DaemonState::Empty)
    } else {
        match f.starting {
            None => Finding::Look(Probe::StartingPid),
            Some(Some(pid)) => Finding::State(DaemonState::StartingSentinelOnly { pid }),
            Some(None) => Finding::State(DaemonState::Empty),
        }
    }
}

/// The state where the PID file names an owner.
pub open spec fn state_with_owner(f: Findings, o: Owner) -> Finding {
    if !o.alive {
        Finding::State(DaemonState::StaleFiles)
    } else if o.is_mcp {
        Finding::State(DaemonState::LiveOwnerMcp { pid: o.pid })
    } else if !f.has_sock {
        Finding::State(DaemonState::LiveOwnerDaemon { pid: o.pid })
    } else {
        match f.ping {
            None => Finding::Look(Probe::Ping),
            Some(Ping::Answered) => Finding::State(DaemonState::LiveOwnerDaemon { pid: o.pid }),
            Some(Ping::Unresponsive) => Finding::State(DaemonState::Unresponsive { pid: o.pid }),
            Some(_) => Finding::State(DaemonState::StaleFiles),
        }
    }
}

/// The state where the socket answers but no PID file names its owner: the
/// metadata come first, then, where the stop is forced, the socket itself.
pub open spec fn state_of_stranger(f: Findings) -> Finding {
    match f.metadata {
        None => Finding::Look(Probe::MetadataPid),
        Some(Some(pid)) => Finding::State(
            DaemonState::LiveOwnerUnknown { pid: Some(pid), from_metadata: true },
        ),
        Some(None) => if !f.force {
            Finding::State(DaemonState::LiveOwnerUnknown { pid: None, from_metadata: false })
        } else {
            match f.socket_owner {
                None => Finding::Look(Probe::SocketOwner),
                Some(pid) => Finding::State(
                    DaemonState::LiveOwnerUnknown { pid, from_metadata: false },
                ),
            }
        },
    }
}

/// The state where no PID file names an owner.
pub open spec fn state_without_owner(f: Findings) -> Finding {
    if !f.has_sock {
        Finding::State(DaemonState::StaleFiles)
    } else {
        match f.ping {
            None => Finding::Look(Probe::Ping),
            Some(Ping::Answered) => state_of_stranger(f),
            Some(Ping::Unresponsive) => match f.metadata {
                None => Finding::Look(Probe::MetadataPid),
                Some(Some(pid)) => Finding::State(DaemonState::Unresponsive { pid }),
                Some(None) => Finding::State(DaemonState::StaleFiles),
            },
            Some(_) => Finding::State(DaemonState::StaleFiles),
        }
    }
}

/// The daemon's state, or what is still to be looked at.
pub open spec fn classification(f: Findings) -> Finding {
    if !f.has_pid && !f.has_sock {
        state_without_files(f)
    } else {
        match f.pid_file {
            None => Finding::Look(Probe::PidFile),
            Some(Some(o)) => state_with_owner(f, o),
            Some(None) => state_without_owner(f),
        }
    }
}

/// Finds out the daemon's state, one look at a time.
pub fn classify_daemon(f: &Findings) -> (r: Finding)
    ensures
        r == classification(*f),
{
    if !f.has_pid && !f.has_sock {
        if !f.has_starting {
            return Finding::State(DaemonState::Empty);
        }
        return match f.starting {
            None => Finding::Look(Probe::StartingPid),
            Some(Some(pid)) => Finding::State(DaemonState::StartingSentinelOnly { pid }),
            Some(None) => Finding::State(DaemonState::Empty),
        };
    }
    match f.pid_file {
        None => Finding::Look(Probe::PidFile),
        Some(Some(o)) => {
            if !o.alive {
                Finding::State(DaemonState::StaleFiles)
            } else if o.is_mcp {
                Finding::State(DaemonState::LiveOwnerMcp { pid: o.pid })
            } else if !f.has_sock {
                Finding::State(DaemonState::LiveOwnerDaemon { pid: o.pid })
            } else {
                match f.ping {
                    None => Finding::Look(Probe::Ping),
                    Some(Ping::Answered) => Finding::State(
                        DaemonState::LiveOwnerDaemon { pid: o.pid },
                    ),
                    Some(Ping::Unresponsive) => Finding::State(
                        DaemonState::Unresponsive { pid: o.pid },
                    ),
                    Some(_) => Finding::State(DaemonState::StaleFiles),
                }
            }
        },
        Some(None) => {
            if !f.has_sock {
                return Finding::State(DaemonState::StaleFiles);
            }
            match f.ping {
                None => Finding::Look(Probe::Ping),
                Some(Ping::Answered) => match f.metadata {
                    None => Finding::Look(Probe::MetadataPid),
                    Some(Some(pid)) => Finding::State(
                        DaemonState::LiveOwnerUnknown { pid: Some(pid), from_metadata: true },
                    ),
                    Some(None) => if !f.force {
                        Finding::State(
                            DaemonState::LiveOwnerUnknown { pid: None, from_metadata: false },
                        )
                    } else {
                        match f.socket_owner {
                            None => Finding::Look(Probe::SocketOwner),
                            Some(pid) => Finding::State(
                                DaemonState::LiveOwnerUnknown { pid, from_metadata: false },
                            ),
                        }
                    },
                },
                Some(Ping::Unresponsive) => match f.metadata {
                    None => Finding::Look(Probe::MetadataPid),
                    Some(Some(pid)) => Finding::State(DaemonState::Unresponsive { pid }),
                    Some(None) => Finding::State(DaemonState::StaleFiles),
                },
                Some(_) => Finding::State(DaemonState::StaleFiles),
            }
        },
    }
}

/// Whether nobody has looked yet.
pub open spec fn unlooked(f: Findings, p: Probe) -> bool {
    match p {
        Probe::StartingPid => f.starting is None,
        Probe::PidFile => f.pid_file is None,
        Probe::Ping => f.ping is None,
        Probe::MetadataPid => f.metadata is None,
        Probe::SocketOwner => f.socket_owner is None,
    }
}

/// Findings that keep what `f` holds and may hold more.
pub open spec fn extends(g: Findings, f: Findings) -> bool {
    &&& g.force == f.force
    &&& g.has_pid == f.has_pid
    &&& g.has_sock == f.has_sock
    &&& g.has_starting == f.has_starting
    &&& f.starting is Some ==> g.starting == f.starting
    &&& f.pid_file is Some ==> g.pid_file == f.pid_file
    &&& f.ping is Some ==> g.ping == f.ping
    &&& f.metadata is Some ==> g.metadata == f.metadata
    &&& f.socket_owner is Some ==> g.socket_owner == f.socket_owner
}

/// Only what nobody has looked at is asked for; the owner of the socket only where
/// a stop is forced; and a state, once found, does not change with further
/// findings.
pub proof fn law_classification_settles(f: Findings, g: Findings)
    requires
        extends(g, f),
    ensures
        classification(f) matches Finding::Look(p) ==> unlooked(f, p),
        classification(f) == Finding::Look(Probe::SocketOwner) ==> f.force,
        classification(f) is State ==> classification(g) == classification(f),
{
}

// ---------------------------------------------------------------------------
// Stopping
// ---------------------------------------------------------------------------

/// What `mati daemon stop` does in a state.
#[derive(Debug, PartialEq, Eq)]
#[allow(inconsistent_fields)]
pub enum StopPlan {
    /// Nothing runs. The files that were left behind go, where `remove_files`
    /// says so.
    Finish { remove_files: bool, stdout: String, event: String },
    /// The stop is refused.
    Refuse { stdout: Option<String>, event: String, error: String },
    /// The process is stopped.
    Kill { pid: u32, owner: &'static str },
}

#[verifier::ext_equal]
#[allow(inconsistent_fields)]
pub enum StopView {
    Finish { remove_files: bool, stdout: Seq<char>, event: Seq<char> },
    Refuse { stdout: Option<Seq<char>>, event: Seq<char>, error: Seq<char> },
    Kill { pid: u32, owner: Seq<char> },
}

impl View for StopPlan {
    type V = StopView;

    open spec fn view(&self) -> StopView {
        match self {
            StopPlan::Finish { remove_files, stdout, event } => StopView::Finish {
                remove_files: *remove_files,
                stdout: stdout@,
                event: event@,
            },
            StopPlan::Refuse { stdout, event, error } => StopView::Refuse {
                stdout: json::opt_text(*stdout),
                event: event@,
                error: error@,
            },
            StopPlan::Kill { pid, owner } => StopView::Kill { pid: *pid, owner: owner@ },
        }
    }
}

pub open spec fn pid_text(pid: u32) -> Seq<char> {
    text::dec(pid as nat)
}

/// The entry in the lifecycle log that ends a stop.
pub open spec fn stop_event(
    pid: Seq<char>,
    reason: Seq<char>,
    elapsed: Seq<char>,
    signal: Seq<char>,
) -> Seq<char> {
    "pid="@ + pid + " reason="@ + reason + " elapsed_ms="@ + elapsed + " signal="@ + signal
}

fn stop_entry(pid: &str, reason: &str, elapsed: &str, signal: &str) -> (r: String)
    ensures
        r@ == stop_event(pid@, reason@, elapsed@, signal@),
{
    "pid=".to_owned().concat(pid).concat(" reason=").concat(reason).concat(" elapsed_ms=").concat(
        elapsed,
    ).concat(" signal=").concat(signal)
}

/// A refusal to stop.
pub open spec fn refusal(stdout: Option<Seq<char>>, pid: Seq<char>, error: Seq<char>) -> StopView {
    StopView::Refuse { stdout, event: stop_event(pid, "refused"@, "0"@, "none"@), error }
}

/// What a stop does in a state. A live daemon, and one that no longer answers,
/// is stopped; what belongs to somebody else, or is just starting, only where
/// the stop is forced.
pub open spec fn stop_plan(state: DaemonState, force: bool) -> StopView {
    match state {
        DaemonState::Empty => StopView::Finish {
            remove_files: false,
            stdout: "mati daemon: not running"@,
            event: stop_event("none"@, "noop"@, "0"@, "none"@),
        },
        DaemonState::StaleFiles => StopView::Finish {
            remove_files: true,
            stdout: "mati daemon: cleaned up stale files (no live process)"@,
            event: stop_event("none"@, "stale"@, "0"@, "none"@),
        },
        DaemonState::LiveOwnerDaemon { pid } => StopView::Kill { pid, owner: "daemon"@ },
        DaemonState::LiveOwnerMcp { pid } => if force {
            StopView::Kill { pid, owner: "mcp"@ }
        } else {
            refusal(
                Some(
                    "mati daemon: refused \u{2014} owner=mcp, rerun with --force to stop the MCP server"@,
                ),
                pid_text(pid),
                "refused to stop the active MCP server (pid "@ + pid_text(pid)
                    + "); rerun with --force"@,
            )
        },
        DaemonState::LiveOwnerUnknown { pid, from_metadata } => if !force {
            refusal(
                Some(
                    "mati daemon: refused \u{2014} owner=unknown, rerun with --force to stop the active socket"@,
                ),
                "unknown"@,
                "refused to stop a socket with unknown owner; rerun with --force"@,
            )
        } else {
            match pid {
                Some(p) => StopView::Kill {
                    pid: p,
                    owner: if from_metadata {
                        "unknown"@
                    } else {
                        "lsof"@
                    },
                },
                None => refusal(
                    None,
                    "unknown"@,
                    "could not identify the owning process (no metadata, lsof returned nothing); manual intervention required"@,
                ),
            }
        },
        DaemonState::StartingSentinelOnly { pid } => if force {
            StopView::Kill { pid, owner: "starting"@ }
        } else {
            refusal(
                Some(
                    "mati daemon: refused \u{2014} a daemon is starting (pid "@ + pid_text(pid)
                        + "), rerun with --force to abort"@,
                ),
                pid_text(pid),
                "refused to abort starting daemon (pid "@ + pid_text(pid)
                    + "); rerun with --force"@,
            )
        },
        DaemonState::Unresponsive { pid } => StopView::Kill { pid, owner: "unresponsive"@ },
    }
}

fn refuse(stdout: Option<String>, pid: &str, error: String) -> (r: StopPlan)
    ensures
        r@ == refusal(json::opt_text(stdout), pid@, error@),
{
    StopPlan::Refuse { stdout, event: stop_entry(pid, "refused", "0", "none"), error }
}

/// Plans a stop.
pub fn plan_stop(state: DaemonState, force: bool) -> (r: StopPlan)
    ensures
        r@ == stop_plan(state, force),
{
    match state {
        DaemonState::Empty => StopPlan::Finish {
            remove_files: false,
            stdout: "mati daemon: not running".to_owned(),
            event: stop_entry("none", "noop", "0", "none"),
        },
        DaemonState::StaleFiles => StopPlan::Finish {
            remove_files: true,
            stdout: "mati daemon: cleaned up stale files (no live process)".to_owned(),
            event: stop_entry("none", "stale", "0", "none"),
        },
        DaemonState::LiveOwnerDaemon { pid } => StopPlan::Kill { pid, owner: "daemon" },
        DaemonState::LiveOwnerMcp { pid } => if force {
            StopPlan::Kill { pid, owner: "mcp" }
        } else {
            let p = text::decimal(pid as u64);
            refuse(
                Some(
                    "mati daemon: refused \u{2014} owner=mcp, rerun with --force to stop the MCP server".to_owned(),
                ),
                p.as_str(),
                "refused to stop the active MCP server (pid ".to_owned().concat(p.as_str()).concat(
                    "); rerun with --force",
                ),
            )
        },
        DaemonState::LiveOwnerUnknown { pid, from_metadata } => if !force {
            refuse(
                Some(
                    "mati daemon: refused \u{2014} owner=unknown, rerun with --force to stop the active socket".to_owned(),
                ),
                "unknown",
                "refused to stop a socket with unknown owner; rerun with --force".to_owned(),
            )
        } else {
            match pid {
                Some(p) => StopPlan::Kill {
                    pid: p,
                    owner: if from_metadata {
                        "unknown"
                    } else {
                        "lsof"
                    },
                },
                None => refuse(
                    None,
                    "unknown",
                    "could not identify the owning process (no metadata, lsof returned nothing); manual intervention required".to_owned(),
                ),
            }
        },
        DaemonState::StartingSentinelOnly { pid } => if force {
            StopPlan::Kill { pid, owner: "starting" }
        } else {
            let p = text::decimal(pid as u64);
            refuse(
                Some(
                    "mati daemon: refused \u{2014} a daemon is starting (pid ".to_owned().concat(
                        p.as_str(),
                    ).concat("), rerun with --force to abort"),
                ),
                p.as_str(),
                "refused to abort starting daemon (pid ".to_owned().concat(p.as_str()).concat(
                    "); rerun with --force",
                ),
            )
        },
        DaemonState::Unresponsive { pid } => StopPlan::Kill { pid, owner: "unresponsive" },
    }
}

/// Unless it is forced, a stop kills only a daemon of its own kind, one that
/// answers or one that is broken; and a stop that is not refused either kills
/// the process or finds none alive.
pub proof fn law_stop_spares_others(state: DaemonState)
    ensures
        stop_plan(state, false) is Kill ==> state is LiveOwnerDaemon || state is Unresponsive,
        state is LiveOwnerDaemon || state is Unresponsive ==> stop_plan(state, false) is Kill,
        forall|force: bool|
            (#[trigger] stop_plan(state, force)) is Finish <==> state is Empty || state is StaleFiles,
        stop_plan(state, false) is Refuse ==> stop_plan(state, true) is Kill || state
            matches DaemonState::LiveOwnerUnknown { pid: None, .. },
{
}

/// The entry in the lifecycle log that begins a stop.
pub fn stop_start_event(info: &Option<PidInfo>, force: bool) -> (r: String)
    ensures
        r@ == "pid_target="@ + (match *info {
            Some(i) => pid_text(i.pid),
            None => "unknown"@,
        }) + " owner="@ + (match *info {
            Some(i) => i.owner@,
            None => "unknown"@,
        }) + " force="@ + (if force {
            "true"@
        } else {
            "false"@
        }),
{
    let (pid, owner) = match info {
        Some(i) => (text::decimal(i.pid as u64), i.owner.clone()),
        None => ("unknown".to_owned(), "unknown".to_owned()),
    };
    "pid_target=".to_owned().concat(pid.as_str()).concat(" owner=").concat(owner.as_str()).concat(
        " force=",
    ).concat(
        if force {
            "true"
        } else {
            "false"
        },
    )
}

/// How a process ended after it was asked to; times in milliseconds.
#[derive(Debug, Clone, Copy, PartialEq, Eq, Structural)]
pub enum ExitOutcome {
    ExitedClean(u64),
    KilledHard(u64),
    /// It is still there; the time since the stop began.
    Stuck(u64),
}

/// What comes next while a process is waited for that was asked to end.
#[derive(Debug, Clone, Copy, PartialEq, Eq, Structural)]
pub enum KillStep {
    /// Look again soon.
    Wait,
    /// The time to end by itself is over: kill it.
    Kill,
    Done(ExitOutcome),
}

/// The next step towards the end of a process.
pub open spec fn step_of_killing(
    killed_at: Option<u64>,
    alive: bool,
    elapsed: u64,
    timeout: u64,
    grace: u64,
) -> KillStep {
    match killed_at {
        None => if !alive {
            KillStep::Done(ExitOutcome::ExitedClean(elapsed))
        } else if elapsed >= timeout {
            KillStep::Kill
        } else {
            KillStep::Wait
        },
        Some(t) => if !alive {
            KillStep::Done(ExitOutcome::KilledHard(elapsed))
        } else if elapsed >= t + grace {
            KillStep::Done(ExitOutcome::Stuck(elapsed))
        } else {
            KillStep::Wait
        },
    }
}

/// Decides on one look at a process. A process counts as ended only when it is
/// gone; one that outlives its time is killed, and one that outlives that by the
/// grace is stuck. `killed_at` is when it was killed; times are in milliseconds
/// since it was asked to end.
pub fn kill_step(
    killed_at: Option<u64>,
    alive: bool,
    elapsed: u64,
    timeout: u64,
    grace: u64,
) -> (r: KillStep)
    ensures
        r == step_of_killing(killed_at, alive, elapsed, timeout, grace),
{
    match killed_at {
        None => if !alive {
            KillStep::Done(ExitOutcome::ExitedClean(elapsed))
        } else if elapsed >= timeout {
            KillStep::Kill
        } else {
            KillStep::Wait
        },
        Some(t) => if !alive {
            KillStep::Done(ExitOutcome::KilledHard(elapsed))
        } else if elapsed >= t && elapsed - t >= grace {
            KillStep::Done(ExitOutcome::Stuck(elapsed))
        } else {
            KillStep::Wait
        },
    }
}

/// What is left to do and to say after a process was asked to end.
#[derive(Debug, PartialEq, Eq)]
pub struct StopReport {
    /// The daemon's files are to be gone.
    pub clean_up: bool,
    pub stderr: Option<String>,
    pub stdout: Option<String>,
    pub event: String,
    pub error: Option<String>,
}

#[verifier::ext_equal]
pub struct ReportView {
    pub clean_up: bool,
    pub stderr: Option<Seq<char>>,
    pub stdout: Option<Seq<char>>,
    pub event: Seq<char>,
    pub error: Option<Seq<char>>,
}

impl View for StopReport {
    type V = ReportView;

    open spec fn view(&self) -> ReportView {
        ReportView {
            clean_up: self.clean_up,
            stderr: json::opt_text(self.stderr),
            stdout: json::opt_text(self.stdout),
            event: self.event@,
            error: json::opt_text(self.error),
        }
    }
}

/// The report where the process is not waited for; `sent` says whether the
/// signal reached it.
pub open spec fn unwaited_report(pid: u32, sent: bool) -> ReportView {
    if sent {
        ReportView {
            clean_up: false,
            stderr: None,
            stdout: Some("mati daemon: SIGTERM sent (pid "@ + pid_text(pid) + "); not waiting"@),
            event: stop_event(pid_text(pid), "no_wait"@, "0"@, "TERM"@),
            error: None,
        }
    } else {
        ReportView {
            clean_up: false,
            stderr: None,
            stdout: None,
            event: stop_event(pid_text(pid), "signal_failed"@, "0"@, "TERM"@),
            error: Some("failed to send SIGTERM to pid "@ + pid_text(pid)),
        }
    }
}

pub fn no_wait_report(pid: u32, sent: bool) -> (r: StopReport)
    ensures
        r@ == unwaited_report(pid, sent),
{
    let p = text::decimal(pid as u64);
    if sent {
        StopReport {
            clean_up: false,
            stderr: None,
            stdout: Some(
                "mati daemon: SIGTERM sent (pid ".to_owned().concat(p.as_str()).concat(
                    "); not waiting",
                ),
            ),
            event: stop_entry(p.as_str(), "no_wait", "0", "TERM"),
            error: None,
        }
    } else {
        StopReport {
            clean_up: false,
            stderr: None,
            stdout: None,
            event: stop_entry(p.as_str(), "signal_failed", "0", "TERM"),
            error: Some("failed to send SIGTERM to pid ".to_owned().concat(p.as_str())),
        }
    }
}

/// Whether a signal counts as delivered: the call succeeded, or the process was
/// gone already.
pub fn signal_delivered(ret: i32, errno: Option<i32>, no_such_process: i32) -> (r: bool)
    ensures
        r == (ret == 0 || errno == Some(no_such_process)),
{
    ret == 0 || (match errno {
        Some(e) => e == no_such_process,
        None => false,
    })
}

/// Whether another daemon took the place over between two looks at the session.
pub open spec fn taken_over(before: Option<Seq<char>>, after: Option<Seq<char>>) -> bool {
    match (before, after) {
        (Some(a), Some(b)) => a != b,
        _ => false,
    }
}

pub fn recycled(before: &Option<String>, after: &Option<String>) -> (r: bool)
    ensures
        r == taken_over(json::opt_text(*before), json::opt_text(*after)),
{
    match before {
        Some(a) => match after {
            Some(b) => !text::same(a.as_str(), b.as_str()),
            None => false,
        },
        None => false,
    }
}

/// The line on a process that was stopped.
pub open spec fn stopped_line(
    verb: Seq<char>,
    pid: u32,
    owner: Seq<char>,
    ms: nat,
    signal: Seq<char>,
) -> Seq<char> {
    "mati daemon: "@ + verb + " (pid "@ + pid_text(pid) + ", owner="@ + owner + ", took "@
        + text::dec(ms) + "ms, signal="@ + signal + ")"@
}

fn stopped_text(verb: &str, pid: u32, owner: &str, ms: u64, signal: &str) -> (r: String)
    ensures
        r@ == stopped_line(verb@, pid, owner@, ms as nat, signal@),
{
    "mati daemon: ".to_owned().concat(verb).concat(" (pid ").concat(
        text::decimal(pid as u64).as_str(),
    ).concat(", owner=").concat(owner).concat(", took ").concat(text::decimal(ms).as_str()).concat(
        "ms, signal=",
    ).concat(signal).concat(")")
}

/// The report on a process that was waited for. Its files are cleaned up once it
/// is gone, unless another daemon has taken the place over.
pub open spec fn waited_report(
    pid: u32,
    owner: Seq<char>,
    outcome: ExitOutcome,
    recycled: bool,
) -> ReportView {
    match outcome {
        ExitOutcome::ExitedClean(ms) => ReportView {
            clean_up: !recycled,
            stderr: None,
            stdout: Some(stopped_line("stopped"@, pid, owner, ms as nat, "TERM"@)),
            event: stop_event(pid_text(pid), "clean_exit"@, text::dec(ms as nat), "TERM"@),
            error: None,
        },
        ExitOutcome::KilledHard(ms) => ReportView {
            clean_up: !recycled,
            stderr: Some(
                "[mati] WARNING: daemon (pid "@ + pid_text(pid)
                    + ") did not respond to SIGTERM; killed with SIGKILL"@,
            ),
            stdout: Some(stopped_line("force-killed"@, pid, owner, ms as nat, "KILL"@)),
            event: stop_event(pid_text(pid), "hard_kill"@, text::dec(ms as nat), "KILL"@),
            error: None,
        },
        ExitOutcome::Stuck(ms) => ReportView {
            clean_up: false,
            stderr: None,
            stdout: None,
            event: stop_event(pid_text(pid), "stuck"@, text::dec(ms as nat), "KILL"@),
            error: Some(
                "mati daemon: failed (pid "@ + pid_text(pid)
                    + ") \u{2014} process did not exit even after SIGKILL; manual intervention required"@,
            ),
        },
    }
}

pub fn stop_report(pid: u32, owner: &str, outcome: ExitOutcome, recycled: bool) -> (r: StopReport)
    ensures
        r@ == waited_report(pid, owner@, outcome, recycled),
{
    let p = text::decimal(pid as u64);
    match outcome {
        ExitOutcome::ExitedClean(ms) => StopReport {
            clean_up: !recycled,
            stderr: None,
            stdout: Some(stopped_text("stopped", pid, owner, ms, "TERM")),
            event: stop_entry(p.as_str(), "clean_exit", text::decimal(ms).as_str(), "TERM"),
            error: None,
        },
        ExitOutcome::KilledHard(ms) => StopReport {
            clean_up: !recycled,
            stderr: Some(
                "[mati] WARNING: daemon (pid ".to_owned().concat(p.as_str()).concat(
                    ") did not respond to SIGTERM; killed with SIGKILL",
                ),
            ),
            stdout: Some(stopped_text("force-killed", pid, owner, ms, "KILL")),
            event: stop_entry(p.as_str(), "hard_kill", text::decimal(ms).as_str(), "KILL"),
            error: None,
        },
        ExitOutcome::Stuck(ms) => StopReport {
            clean_up: false,
            stderr: None,
            stdout: None,
            event: stop_entry(p.as_str(), "stuck", text::decimal(ms).as_str(), "KILL"),
            error: Some(
                "mati daemon: failed (pid ".to_owned().concat(p.as_str()).concat(
                    ") \u{2014} process did not exit even after SIGKILL; manual intervention required",
                ),
            ),
        },
    }
}

/// A stop that waited succeeds exactly where the process is gone, and only then
/// touches the files; it never touches those of a daemon that took over.
pub proof fn law_stop_is_authoritative(pid: u32, owner: Seq<char>, outcome: ExitOutcome)
    ensures
        forall|recycled: bool| #![trigger waited_report(pid, owner, outcome, recycled)]
            {
                let r = waited_report(pid, owner, outcome, recycled);
                &&& r.error is None <==> !(outcome is Stuck)
                &&& r.clean_up <==> !(outcome is Stuck) && !recycled
            },
{
}

/// The daemon's own time to remove its files, in milliseconds.
pub const FILE_POLL_BUDGET_MS: u64 = 500;

/// What to do while the files of a stopped daemon may still be there.
#[derive(Debug, Clone, Copy, PartialEq, Eq, Structural)]
pub enum FilePoll {
    /// They are gone; what may be left is the sentinel.
    Gone,
    Wait,
    /// They are still there: remove them.
    Remove,
}

/// What to do about the files of a process that has ended.
pub open spec fn next_poll(elapsed_ms: u64, has_sock: bool, has_pid: bool) -> FilePoll {
    if elapsed_ms >= FILE_POLL_BUDGET_MS {
        FilePoll::Remove
    } else if !has_sock && !has_pid {
        FilePoll::Gone
    } else {
        FilePoll::Wait
    }
}

pub fn poll_files(elapsed_ms: u64, has_sock: bool, has_pid: bool) -> (r: FilePoll)
    ensures
        r == next_poll(elapsed_ms, has_sock, has_pid),
{
    if elapsed_ms >= FILE_POLL_BUDGET_MS {
        FilePoll::Remove
    } else if !has_sock && !has_pid {
        FilePoll::Gone
    } else {
        FilePoll::Wait
    }
}

/// The first word that is a PID.
pub open spec fn first_pid_of(words: Seq<Seq<char>>) -> Option<nat>
    decreases words.len(),
{
    if words.len() == 0 {
        None
    } else {
        match text::number_text(words[0], u32::MAX as nat) {
            Some(pid) => Some(pid),
            None => first_pid_of(words.skip(1)),
        }
    }
}

/// The process that holds the socket open, out of what `lsof` printed.
pub fn first_pid(stdout: &str) -> (r: Option<u32>)
    ensures
        match r {
            Some(pid) => first_pid_of(text::words_of(stdout@)) == Some(pid as nat),
            None => first_pid_of(text::words_of(stdout@)) is None,
        },
{
    let w = text::words(stdout);
    let ghost all = text::words_of(stdout@);
    let mut i: usize = 0;
    assert(all.skip(0) =~= all);
    while i < w.len()
        invariant
            i <= w.len(),
            all == text::texts(w@),
            all == text::words_of(stdout@),
            first_pid_of(all) == first_pid_of(all.skip(i as int)),
        decreases w.len() - i,
    {
        assert(all.skip(i as int)[0] == w@[i as int]@);
        assert(all.skip(i as int).skip(1) =~= all.skip(i + 1));
        if let Some(pid) = text::parse_number(w[i].as_str(), u32::MAX as u64) {
            return Some(pid as u32);
        }
        i = i + 1;
    }
    None
}

// ---------------------------------------------------------------------------
// Status
// ---------------------------------------------------------------------------

/// The lines on a daemon that answers.
pub open spec fn running_lines(
    info: Option<(nat, Seq<char>)>,
    socket: Seq<char>,
    version: Option<nat>,
    product: Seq<char>,
) -> Seq<Seq<char>> {
    (match info {
        Some((pid, owner)) => seq![
            "mati daemon is running (pid "@ + text::dec(pid) + ")"@,
            "  owner: "@ + owner,
        ],
        None => seq![
            "mati daemon is running (pid unknown \u{2014} PID file absent)"@,
            "  owner: likely mcp (socket created by older binary without PID file)"@,
            "  note: mati daemon stop will refuse to close a live unknown-owner socket"@,
            "  to stop: close the "@ + product + " session that uses mati"@,
        ],
    }) + seq![
        "  socket: "@ + socket,
        "  protocol version: "@ + (match version {
            Some(v) => text::dec(v),
            None => "unknown"@,
        }),
    ]
}

/// The lines on a daemon that does not answer.
pub open spec fn silent_lines(info: Option<(nat, Seq<char>)>, socket: Seq<char>) -> Seq<Seq<char>> {
    seq!["mati daemon socket exists but is not responding"@, "  socket: "@ + socket] + (match info {
        Some((pid, owner)) => seq![
            "  pid: "@ + text::dec(pid) + " (alive)"@,
            "  owner: "@ + owner,
        ],
        None => Seq::empty(),
    }) + seq!["  run `mati daemon stop` to clean up"@]
}

/// The lines where no daemon runs though there is a socket.
pub open spec fn dead_lines(info: Option<(nat, Seq<char>)>) -> Seq<Seq<char>> {
    seq!["mati daemon is not running"@] + (match info {
        Some((pid, _)) => seq!["  stale pid: "@ + text::dec(pid)],
        None => Seq::empty(),
    }) + seq!["  run `mati daemon stop` to clean up"@]
}

/// What `mati daemon status` prints. `ping` is the outcome of a ping, where there
/// is a socket.
pub open spec fn status_text(
    socket: Seq<char>,
    info: Option<(nat, Seq<char>)>,
    ping: Option<DaemonResult>,
    product: Seq<char>,
) -> Seq<Seq<char>> {
    match ping {
        None => seq!["mati daemon is not running (no socket)"@],
        Some(DaemonResult::Answer(e)) => if json::is_true(json::member(e@, "ok"@)) {
            running_lines(info, socket, sentinel::unsigned_value(json::member(e@, "v"@)), product)
        } else {
            dead_lines(info)
        },
        Some(DaemonResult::Unresponsive) => silent_lines(info, socket),
        Some(DaemonResult::StaleSocket) => seq!["mati daemon: stale socket cleaned up"@],
        Some(DaemonResult::NotRunning) => dead_lines(info),
    }
}

fn push_running(
    out: &mut Vec<String>,
    info: &Option<PidInfo>,
    socket: &str,
    version: Option<u64>,
    host: &Assistant,
)
    ensures
        text::texts(final(out)@) == text::texts(old(out)@) + running_lines(
            sentinel::pid_info_view(*info),
            socket@,
            match version {
                Some(v) => Some(v as nat),
                None => None,
            },
            host.product@,
        ),
{
    match info {
        Some(i) => {
            text::push_line(
                out,
                "mati daemon is running (pid ".to_owned().concat(
                    text::decimal(i.pid as u64).as_str(),
                ).concat(")"),
            );
            text::push_line(out, "  owner: ".to_owned().concat(i.owner.as_str()));
        },
        None => {
            text::push_line(
                out,
                "mati daemon is running (pid unknown \u{2014} PID file absent)".to_owned(),
            );
            text::push_line(
                out,
                "  owner: likely mcp (socket created by older binary without PID file)".to_owned(),
            );
            text::push_line(
                out,
                "  note: mati daemon stop will refuse to close a live unknown-owner socket".to_owned(),
            );
            text::push_line(
                out,
                "  to stop: close the ".to_owned().concat(host.product.as_str()).concat(
                    " session that uses mati",
                ),
            );
        },
    }
    text::push_line(out, "  socket: ".to_owned().concat(socket));
    let shown = match version {
        Some(v) => text::decimal(v),
        None => "unknown".to_owned(),
    };
    text::push_line(out, "  protocol version: ".to_owned().concat(shown.as_str()));
    assert(text::texts(out@) =~= text::texts(old(out)@) + running_lines(
        sentinel::pid_info_view(*info),
        socket@,
        match version {
            Some(v) => Some(v as nat),
            None => None,
        },
        host.product@,
    ));
}

fn push_silent(out: &mut Vec<String>, info: &Option<PidInfo>, socket: &str)
    ensures
        text::texts(final(out)@) == text::texts(old(out)@) + silent_lines(
            sentinel::pid_info_view(*info),
            socket@,
        ),
{
    text::push_line(out, "mati daemon socket exists but is not responding".to_owned());
    text::push_line(out, "  socket: ".to_owned().concat(socket));
    if let Some(i) = info {
        text::push_line(
            out,
            "  pid: ".to_owned().concat(text::decimal(i.pid as u64).as_str()).concat(" (alive)"),
        );
        text::push_line(out, "  owner: ".to_owned().concat(i.owner.as_str()));
    }
    text::push_line(out, "  run `mati daemon stop` to clean up".to_owned());
    assert(text::texts(out@) =~= text::texts(old(out)@) + silent_lines(
        sentinel::pid_info_view(*info),
        socket@,
    ));
}

fn push_dead(out: &mut Vec<String>, info: &Option<PidInfo>)
    ensures
        text::texts(final(out)@) == text::texts(old(out)@) + dead_lines(
            sentinel::pid_info_view(*info),
        ),
{
    text::push_line(out, "mati daemon is not running".to_owned());
    if let Some(i) = info {
        text::push_line(
            out,
            "  stale pid: ".to_owned().concat(text::decimal(i.pid as u64).as_str()),
        );
    }
    text::push_line(out, "  run `mati daemon stop` to clean up".to_owned());
    assert(text::texts(out@) =~= text::texts(old(out)@) + dead_lines(
        sentinel::pid_info_view(*info),
    ));
}

/// The lines of `mati daemon status`.
pub fn status_lines(
    socket: &str,
    info: &Option<PidInfo>,
    ping: &Option<DaemonResult>,
    host: &Assistant,
) -> (r: Vec<String>)
    ensures
        text::texts(r@) == status_text(
            socket@,
            sentinel::pid_info_view(*info),
            *ping,
            host.product@,
        ),
{
    let mut out: Vec<String> = Vec::new();
    let ghost none = text::texts(out@);
    assert(none =~= Seq::<Seq<char>>::empty());
    match ping {
        None => {
            text::push_line(&mut out, "mati daemon is not running (no socket)".to_owned());
        },
        Some(DaemonResult::Answer(e)) => if e.flag("ok") {
            push_running(&mut out, info, socket, sentinel::unsigned(e.get("v")), host);
        } else {
            push_dead(&mut out, info);
        },
        Some(DaemonResult::Unresponsive) => {
            push_silent(&mut out, info, socket);
        },
        Some(DaemonResult::StaleSocket) => {
            text::push_line(&mut out, "mati daemon: stale socket cleaned up".to_owned());
        },
        Some(DaemonResult::NotRunning) => {
            push_dead(&mut out, info);
        },
    }
    assert(text::texts(out@) =~= status_text(
        socket@,
        sentinel::pid_info_view(*info),
        *ping,
        host.product@,
    ));
    out
}

// ---------------------------------------------------------------------------
// What is found and what is done about it
// ---------------------------------------------------------------------------

/// A request says which session it belongs to, or that it belongs to none, and what
/// is asked.
pub proof fn law_request_carries_the_command(
    version: nat,
    id: Seq<char>,
    session: Option<Seq<char>>,
    cmd: JsonView,
)
    ensures
        ({
            let r = JsonView::Object(request_members(version, id, session, cmd));
            &&& json::member(r, "cmd"@) == Some(cmd)
            &&& json::member(r, "id"@) == Some(JsonView::Str(id))
            &&& json::member(r, "v"@) == Some(JsonView::Number(text::dec(version)))
            &&& session matches Some(s) ==> json::member(r, "session"@) == Some(JsonView::Str(s))
            &&& session is None ==> json::member(r, "session"@) == Some(
                JsonView::Str("00000000-0000-0000-0000-000000000000"@),
            )
        }),
{
    reveal_strlit("v");
    reveal_strlit("id");
    reveal_strlit("session");
    reveal_strlit("cmd");
    assert("v"@.len() == 1 && "id"@.len() == 2 && "session"@.len() == 7 && "cmd"@.len() == 3);
    let m = request_members(version, id, session, cmd);
    reveal_with_fuel(json::lookup, 5);
    assert(m.skip(1)[0] == m[1]);
    assert(m.skip(1).skip(1)[0] == m[2]);
    assert(m.skip(1).skip(1).skip(1)[0] == m[3]);
}

/// A refused request says so, with the message and the code of the response where it
/// has them.
pub proof fn law_errors_are_passed_on(resp: JsonView)
    requires
        json::text_value(json::member(resp, "status"@)) == Some("err"@),
    ensures
        envelope_of(resp) matches Some(e) && json::member(e, "ok"@) == Some(JsonView::Bool(false))
            && (json::text_value(json::member(resp, "message"@)) matches Some(m) ==> json::member(
            e,
            "error"@,
        ) == Some(JsonView::Str(m))) && (json::text_value(
            json::member(resp, "code"@),
        ) matches Some(c) ==> json::member(e, "code"@) == Some(JsonView::Str(c))),
{
    reveal_strlit("ok");
    reveal_strlit("err");
    reveal_strlit("v");
    reveal_strlit("error");
    reveal_strlit("code");
    assert("ok"@.len() == 2 && "err"@.len() == 3 && "v"@.len() == 1 && "error"@.len() == 5
        && "code"@.len() == 4);
    let m = envelope_of(resp).unwrap()->Object_0;
    reveal_with_fuel(json::lookup, 5);
    assert(m.skip(1)[0] == m[1]);
    assert(m.skip(1).skip(1)[0] == m[2]);
    assert(m.skip(1).skip(1).skip(1)[0] == m[3]);
}

/// Only a response in one of the two known forms is an answer. A daemon counts as not
/// running where there is no socket or no connection, its socket as stale where it
/// was refused with no live daemon behind it, and everything else as silent.
pub proof fn law_only_responses_are_answers(a: Attempt, r: DaemonResult)
    requires
        outcome_is(a, r),
    ensures
        r is Answer <==> (a matches Attempt::Response(resp) && {
            ||| json::text_value(json::member(resp@, "status"@)) == Some("ok"@)
            ||| json::text_value(json::member(resp@, "status"@)) == Some("err"@)
        }),
        r is NotRunning <==> a is PathTooLong || a is NoSocket || a is NotConnected,
        r is StaleSocket <==> (a matches Attempt::Refused(c) && !(c is LiveDaemon)),
{
}

/// A state is what was found: a live owner only where a process answers for it, and
/// stale files only where none does. The pid is that of the process that was found.
pub proof fn law_state_is_what_was_found(f: Findings, s: DaemonState)
    requires
        classification(f) == Finding::State(s),
    ensures
        s is Empty || s is StartingSentinelOnly <==> !f.has_pid && !f.has_sock,
        s matches DaemonState::StartingSentinelOnly { pid } ==> f.has_starting && f.starting
            == Some(Some(pid)),
        s is Empty && f.has_starting ==> f.starting == Some(None::<u32>),
        s matches DaemonState::LiveOwnerDaemon { pid } ==> (f.pid_file matches Some(Some(o))
            && o.pid == pid && o.alive && !o.is_mcp && (f.has_sock ==> f.ping == Some(
            Ping::Answered,
        ))),
        s matches DaemonState::LiveOwnerMcp { pid } ==> (f.pid_file matches Some(Some(o)) && o.pid
            == pid && o.alive && o.is_mcp),
        s matches DaemonState::LiveOwnerUnknown { pid, from_metadata } ==> f.pid_file == Some(
            None::<Owner>,
        ) && f.has_sock && f.ping == Some(Ping::Answered) && (from_metadata ==> f.metadata == Some(
            pid,
        ) && pid is Some) && (!from_metadata ==> f.metadata == Some(None::<u32>)) && (!from_metadata
            && pid is Some ==> f.force && f.socket_owner == Some(pid)),
        s matches DaemonState::Unresponsive { pid } ==> f.has_sock && f.ping == Some(
            Ping::Unresponsive,
        ) && (f.pid_file matches Some(Some(o)) ==> o.alive && o.pid == pid) && (f.pid_file == Some(
            None::<Owner>,
        ) ==> f.metadata == Some(Some(pid))),
        s is StaleFiles ==> (f.pid_file matches Some(Some(o)) ==> (o.alive ==> !o.is_mcp
            && f.has_sock && f.ping != Some(Ping::Answered) && f.ping != Some(Ping::Unresponsive)))
            && (f.pid_file
            == Some(None::<Owner>) && f.has_sock ==> f.ping != Some(Ping::Answered)),
        (f.has_pid || f.has_sock) && (f.pid_file matches Some(Some(o)) && !o.alive)
            ==> s is StaleFiles,
        (f.has_pid || f.has_sock) && (f.pid_file matches Some(Some(o)) && o.alive && o.is_mcp)
            ==> s is LiveOwnerMcp,
{
}

/// The process that is ended is the one that was found. Files are removed only where
/// no process is left.
pub proof fn law_only_the_found_process_is_ended(state: DaemonState, force: bool)
    ensures
        stop_plan(state, force) matches StopView::Kill { pid, owner } ==> (match state {
            DaemonState::LiveOwnerDaemon { pid: p } => pid == p,
            DaemonState::LiveOwnerMcp { pid: p } => pid == p && force,
            DaemonState::LiveOwnerUnknown { pid: p, .. } => p == Some(pid) && force,
            DaemonState::StartingSentinelOnly { pid: p } => pid == p && force,
            DaemonState::Unresponsive { pid: p } => pid == p,
            _ => false,
        }),
        stop_plan(state, force) matches StopView::Finish { remove_files, .. } ==> (remove_files
            <==> state is StaleFiles),
{
}

proof fn lemma_way_out(head: Seq<char>, e: Seq<char>)
    requires
        e == head + "rerun with --force"@,
    ensures
        text::text_contains(e, "rerun with --force"@),
{
    let w = "rerun with --force"@;
    let none = Seq::<char>::empty();
    text::lemma_part_occurs(head, w, none);
    assert(head + w + none =~= e);
}

proof fn lemma_bracket_way_out()
    ensures
        text::text_contains("); rerun with --force"@, "rerun with --force"@),
{
    reveal_strlit("rerun with --force");
    reveal_strlit("); rerun with --force");
    let e = "); rerun with --force"@;
    assert(e.take(3) + "rerun with --force"@ =~= e);
    lemma_way_out(e.take(3), e);
}

proof fn lemma_unknown_way_out()
    ensures
        text::text_contains(
            "refused to stop a socket with unknown owner; rerun with --force"@,
            "rerun with --force"@,
        ),
{
    reveal_strlit("rerun with --force");
    reveal_strlit("refused to stop a socket with unknown owner; rerun with --force");
    let e = "refused to stop a socket with unknown owner; rerun with --force"@;
    assert(e.take(45) + "rerun with --force"@ =~= e);
    lemma_way_out(e.take(45), e);
}

/// What is refused can be forced, and the refusal says so.
pub proof fn law_refusals_name_the_way_out(state: DaemonState)
    ensures
        stop_plan(state, false) matches StopView::Refuse { error, .. } ==> text::text_contains(
            error,
            "rerun with --force"@,
        ),
{
    lemma_bracket_way_out();
    lemma_unknown_way_out();
    let w = "rerun with --force"@;
    match state {
        DaemonState::LiveOwnerMcp { pid } => {
            let head = "refused to stop the active MCP server (pid "@ + pid_text(pid);
            text::lemma_contains_either(head, "); rerun with --force"@, w);
        },
        DaemonState::StartingSentinelOnly { pid } => {
            let head = "refused to abort starting daemon (pid "@ + pid_text(pid);
            text::lemma_contains_either(head, "); rerun with --force"@, w);
        },
        _ => {},
    }
}

/// A process is killed once, and only where it outlived its time. It counts as ended
/// exactly where it is gone, and as stuck only after the grace.
pub proof fn law_killing_is_the_last_resort(
    killed_at: Option<u64>,
    alive: bool,
    elapsed: u64,
    timeout: u64,
    grace: u64,
)
    ensures
        ({
            let s = step_of_killing(killed_at, alive, elapsed, timeout, grace);
            &&& s is Kill <==> alive && killed_at is None && elapsed >= timeout
            &&& !alive <==> s == KillStep::Done(ExitOutcome::ExitedClean(elapsed)) || s
                == KillStep::Done(ExitOutcome::KilledHard(elapsed))
            &&& s == KillStep::Done(ExitOutcome::ExitedClean(elapsed)) ==> killed_at is None
            &&& s == KillStep::Done(ExitOutcome::KilledHard(elapsed)) ==> killed_at is Some
            &&& s == KillStep::Done(ExitOutcome::Stuck(elapsed)) <==> alive && (killed_at matches Some(
                t,
            ) && elapsed >= t + grace)
        }),
{
}

/// The files of an ended process are waited for, and removed once the time for that
/// is over.
pub proof fn law_files_are_removed_in_the_end(elapsed_ms: u64, has_sock: bool, has_pid: bool)
    ensures
        next_poll(elapsed_ms, has_sock, has_pid) is Remove <==> elapsed_ms >= 500,
        next_poll(elapsed_ms, has_sock, has_pid) is Wait <==> elapsed_ms < 500 && (has_sock
            || has_pid),
{
}

/// Files are taken over only where both owners are known and differ.
pub proof fn law_recycled_means_another_owner(a: Seq<char>, b: Seq<char>)
    ensures
        taken_over(Some(a), Some(b)) <==> a != b,
        !taken_over(None, Some(b)),
        !taken_over(Some(a), None),
        !taken_over(None, None),
{
}

/// What is said about a stop names the process, and how it was made to end.
pub proof fn law_stop_is_told(pid: u32, owner: Seq<char>, outcome: ExitOutcome, recycled: bool)
    ensures
        ({
            let r = waited_report(pid, owner, outcome, recycled);
            &&& ("pid="@ + text::dec(pid as nat) + " reason="@).is_prefix_of(r.event)
            &&& r.stderr is Some <==> outcome is KilledHard
            &&& r.stdout is Some <==> !(outcome is Stuck)
            &&& outcome is ExitedClean ==> " signal=TERM"@.is_suffix_of(r.event)
            &&& outcome is KilledHard || outcome is Stuck ==> " signal=KILL"@.is_suffix_of(r.event)
            &&& outcome is ExitedClean ==> "mati daemon: stopped"@.is_prefix_of(r.stdout->0)
            &&& outcome is KilledHard ==> "mati daemon: force-killed"@.is_prefix_of(r.stdout->0)
        }),
        ({
            let sent = unwaited_report(pid, true);
            let failed = unwaited_report(pid, false);
            &&& sent.error is None && failed.error is Some
            &&& sent.stdout is Some && failed.stdout is None
            &&& !sent.clean_up && !failed.clean_up
            &&& ("pid="@ + text::dec(pid as nat) + " reason="@).is_prefix_of(sent.event)
            &&& ("pid="@ + text::dec(pid as nat) + " reason="@).is_prefix_of(failed.event)
        }),
{
    let p = "pid="@ + text::dec(pid as nat) + " reason="@;
    let r = waited_report(pid, owner, outcome, recycled);
    assert(r.event.subrange(0, p.len() as int) =~= p);
    let e1 = unwaited_report(pid, true).event;
    let e2 = unwaited_report(pid, false).event;
    assert(e1.subrange(0, p.len() as int) =~= p);
    assert(e2.subrange(0, p.len() as int) =~= p);
    reveal_strlit(" signal=TERM");
    reveal_strlit(" signal=KILL");
    reveal_strlit(" signal=");
    reveal_strlit("TERM");
    reveal_strlit("KILL");
    reveal_strlit("mati daemon: stopped");
    reveal_strlit("mati daemon: force-killed");
    reveal_strlit("mati daemon: ");
    reveal_strlit("stopped");
    reveal_strlit("force-killed");
    let n = r.event.len() as int;
    match outcome {
        ExitOutcome::ExitedClean(ms) => {
            assert(r.event.subrange(n - 12, n) =~= " signal=TERM"@);
            assert(r.stdout->0.subrange(0, 20) =~= "mati daemon: stopped"@);
        },
        ExitOutcome::KilledHard(ms) => {
            assert(r.event.subrange(n - 12, n) =~= " signal=KILL"@);
            assert(r.stdout->0.subrange(0, 25) =~= "mati daemon: force-killed"@);
        },
        ExitOutcome::Stuck(ms) => {
            assert(r.event.subrange(n - 12, n) =~= " signal=KILL"@);
        },
    }
}

/// The first number among the words is the pid; words that are no number are passed
/// over.
pub proof fn law_first_number_is_the_pid(words: Seq<Seq<char>>, w: Seq<char>, rest: Seq<Seq<char>>)
    requires
        forall|i: int|
            0 <= i < words.len() ==> text::number_text(#[trigger] words[i], u32::MAX as nat) is None,
    ensures
        first_pid_of(words) is None,
        text::number_text(w, u32::MAX as nat) matches Some(n) ==> first_pid_of(
            words + seq![w] + rest,
        ) == Some(n),
    decreases words.len(),
{
    let all = words + seq![w] + rest;
    if words.len() > 0 {
        assert(all[0] == words[0]);
        assert(all.skip(1) =~= words.skip(1) + seq![w] + rest);
        assert forall|i: int| 0 <= i < words.skip(1).len() implies text::number_text(
            #[trigger] words.skip(1)[i],
            u32::MAX as nat,
        ) is None by {
            assert(words.skip(1)[i] == words[i + 1]);
        }
        law_first_number_is_the_pid(words.skip(1), w, rest);
    } else {
        assert(all[0] == w);
    }
}

/// The daemon is told to be running exactly where it answered that all is well; its
/// pid, its owner and its socket are told then.
pub proof fn law_status_tells_whether_it_runs(
    socket: Seq<char>,
    info: Option<(nat, Seq<char>)>,
    ping: Option<DaemonResult>,
    product: Seq<char>,
)
    ensures
        ({
            let lines = status_text(socket, info, ping, product);
            let well = ping matches Some(DaemonResult::Answer(e)) && json::is_true(
                json::member(e@, "ok"@),
            );
            &&& well <==> "mati daemon is running"@.is_prefix_of(lines[0])
            &&& well ==> lines.contains("  socket: "@ + socket)
            &&& well ==> (info matches Some((pid, owner)) ==> lines[0]
                == "mati daemon is running (pid "@ + text::dec(pid) + ")"@ && lines[1]
                == "  owner: "@ + owner)
            &&& ping is None || ping == Some(DaemonResult::NotRunning)
                ==> "mati daemon is not running"@.is_prefix_of(lines[0])
            &&& ping == Some(DaemonResult::Unresponsive) ==> lines.contains(
                "  run `mati daemon stop` to clean up"@,
            ) && lines[0] == "mati daemon socket exists but is not responding"@
        }),
{
    let lines = status_text(socket, info, ping, product);
    let up = "mati daemon is running"@;
    let down = "mati daemon is not running"@;
    reveal_strlit("mati daemon is running");
    reveal_strlit("mati daemon is not running");
    reveal_strlit("mati daemon is running (pid ");
    reveal_strlit("mati daemon is running (pid unknown \u{2014} PID file absent)");
    reveal_strlit("mati daemon is not running (no socket)");
    reveal_strlit("mati daemon socket exists but is not responding");
    reveal_strlit("mati daemon: stale socket cleaned up");
    let l = lines[0];
    if up.is_prefix_of(l) {
        assert(l.subrange(0, up.len() as int)[11] == ' ');
        assert(l.subrange(0, up.len() as int)[12] == 'i');
        assert(l.subrange(0, up.len() as int)[15] == 'r');
    }
    match ping {
        None => {
            assert(l.subrange(0, down.len() as int) =~= down);
        },
        Some(DaemonResult::Answer(e)) => if json::is_true(json::member(e@, "ok"@)) {
            assert(l.subrange(0, up.len() as int) =~= up);
            let k: int = if info is Some {
                2
            } else {
                4
            };
            assert(lines[k] == "  socket: "@ + socket);
        } else {
            assert(l == down);
        },
        Some(DaemonResult::NotRunning) => {
            assert(l == down);
            assert(l.subrange(0, down.len() as int) =~= down);
        },
        Some(DaemonResult::Unresponsive) => {
            assert(lines[lines.len() - 1] == "  run `mati daemon stop` to clean up"@);
        },
        _ => {},
    }
}

} // verus!
