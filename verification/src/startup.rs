//! The start of a daemon step by step, and its end: what each step leaves behind
//! when it fails, what is logged, and when an idle daemon shuts itself down.
use vstd::prelude::*;
use crate::daemon::StaleCheck;
use crate::sentinel;
use crate::text;

verus! {

/// How far a start has come. The next event is on what the phase is named after.
#[derive(Debug, Clone, Copy, PartialEq, Eq, Structural)]
pub enum Phase {
    /// The files of an earlier daemon.
    Stale,
    /// The sentinel of another start.
    Peer,
    /// The working directory.
    Directory,
    Store,
    Graph,
    /// The dirty indexes of an earlier crash.
    Repair,
    /// The length of the socket's path.
    SocketPath,
    Bind,
    Publish,
    /// The PID file that replaces the metadata.
    PidFile,
    /// The daemon serves.
    Ready,
    Failed,
}

/// What came of cleaning up dirty indexes.
#[derive(Debug, PartialEq, Eq)]
pub enum Repair {
    NotNeeded,
    /// Done, with this much drift left.
    Drained(u64),
    DrainFailed(String),
    /// Given up after the time shown.
    TimedOut(String),
}

/// What the driver found or did.
#[derive(Debug, PartialEq, Eq)]
pub enum Event {
    Stale(StaleCheck),
    /// Whether another start is in progress.
    Peer(bool),
    Directory(Result<(), String>),
    /// The store, with the milliseconds that it took.
    Store(Result<u64, String>),
    Graph(Result<(), String>),
    Repair(Repair),
    /// The bytes of the socket's path and how many the system allows.
    SocketPath { bytes: u64, limit: u64 },
    Bind(Result<(), String>),
    /// With the milliseconds since the start.
    Publish(Result<u64, String>),
    PidFile(Result<u64, String>),
}

/// What the driver has to do.
#[derive(Debug, PartialEq, Eq)]
pub enum Effect {
    RemoveSocket,
    InstallPanicHook,
    /// An entry in the lifecycle log.
    Record { event: &'static str, detail: String },
    WriteSentinel,
    RemoveSentinel,
    WritePidFile(String),
    RemovePidFile,
    /// A line on standard error.
    Announce(String),
}

#[verifier::ext_equal]
pub enum EffectView {
    RemoveSocket,
    InstallPanicHook,
    Record { event: Seq<char>, detail: Seq<char> },
    WriteSentinel,
    RemoveSentinel,
    WritePidFile(Seq<char>),
    RemovePidFile,
    Announce(Seq<char>),
}

impl View for Effect {
    type V = EffectView;

    open spec fn view(&self) -> EffectView {
        match self {
            Effect::RemoveSocket => EffectView::RemoveSocket,
            Effect::InstallPanicHook => EffectView::InstallPanicHook,
            Effect::Record { event, detail } => EffectView::Record {
                event: event@,
                detail: detail@,
            },
            Effect::WriteSentinel => EffectView::WriteSentinel,
            Effect::RemoveSentinel => EffectView::RemoveSentinel,
            Effect::WritePidFile(s) => EffectView::WritePidFile(s@),
            Effect::RemovePidFile => EffectView::RemovePidFile,
            Effect::Announce(s) => EffectView::Announce(s@),
        }
    }
}

pub open spec fn effects(v: Seq<Effect>) -> Seq<EffectView> {
    v.map_values(|e: Effect| e@)
}

/// What the messages of a start mention.
#[derive(Debug, PartialEq, Eq)]
pub struct Setting {
    pub pid: u32,
    pub socket: String,
    /// Seconds after which an idle daemon ends.
    pub idle_secs: u64,
}

/// A start in progress.
#[derive(Debug, PartialEq, Eq)]
pub struct Startup {
    pub phase: Phase,
    /// Why the metadata could not be published, once that has failed.
    pub unpublished: String,
}

/// What one event leads to.
#[verifier::ext_equal]
pub struct StepView {
    pub phase: Phase,
    pub effects: Seq<EffectView>,
    /// What a start that fails reports.
    pub error: Option<Seq<char>>,
    pub unpublished: Seq<char>,
}

pub open spec fn record(event: Seq<char>, detail: Seq<char>) -> EffectView {
    EffectView::Record { event, detail }
}

/// Whether the sentinel is there in a phase.
pub open spec fn has_sentinel(p: Phase) -> bool {
    match p {
        Phase::Stale | Phase::Peer | Phase::Ready | Phase::Failed => false,
        _ => true,
    }
}

/// A start that goes on.
pub open spec fn goes_on(phase: Phase, effects: Seq<EffectView>) -> StepView {
    StepView { phase, effects, error: None, unpublished: Seq::empty() }
}

/// A start that fails before it has left anything behind.
pub open spec fn bails(error: Seq<char>) -> StepView {
    StepView {
        phase: Phase::Failed,
        effects: Seq::empty(),
        error: Some(error),
        unpublished: Seq::empty(),
    }
}

/// A start that fails later: the failure is logged and the sentinel goes.
pub open spec fn fails(detail: Seq<char>, error: Seq<char>) -> StepView {
    StepView {
        phase: Phase::Failed,
        effects: seq![record("serve_failed"@, detail), EffectView::RemoveSentinel],
        error: Some(error),
        unpublished: Seq::empty(),
    }
}

pub open spec fn peer_message() -> Seq<char> {
    "another mati daemon is starting up. Wait a few seconds, then retry:\n\n  mati daemon status\n\nIf the previous start crashed, the sentinel will expire after "@
        + text::dec(sentinel::STARTING_STALE_SECS as nat) + "s."@
}

/// The last step: the sentinel goes and the daemon serves.
pub open spec fn becomes_ready(s: Setting, ms: nat) -> StepView {
    goes_on(
        Phase::Ready,
        seq![
            EffectView::RemoveSentinel,
            record("startup"@, "phase=ready elapsed_ms="@ + text::dec(ms)),
            EffectView::Announce(
                "mati daemon listening on "@ + s.socket@ + " (idle shutdown: "@ + text::dec(
                    (s.idle_secs / 60) as nat,
                ) + "min)"@,
            ),
        ],
    )
}

pub open spec fn path_too_long(s: Setting, bytes: nat, limit: nat) -> StepView {
    fails(
        "sock_path_too_long: "@ + text::dec(bytes) + ">"@ + text::dec(limit),
        "socket path too long ("@ + text::dec(bytes) + " > "@ + text::dec(limit) + " bytes): "@
            + s.socket@
            + "\nShorten your home directory path or symlink ~/.mati to a shorter location."@,
    )
}

/// What an event leads to in the phase that waits for it; `None` where the phase
/// waits for another one.
pub open spec fn step(st: Startup, s: Setting, e: Event) -> Option<StepView> {
    match (st.phase, e) {
        (Phase::Stale, Event::Stale(check)) => Some(
            match check {
                StaleCheck::LiveDaemon { pid, owner } => bails(
                    "another mati "@ + owner@ + " (pid "@ + text::dec(pid as nat)
                        + ") is already running.\nStop it with: mati daemon stop"@,
                ),
                StaleCheck::OrphanSocket => goes_on(Phase::Peer, seq![EffectView::RemoveSocket]),
                _ => goes_on(Phase::Peer, Seq::empty()),
            },
        ),
        (Phase::Peer, Event::Peer(active)) => Some(
            if active {
                bails(peer_message())
            } else {
                goes_on(
                    Phase::Directory,
                    seq![
                        EffectView::InstallPanicHook,
                        record("serve_start"@, "pid="@ + text::dec(s.pid as nat) + " owner=daemon"@),
                        EffectView::WriteSentinel,
                    ],
                )
            },
        ),
        (Phase::Directory, Event::Directory(r)) => Some(
            match r {
                Ok(_) => goes_on(
                    Phase::Store,
                    seq![record("startup"@, "phase=opening_store"@)],
                ),
                Err(e) => fails("canonicalize cwd: "@ + e@, e@),
            },
        ),
        (Phase::Store, Event::Store(r)) => Some(
            match r {
                Ok(ms) => goes_on(
                    Phase::Graph,
                    seq![
                        record("startup"@, "phase=store_opened elapsed_ms="@ + text::dec(ms as nat)),
                    ],
                ),
                Err(e) => fails("store open: "@ + e@, e@),
            },
        ),
        (Phase::Graph, Event::Graph(r)) => Some(
            match r {
                Ok(_) => goes_on(Phase::Repair, Seq::empty()),
                Err(e) => fails("graph load: "@ + e@, e@),
            },
        ),
        (Phase::Repair, Event::Repair(r)) => Some(
            goes_on(
                Phase::SocketPath,
                match r {
                    Repair::NotNeeded => Seq::empty(),
                    Repair::Drained(n) => seq![
                        record("auto_repair"@, "drift_remaining="@ + text::dec(n as nat)),
                    ],
                    Repair::DrainFailed(e) => seq![record("auto_repair_failed"@, e@)],
                    Repair::TimedOut(t) => seq![record("auto_repair_timeout"@, "timeout="@ + t@)],
                },
            ),
        ),
        (Phase::SocketPath, Event::SocketPath { bytes, limit }) => Some(
            if bytes > limit {
                path_too_long(s, bytes as nat, limit as nat)
            } else {
                goes_on(Phase::Bind, Seq::empty())
            },
        ),
        (Phase::Bind, Event::Bind(r)) => Some(
            match r {
                Ok(_) => goes_on(Phase::Publish, Seq::empty()),
                Err(e) => fails("bind: "@ + e@, e@),
            },
        ),
        (Phase::Publish, Event::Publish(r)) => Some(
            match r {
                Ok(ms) => becomes_ready(s, ms as nat),
                Err(e) => StepView {
                    phase: Phase::PidFile,
                    effects: seq![EffectView::WritePidFile(sentinel::legacy_pid_text(s.pid as nat))],
                    error: None,
                    unpublished: e@,
                },
            },
        ),
        (Phase::PidFile, Event::PidFile(r)) => Some(
            match r {
                Ok(ms) => becomes_ready(s, ms as nat),
                Err(e) => fails(
                    "publish+pid fallback both failed: publish="@ + st.unpublished@ + " legacy="@
                        + e@,
                    e@,
                ),
            },
        ),
        _ => None,
    }
}

fn push_effect(v: &mut Vec<Effect>, e: Effect)
    ensures
        effects(final(v)@) == effects(old(v)@).push(e@),
{
    let ghost before = v@;
    v.push(e);
    assert(effects(v@) =~= effects(before).push(e@));
}

fn push_record(v: &mut Vec<Effect>, event: &'static str, detail: String)
    ensures
        effects(final(v)@) == effects(old(v)@).push(record(event@, detail@)),
{
    push_effect(v, Effect::Record { event, detail });
}

impl Startup {
    pub fn new() -> (r: Startup)
        ensures
            r.phase == Phase::Stale,
            r.unpublished@.len() == 0,
    {
        Startup { phase: Phase::Stale, unpublished: String::new() }
    }

    /// Writes the failure down and takes the sentinel away.
    fn fail(&mut self, out: &mut Vec<Effect>, detail: String)
        requires
            old(out)@.len() == 0,
        ensures
            final(self).phase == Phase::Failed,
            final(self).unpublished@.len() == 0,
            effects(final(out)@) == seq![
                record("serve_failed"@, detail@),
                EffectView::RemoveSentinel,
            ],
    {
        push_record(out, "serve_failed", detail);
        push_effect(out, Effect::RemoveSentinel);
        self.phase = Phase::Failed;
        self.unpublished = String::new();
        assert(effects(out@) =~= seq![record("serve_failed"@, detail@), EffectView::RemoveSentinel]);
    }

    fn pass(&mut self, phase: Phase)
        ensures
            final(self).phase == phase,
            final(self).unpublished@.len() == 0,
    {
        self.phase = phase;
        self.unpublished = String::new();
    }

    fn become_ready(&mut self, out: &mut Vec<Effect>, s: &Setting, ms: u64)
        requires
            old(out)@.len() == 0,
        ensures
            final(self).phase == Phase::Ready,
            final(self).unpublished@.len() == 0,
            effects(final(out)@) == becomes_ready(*s, ms as nat).effects,
    {
        push_effect(out, Effect::RemoveSentinel);
        push_record(
            out,
            "startup",
            "phase=ready elapsed_ms=".to_owned().concat(text::decimal(ms).as_str()),
        );
        push_effect(
            out,
            Effect::Announce(
                "mati daemon listening on ".to_owned().concat(s.socket.as_str()).concat(
                    " (idle shutdown: ",
                ).concat(text::decimal(s.idle_secs / 60).as_str()).concat("min)"),
            ),
        );
        self.pass(Phase::Ready);
        assert(effects(out@) =~= becomes_ready(*s, ms as nat).effects);
    }

    /// Takes an event: puts the effects into `out` and returns the error of a
    /// start that fails. An event that the phase does not wait for changes
    /// nothing.
    pub fn on_event(&mut self, s: &Setting, e: Event, out: &mut Vec<Effect>) -> (r: Option<String>)
        requires
            old(out)@.len() == 0,
        ensures
            match step(*old(self), *s, e) {
                Some(v) => {
                    &&& final(self).phase == v.phase
                    &&& final(self).unpublished@ == v.unpublished
                    &&& effects(final(out)@) == v.effects
                    &&& r is Some == v.error is Some
                    &&& r is Some ==> r.unwrap()@ == v.error.unwrap()
                },
                None => {
                    &&& *final(self) == *old(self)
                    &&& final(out)@.len() == 0
                    &&& r is None
                },
            },
    {
        assert(effects(out@) =~= Seq::<EffectView>::empty());
        let phase = self.phase;
        match (phase, e) {
            (Phase::Stale, Event::Stale(check)) => {
                match check {
                    StaleCheck::LiveDaemon { pid, owner } => {
                        self.pass(Phase::Failed);
                        assert(self.unpublished@ =~= Seq::<char>::empty());
                        Some(
                            "another mati ".to_owned().concat(owner.as_str()).concat(
                                " (pid ",
                            ).concat(text::decimal(pid as u64).as_str()).concat(
                                ") is already running.\nStop it with: mati daemon stop",
                            ),
                        )
                    },
                    StaleCheck::OrphanSocket => {
                        push_effect(out, Effect::RemoveSocket);
                        self.pass(Phase::Peer);
                        assert(effects(out@) =~= seq![EffectView::RemoveSocket]);
                        assert(self.unpublished@ =~= Seq::<char>::empty());
                        None
                    },
                    _ => {
                        self.pass(Phase::Peer);
                        assert(self.unpublished@ =~= Seq::<char>::empty());
                        None
                    },
                }
            },
            (Phase::Peer, Event::Peer(active)) => self.on_peer(s, active, out),
            (Phase::Directory, Event::Directory(r)) => {
                match r {
                    Ok(_) => {
                        push_record(out, "startup", "phase=opening_store".to_owned());
                        self.pass(Phase::Store);
                        assert(effects(out@) =~= seq![record("startup"@, "phase=opening_store"@)]);
                        assert(self.unpublished@ =~= Seq::<char>::empty());
                        None
                    },
                    Err(e) => {
                        self.fail(out, "canonicalize cwd: ".to_owned().concat(e.as_str()));
                        assert(self.unpublished@ =~= Seq::<char>::empty());
                        Some(e)
                    },
                }
            },
            (Phase::Store, Event::Store(r)) => {
                match r {
                    Ok(ms) => {
                        push_record(
                            out,
                            "startup",
                            "phase=store_opened elapsed_ms=".to_owned().concat(
                                text::decimal(ms).as_str(),
                            ),
                        );
                        self.pass(Phase::Graph);
                        assert(effects(out@) =~= seq![
                            record(
                                "startup"@,
                                "phase=store_opened elapsed_ms="@ + text::dec(ms as nat),
                            ),
                        ]);
                        assert(self.unpublished@ =~= Seq::<char>::empty());
                        None
                    },
                    Err(e) => {
                        self.fail(out, "store open: ".to_owned().concat(e.as_str()));
                        assert(self.unpublished@ =~= Seq::<char>::empty());
                        Some(e)
                    },
                }
            },
            (Phase::Graph, Event::Graph(r)) => {
                match r {
                    Ok(_) => {
                        self.pass(Phase::Repair);
                        assert(self.unpublished@ =~= Seq::<char>::empty());
                        None
                    },
                    Err(e) => {
                        self.fail(out, "graph load: ".to_owned().concat(e.as_str()));
                        assert(self.unpublished@ =~= Seq::<char>::empty());
                        Some(e)
                    },
                }
            },
            (Phase::Repair, Event::Repair(r)) => self.on_repair(r, out),
            (Phase::SocketPath, Event::SocketPath { bytes, limit }) => {
                if bytes > limit {
                    self.on_long_path(s, bytes, limit, out)
                } else {
                    self.pass(Phase::Bind);
                    assert(self.unpublished@ =~= Seq::<char>::empty());
                    None
                }
            },
            (Phase::Bind, Event::Bind(r)) => {
                match r {
                    Ok(_) => {
                        self.pass(Phase::Publish);
                        assert(self.unpublished@ =~= Seq::<char>::empty());
                        None
                    },
                    Err(e) => {
                        self.fail(out, "bind: ".to_owned().concat(e.as_str()));
                        assert(self.unpublished@ =~= Seq::<char>::empty());
                        Some(e)
                    },
                }
            },
            (Phase::Publish, Event::Publish(r)) => {
                match r {
                    Ok(ms) => {
                        self.become_ready(out, s, ms);
                        assert(self.unpublished@ =~= Seq::<char>::empty());
                        None
                    },
                    Err(e) => {
                        push_effect(out, Effect::WritePidFile(sentinel::legacy_pid_file(s.pid)));
                        self.phase = Phase::PidFile;
                        self.unpublished = e;
                        assert(effects(out@) =~= seq![
                            EffectView::WritePidFile(sentinel::legacy_pid_text(s.pid as nat)),
                        ]);
                        None
                    },
                }
            },
            (Phase::PidFile, Event::PidFile(r)) => {
                match r {
                    Ok(ms) => {
                        self.become_ready(out, s, ms);
                        assert(self.unpublished@ =~= Seq::<char>::empty());
                        None
                    },
                    Err(e) => {
                        let detail = "publish+pid fallback both failed: publish=".to_owned().concat(
                            self.unpublished.as_str(),
                        ).concat(" legacy=").concat(e.as_str());
                        self.fail(out, detail);
                        assert(self.unpublished@ =~= Seq::<char>::empty());
                        Some(e)
                    },
                }
            },
            _ => None,
        }
    }

    fn on_peer(&mut self, s: &Setting, active: bool, out: &mut Vec<Effect>) -> (r: Option<String>)
        requires
            old(self).phase == Phase::Peer,
            old(out)@.len() == 0,
        ensures
            ({
                let v = step(*old(self), *s, Event::Peer(active)).unwrap();
                &&& final(self).phase == v.phase
                &&& final(self).unpublished@ == v.unpublished
                &&& effects(final(out)@) == v.effects
                &&& r is Some == v.error is Some
                &&& r is Some ==> r.unwrap()@ == v.error.unwrap()
            }),
    {
        if active {
            self.pass(Phase::Failed);
            assert(self.unpublished@ =~= Seq::<char>::empty());
            assert(effects(out@) =~= Seq::<EffectView>::empty());
            return Some(
                "another mati daemon is starting up. Wait a few seconds, then retry:\n\n  mati daemon status\n\nIf the previous start crashed, the sentinel will expire after ".to_owned().concat(
                    text::decimal(sentinel::STARTING_STALE_SECS).as_str(),
                ).concat("s."),
            );
        }
        push_effect(out, Effect::InstallPanicHook);
        push_record(
            out,
            "serve_start",
            "pid=".to_owned().concat(text::decimal(s.pid as u64).as_str()).concat(" owner=daemon"),
        );
        push_effect(out, Effect::WriteSentinel);
        self.pass(Phase::Directory);
        assert(self.unpublished@ =~= Seq::<char>::empty());
        assert(effects(out@) =~= seq![
            EffectView::InstallPanicHook,
            record("serve_start"@, "pid="@ + text::dec(s.pid as nat) + " owner=daemon"@),
            EffectView::WriteSentinel,
        ]);
        None
    }

    fn on_repair(&mut self, r: Repair, out: &mut Vec<Effect>) -> (e: Option<String>)
        requires
            old(self).phase == Phase::Repair,
            old(out)@.len() == 0,
        ensures
            forall|s: Setting|
                {
                    let v = (#[trigger] step(*old(self), s, Event::Repair(r))).unwrap();
                    &&& final(self).phase == v.phase
                    &&& final(self).unpublished@ == v.unpublished
                    &&& effects(final(out)@) == v.effects
                },
            e is None,
    {
        self.pass(Phase::SocketPath);
        assert(self.unpublished@ =~= Seq::<char>::empty());
        match r {
            Repair::NotNeeded => {
                assert(effects(out@) =~= Seq::<EffectView>::empty());
            },
            Repair::Drained(n) => {
                push_record(
                    out,
                    "auto_repair",
                    "drift_remaining=".to_owned().concat(text::decimal(n).as_str()),
                );
                assert(effects(out@) =~= seq![
                    record("auto_repair"@, "drift_remaining="@ + text::dec(n as nat)),
                ]);
            },
            Repair::DrainFailed(e) => {
                let ghost shown = e@;
                push_record(out, "auto_repair_failed", e);
                assert(effects(out@) =~= seq![record("auto_repair_failed"@, shown)]);
            },
            Repair::TimedOut(t) => {
                push_record(out, "auto_repair_timeout", "timeout=".to_owned().concat(t.as_str()));
                assert(effects(out@) =~= seq![record("auto_repair_timeout"@, "timeout="@ + t@)]);
            },
        }
        None
    }

    fn on_long_path(&mut self, s: &Setting, bytes: u64, limit: u64, out: &mut Vec<Effect>) -> (r:
        Option<String>)
        requires
            old(out)@.len() == 0,
        ensures
            ({
                let v = path_too_long(*s, bytes as nat, limit as nat);
                &&& final(self).phase == v.phase
                &&& final(self).unpublished@ == v.unpublished
                &&& effects(final(out)@) == v.effects
                &&& r is Some
                &&& r.unwrap()@ == v.error.unwrap()
            }),
    {
        let b = text::decimal(bytes);
        let l = text::decimal(limit);
        self.fail(
            out,
            "sock_path_too_long: ".to_owned().concat(b.as_str()).concat(">").concat(l.as_str()),
        );
        assert(self.unpublished@ =~= Seq::<char>::empty());
        Some(
            "socket path too long (".to_owned().concat(b.as_str()).concat(" > ").concat(
                l.as_str(),
            ).concat(" bytes): ").concat(s.socket.as_str()).concat(
                "\nShorten your home directory path or symlink ~/.mati to a shorter location.",
            ),
        )
    }
}

/// Whether the sentinel is there after some effects.
pub open spec fn sentinel_after(before: bool, effects: Seq<EffectView>) -> bool
    decreases effects.len(),
{
    if effects.len() == 0 {
        before
    } else {
        match effects.last() {
            EffectView::WriteSentinel => true,
            EffectView::RemoveSentinel => false,
            _ => sentinel_after(before, effects.drop_last()),
        }
    }
}

/// The sentinel is there exactly from the moment the start is committed until
/// the daemon is ready or the start has failed: every step keeps it so, and a
/// start that fails or is ready leaves none behind.
pub proof fn law_no_start_leaks_its_sentinel(st: Startup, s: Setting, e: Event)
    ensures
        step(st, s, e) matches Some(v) ==> {
            &&& sentinel_after(has_sentinel(st.phase), v.effects) == has_sentinel(v.phase)
            &&& v.phase == Phase::Failed || v.phase == Phase::Ready ==> !sentinel_after(
                has_sentinel(st.phase),
                v.effects,
            )
            &&& v.phase == Phase::Failed <==> v.error is Some
        },
{
    reveal_with_fuel(sentinel_after, 5);
    if let Some(v) = step(st, s, e) {
        if v.effects.len() == 2 {
            assert(v.effects.drop_last().len() == 1);
        }
        if v.effects.len() == 3 {
            let two = v.effects.drop_last();
            assert(two.last() == v.effects[1]);
            assert(two.drop_last().last() == v.effects[0]);
        }
    }
}

/// What a live daemon owns stays untouched by a start that finds it: nothing is
/// removed, recorded or written.
pub proof fn law_live_daemon_is_left_alone(st: Startup, s: Setting, pid: u32, owner: String)
    requires
        st.phase == Phase::Stale,
    ensures
        step(st, s, Event::Stale(StaleCheck::LiveDaemon { pid, owner })) matches Some(v)
            && v.effects.len() == 0 && v.phase == Phase::Failed,
{
}

// ---------------------------------------------------------------------------
// Serving and shutting down
// ---------------------------------------------------------------------------

/// Whether an idle daemon ends.
pub open spec fn ends_idle(now: nat, last: nat, active: nat, limit: nat) -> bool {
    sentinel::seconds_since(now, last) >= limit && active == 0
}

/// Whether an idle daemon ends: nothing was accepted for `limit` seconds and no
/// connection is open.
pub fn idle_shutdown(now: u64, last: u64, active: u64, limit: u64) -> (r: bool)
    ensures
        r == ends_idle(now as nat, last as nat, active as nat, limit as nat),
{
    let idle: u64 = if now < last {
        0
    } else {
        now - last
    };
    idle >= limit && active == 0
}

/// The line on an idle daemon that ends.
pub fn idle_line(limit: u64) -> (r: String)
    ensures
        r@ == "mati daemon: idle "@ + text::dec((limit / 60) as nat) + "min \u{2014} shutting down"@,
{
    "mati daemon: idle ".to_owned().concat(text::decimal(limit / 60).as_str()).concat(
        "min \u{2014} shutting down",
    )
}

/// What the accept loop meets.
#[derive(Debug, Clone, Copy, PartialEq, Eq, Structural)]
pub enum Accept {
    /// A handler that has ended panicked.
    HandlerPanicked,
    ShutdownSignalled,
    /// No further permit can be had.
    PermitsClosed,
    AcceptFailed,
    /// The peer is another user or cannot be identified.
    PeerRejected,
    PeerAccepted,
}

/// What the accept loop does.
#[derive(Debug, Clone, Copy, PartialEq, Eq, Structural)]
pub enum Serve {
    /// Leave the loop and drain the handlers.
    Stop,
    /// Give the permit back and wait for the next connection.
    Next,
    /// Count the connection and serve it.
    Handle,
}

/// What follows from what the accept loop met.
pub open spec fn step_of_accepting(a: Accept) -> Serve {
    match a {
        Accept::HandlerPanicked | Accept::ShutdownSignalled | Accept::PermitsClosed => Serve::Stop,
        Accept::AcceptFailed | Accept::PeerRejected => Serve::Next,
        Accept::PeerAccepted => Serve::Handle,
    }
}

pub fn accept_step(a: Accept) -> (r: Serve)
    ensures
        r == step_of_accepting(a),
{
    match a {
        Accept::HandlerPanicked | Accept::ShutdownSignalled | Accept::PermitsClosed => Serve::Stop,
        Accept::AcceptFailed | Accept::PeerRejected => Serve::Next,
        Accept::PeerAccepted => Serve::Handle,
    }
}

/// Why a daemon ends.
#[derive(Debug, Clone, Copy, PartialEq, Eq, Structural)]
pub enum Shutdown {
    Interrupt,
    Terminate,
    Idle,
    /// The accept loop ended by itself.
    LoopExit,
    Hangup,
}

pub open spec fn shutdown_name(s: Shutdown) -> Seq<char> {
    match s {
        Shutdown::Interrupt => "signal_sigint"@,
        Shutdown::Terminate => "signal_sigterm"@,
        Shutdown::Idle => "idle_timeout"@,
        Shutdown::LoopExit => "serve_loop_exit"@,
        Shutdown::Hangup => "signal_sighup"@,
    }
}

/// The reason that the lifecycle log gives.
pub fn shutdown_reason(s: Shutdown) -> (r: &'static str)
    ensures
        r@ == shutdown_name(s),
{
    match s {
        Shutdown::Interrupt => "signal_sigint",
        Shutdown::Terminate => "signal_sigterm",
        Shutdown::Idle => "idle_timeout",
        Shutdown::LoopExit => "serve_loop_exit",
        Shutdown::Hangup => "signal_sighup",
    }
}

/// Whether a shutdown is announced: one by a signal is, the others have spoken
/// for themselves.
pub fn shutdown_line(s: Shutdown) -> (r: Option<String>)
    ensures
        match s {
            Shutdown::Idle | Shutdown::LoopExit => r is None,
            _ => r is Some && r.unwrap()@ == "mati daemon shutting down"@,
        },
{
    match s {
        Shutdown::Idle | Shutdown::LoopExit => None,
        _ => Some("mati daemon shutting down".to_owned()),
    }
}

// ---------------------------------------------------------------------------
// A whole run
// ---------------------------------------------------------------------------

/// Seconds without a connection after which an idle daemon ends: half an hour.
pub const IDLE_SHUTDOWN_SECS: u64 = 1800;

/// The signals that end a daemon.
#[derive(Debug, Clone, Copy, PartialEq, Eq, Structural)]
pub enum StopSignal {
    Interrupt,
    Terminate,
    Hangup,
}

/// How far a daemon that serves has come.
#[derive(Debug, Clone, Copy, PartialEq, Eq, Structural)]
pub enum ServePhase {
    Serving,
    /// No connection is taken any more; those that are open finish.
    Draining(Shutdown),
    /// Its files are gone.
    Stopped(Shutdown),
}

/// What happens to a daemon that serves.
#[derive(Debug, Clone, Copy, PartialEq, Eq, Structural)]
pub enum ServeEvent {
    /// The idle check, at this second.
    Tick(u64),
    /// A connection was accepted and is served.
    Opened(u64),
    /// A connection was accepted and dropped: its peer is someone else.
    Dropped(u64),
    /// A connection that was served has ended.
    Closed,
    Signalled(StopSignal),
    /// The accept loop ended by itself.
    LoopExited,
    /// The accept loop is left and no connection is waited for any more.
    Drained,
}

/// A daemon that serves.
#[derive(Debug, Clone, Copy, PartialEq, Eq, Structural)]
pub struct Serving {
    pub phase: ServePhase,
    /// When a connection was last accepted.
    pub last: u64,
    /// How many connections are open.
    pub active: u64,
}

/// Whether nothing was accepted for so long that a daemon without open
/// connections ends.
pub open spec fn idle_for(now: u64, last: u64) -> bool {
    sentinel::seconds_since(now as nat, last as nat) >= IDLE_SHUTDOWN_SECS
}

pub open spec fn signal_shutdown(s: StopSignal) -> Shutdown {
    match s {
        StopSignal::Interrupt => Shutdown::Interrupt,
        StopSignal::Terminate => Shutdown::Terminate,
        StopSignal::Hangup => Shutdown::Hangup,
    }
}

/// Why an event ends a daemon with this state; nothing where it does not.
pub open spec fn end_of(last: u64, active: nat, e: ServeEvent) -> Option<Shutdown> {
    match e {
        ServeEvent::Tick(now) => if idle_for(now, last) && active == 0 {
            Some(Shutdown::Idle)
        } else {
            None
        },
        ServeEvent::Signalled(s) => Some(signal_shutdown(s)),
        ServeEvent::LoopExited => Some(Shutdown::LoopExit),
        _ => None,
    }
}

/// The daemon after one event. The first reason to end is the one that counts.
pub open spec fn served(s: Serving, e: ServeEvent) -> Serving {
    Serving {
        phase: match s.phase {
            ServePhase::Serving => match end_of(s.last, s.active as nat, e) {
                Some(r) => ServePhase::Draining(r),
                None => ServePhase::Serving,
            },
            ServePhase::Draining(r) => if e == ServeEvent::Drained {
                ServePhase::Stopped(r)
            } else {
                s.phase
            },
            ServePhase::Stopped(_) => s.phase,
        },
        last: match e {
            ServeEvent::Opened(now) | ServeEvent::Dropped(now) => now,
            _ => s.last,
        },
        active: match e {
            ServeEvent::Opened(_) => if s.active < u64::MAX {
                (s.active + 1) as u64
            } else {
                s.active
            },
            ServeEvent::Closed => if s.active > 0 {
                (s.active - 1) as u64
            } else {
                s.active
            },
            _ => s.active,
        },
    }
}

/// The line with which a daemon begins to end.
pub open spec fn farewell(r: Shutdown) -> Seq<EffectView> {
    match r {
        Shutdown::Idle => seq![
            EffectView::Announce(
                "mati daemon: idle "@ + text::dec((IDLE_SHUTDOWN_SECS / 60) as nat)
                    + "min \u{2014} shutting down"@,
            ),
        ],
        Shutdown::LoopExit => Seq::empty(),
        _ => seq![EffectView::Announce("mati daemon shutting down"@)],
    }
}

/// What a daemon that has ended does: its files go, then the log says why.
pub open spec fn cleanup(r: Shutdown) -> Seq<EffectView> {
    seq![
        EffectView::RemoveSentinel,
        EffectView::RemoveSocket,
        EffectView::RemovePidFile,
        record("serve_shutdown"@, shutdown_name(r)),
    ]
}

/// What one event makes the daemon do.
pub open spec fn serve_effects(s: Serving, e: ServeEvent) -> Seq<EffectView> {
    match s.phase {
        ServePhase::Serving => match end_of(s.last, s.active as nat, e) {
            Some(r) => farewell(r),
            None => Seq::empty(),
        },
        ServePhase::Draining(r) => if e == ServeEvent::Drained {
            cleanup(r)
        } else {
            Seq::empty()
        },
        ServePhase::Stopped(_) => Seq::empty(),
    }
}

impl Serving {
    /// A daemon that begins to serve.
    pub fn begin(now: u64) -> (r: Serving)
        ensures
            r == began(now),
    {
        Serving { phase: ServePhase::Serving, last: now, active: 0 }
    }

    /// Takes an event in; `out` is what has to be done.
    pub fn on_event(&mut self, e: ServeEvent, out: &mut Vec<Effect>)
        requires
            old(out)@.len() == 0,
        ensures
            *final(self) == served(*old(self), e),
            effects(final(out)@) == serve_effects(*old(self), e),
    {
        assert(effects(out@) =~= Seq::<EffectView>::empty());
        match self.phase {
            ServePhase::Serving => {
                let end = self.ending(e);
                if let Some(r) = end {
                    self.phase = ServePhase::Draining(r);
                    let line = match r {
                        Shutdown::Idle => Some(idle_line(IDLE_SHUTDOWN_SECS)),
                        _ => shutdown_line(r),
                    };
                    if let Some(l) = line {
                        push_effect(out, Effect::Announce(l));
                    }
                    assert(effects(out@) =~= farewell(r));
                }
            },
            ServePhase::Draining(r) => {
                if let ServeEvent::Drained = e {
                    self.phase = ServePhase::Stopped(r);
                    push_effect(out, Effect::RemoveSentinel);
                    push_effect(out, Effect::RemoveSocket);
                    push_effect(out, Effect::RemovePidFile);
                    push_record(out, "serve_shutdown", shutdown_reason(r).to_owned());
                    assert(effects(out@) =~= cleanup(r));
                }
            },
            ServePhase::Stopped(_) => {},
        }
        match e {
            ServeEvent::Opened(now) => {
                self.last = now;
                if self.active < u64::MAX {
                    self.active = self.active + 1;
                }
            },
            ServeEvent::Dropped(now) => {
                self.last = now;
            },
            ServeEvent::Closed => {
                if self.active > 0 {
                    self.active = self.active - 1;
                }
            },
            _ => {},
        }
    }

    fn ending(&self, e: ServeEvent) -> (r: Option<Shutdown>)
        ensures
            r == end_of(self.last, self.active as nat, e),
    {
        match e {
            ServeEvent::Tick(now) => if idle_shutdown(
                now,
                self.last,
                self.active,
                IDLE_SHUTDOWN_SECS,
            ) {
                Some(Shutdown::Idle)
            } else {
                None
            },
            ServeEvent::Signalled(StopSignal::Interrupt) => Some(Shutdown::Interrupt),
            ServeEvent::Signalled(StopSignal::Terminate) => Some(Shutdown::Terminate),
            ServeEvent::Signalled(StopSignal::Hangup) => Some(Shutdown::Hangup),
            ServeEvent::LoopExited => Some(Shutdown::LoopExit),
            _ => None,
        }
    }

    /// Whether the daemon takes connections.
    pub fn is_serving(&self) -> (r: bool)
        ensures
            r == (self.phase == ServePhase::Serving),
    {
        match self.phase {
            ServePhase::Serving => true,
            _ => false,
        }
    }
}

pub open spec fn began(now: u64) -> Serving {
    Serving { phase: ServePhase::Serving, last: now, active: 0 }
}

/// The daemon after the first `n` events of a run.
pub open spec fn run_state(begun: u64, events: Seq<ServeEvent>, n: int) -> Serving
    decreases n,
{
    if n <= 0 {
        began(begun)
    } else {
        served(run_state(begun, events, n - 1), events[n - 1])
    }
}

/// What the daemon has done in the first `n` events of a run.
pub open spec fn run_effects(begun: u64, events: Seq<ServeEvent>, n: int) -> Seq<EffectView>
    decreases n,
{
    if n <= 0 {
        Seq::empty()
    } else {
        run_effects(begun, events, n - 1) + serve_effects(
            run_state(begun, events, n - 1),
            events[n - 1],
        )
    }
}

/// When a connection was last accepted among the first `n` events; the begin of
/// the run where none was.
pub open spec fn last_accept(begun: u64, events: Seq<ServeEvent>, n: int) -> u64
    decreases n,
{
    if n <= 0 {
        begun
    } else {
        match events[n - 1] {
            ServeEvent::Opened(now) | ServeEvent::Dropped(now) => now,
            _ => last_accept(begun, events, n - 1),
        }
    }
}

/// How many more connections were opened than closed in the first `n` events.
pub open spec fn open_count(events: Seq<ServeEvent>, n: int) -> int
    decreases n,
{
    if n <= 0 {
        0
    } else {
        open_count(events, n - 1) + (match events[n - 1] {
            ServeEvent::Opened(_) => 1int,
            ServeEvent::Closed => -1,
            _ => 0,
        })
    }
}

/// No connection closes that was not opened, and their number can be counted.
pub open spec fn plausible(events: Seq<ServeEvent>) -> bool {
    &&& events.len() <= u64::MAX
    &&& forall|n: int| 0 <= n <= events.len() ==> 0 <= #[trigger] open_count(events, n)
}

/// Why the event at `k` ends the run, judged by what happened before it alone.
pub open spec fn reason_at(begun: u64, events: Seq<ServeEvent>, k: int) -> Option<Shutdown> {
    end_of(last_accept(begun, events, k), open_count(events, k) as nat, events[k])
}

/// The state of a run is what its events add up to.
proof fn lemma_run_adds_up(begun: u64, events: Seq<ServeEvent>, n: int)
    requires
        plausible(events),
        0 <= n <= events.len(),
    ensures
        run_state(begun, events, n).last == last_accept(begun, events, n),
        run_state(begun, events, n).active == open_count(events, n),
        open_count(events, n) <= n,
    decreases n,
{
    if n > 0 {
        lemma_run_adds_up(begun, events, n - 1);
        assert(open_count(events, n) >= 0);
        assert(open_count(events, n - 1) >= 0);
    }
}

/// A daemon ends at the first event that gives it a reason and for that reason,
/// and not before. The idle check gives one exactly where nothing was accepted
/// for half an hour and no connection is open.
pub proof fn law_daemon_ends_for_the_first_reason(
    begun: u64,
    events: Seq<ServeEvent>,
    k: int,
    n: int,
)
    requires
        plausible(events),
        0 <= k < n <= events.len(),
        forall|j: int| 0 <= j < k ==> (#[trigger] reason_at(begun, events, j)) is None,
    ensures
        run_state(begun, events, k).phase == ServePhase::Serving,
        match reason_at(begun, events, k) {
            Some(r) => run_state(begun, events, n).phase == ServePhase::Draining(r) || run_state(
                begun,
                events,
                n,
            ).phase == ServePhase::Stopped(r),
            None => run_state(begun, events, k + 1).phase == ServePhase::Serving,
        },
        reason_at(begun, events, k) == Some(Shutdown::Idle) <==> (events[k] matches ServeEvent::Tick(
            now,
        ) && idle_for(now, last_accept(begun, events, k)) && open_count(events, k) == 0),
{
    lemma_serves_without_reason(begun, events, k);
    lemma_run_adds_up(begun, events, k);
    if let Some(r) = reason_at(begun, events, k) {
        lemma_end_stays(begun, events, k + 1, n, r);
    }
}

proof fn lemma_serves_without_reason(begun: u64, events: Seq<ServeEvent>, k: int)
    requires
        plausible(events),
        0 <= k <= events.len(),
        forall|j: int| 0 <= j < k ==> (#[trigger] reason_at(begun, events, j)) is None,
    ensures
        run_state(begun, events, k).phase == ServePhase::Serving,
    decreases k,
{
    if k > 0 {
        lemma_serves_without_reason(begun, events, k - 1);
        lemma_run_adds_up(begun, events, k - 1);
        assert(reason_at(begun, events, k - 1) is None);
    }
}

proof fn lemma_end_stays(begun: u64, events: Seq<ServeEvent>, m: int, n: int, r: Shutdown)
    requires
        0 <= m <= n,
        run_state(begun, events, m).phase == ServePhase::Draining(r) || run_state(
            begun,
            events,
            m,
        ).phase == ServePhase::Stopped(r),
    ensures
        run_state(begun, events, n).phase == ServePhase::Draining(r) || run_state(
            begun,
            events,
            n,
        ).phase == ServePhase::Stopped(r),
    decreases n,
{
    if m < n {
        lemma_end_stays(begun, events, m, n - 1, r);
    }
}

/// A daemon that has ended for idleness met a check at which nothing had been
/// accepted for half an hour and no connection was open, and it served until
/// then.
pub proof fn law_idle_end_is_earned(begun: u64, events: Seq<ServeEvent>)
    requires
        plausible(events),
        ({
            let p = run_state(begun, events, events.len() as int).phase;
            p == ServePhase::Draining(Shutdown::Idle) || p == ServePhase::Stopped(Shutdown::Idle)
        }),
    ensures
        exists|k: int|
            {
                &&& 0 <= k < events.len()
                &&& #[trigger] events[k] matches ServeEvent::Tick(now)
                &&& idle_for(now, last_accept(begun, events, k))
                &&& open_count(events, k) == 0
                &&& run_state(begun, events, k).phase == ServePhase::Serving
            },
{
    let k = first_reason(begun, events, events.len() as int);
    lemma_first_reason(begun, events, events.len() as int);
    if k == events.len() {
        lemma_serves_without_reason(begun, events, k);
    } else {
        law_daemon_ends_for_the_first_reason(begun, events, k, events.len() as int);
        assert(reason_at(begun, events, k) == Some(Shutdown::Idle));
        assert(events[k] is Tick);
    }
}

/// The first of `n` events that gives a reason to end; `n` where none does.
spec fn first_reason(begun: u64, events: Seq<ServeEvent>, n: int) -> int
    decreases n,
{
    if n <= 0 {
        0
    } else {
        let before = first_reason(begun, events, n - 1);
        if before == n - 1 && reason_at(begun, events, n - 1) is None {
            n
        } else {
            before
        }
    }
}

proof fn lemma_first_reason(begun: u64, events: Seq<ServeEvent>, n: int)
    requires
        0 <= n,
    ensures
        0 <= first_reason(begun, events, n) <= n,
        forall|j: int|
            0 <= j < first_reason(begun, events, n) ==> (#[trigger] reason_at(
                begun,
                events,
                j,
            )) is None,
        first_reason(begun, events, n) < n ==> reason_at(
            begun,
            events,
            first_reason(begun, events, n),
        ) is Some,
    decreases n,
{
    if n > 0 {
        lemma_first_reason(begun, events, n - 1);
    }
}

/// As long as a connection is open at every check, only a signal or the end of
/// the accept loop ends a daemon, however long ago the connection was accepted.
pub proof fn law_open_connection_keeps_daemon_up(begun: u64, events: Seq<ServeEvent>)
    requires
        plausible(events),
        forall|k: int|
            0 <= k < events.len() ==> match #[trigger] events[k] {
                ServeEvent::Tick(_) => open_count(events, k) > 0,
                ServeEvent::Signalled(_) | ServeEvent::LoopExited => false,
                _ => true,
            },
    ensures
        run_state(begun, events, events.len() as int).phase == ServePhase::Serving,
{
    assert forall|j: int| 0 <= j < events.len() implies (#[trigger] reason_at(
        begun,
        events,
        j,
    )) is None by {
        let e = events[j];
    }
    lemma_serves_without_reason(begun, events, events.len() as int);
}

/// The files of a daemon.
pub enum DaemonFile {
    Socket,
    PidFile,
    Sentinel,
}

/// Whether a file is there after some effects.
pub open spec fn there_after(file: DaemonFile, before: bool, effects: Seq<EffectView>) -> bool
    decreases effects.len(),
{
    if effects.len() == 0 {
        before
    } else {
        match (file, effects.last()) {
            (DaemonFile::Socket, EffectView::RemoveSocket) => false,
            (DaemonFile::PidFile, EffectView::WritePidFile(_)) => true,
            (DaemonFile::PidFile, EffectView::RemovePidFile) => false,
            (DaemonFile::Sentinel, EffectView::WriteSentinel) => true,
            (DaemonFile::Sentinel, EffectView::RemoveSentinel) => false,
            _ => there_after(file, before, effects.drop_last()),
        }
    }
}

/// A daemon keeps its files until every connection is drained; when it has
/// stopped, for whatever reason, its socket, its PID file and its sentinel are
/// gone.
pub proof fn law_stopped_daemon_leaves_no_file(
    begun: u64,
    events: Seq<ServeEvent>,
    n: int,
    file: DaemonFile,
    before: bool,
)
    requires
        0 <= n <= events.len(),
    ensures
        there_after(file, before, run_effects(begun, events, n)) == (before && !(run_state(
            begun,
            events,
            n,
        ).phase is Stopped)),
    decreases n,
{
    if n > 0 {
        law_stopped_daemon_leaves_no_file(begun, events, n - 1, file, before);
        let s = run_state(begun, events, n - 1);
        let done = run_effects(begun, events, n - 1);
        let step = serve_effects(s, events[n - 1]);
        lemma_there_after(file, before, done, step);
        reveal_with_fuel(there_after, 6);
        if step.len() == 1 {
            assert(step.drop_last().len() == 0);
        }
        if step.len() == 4 {
            let three = step.drop_last();
            let two = three.drop_last();
            let one = two.drop_last();
            assert(three.last() == step[2] && two.last() == step[1] && one.last() == step[0]);
            assert(one.drop_last().len() == 0);
        }
    }
}

proof fn lemma_there_after(
    file: DaemonFile,
    before: bool,
    a: Seq<EffectView>,
    b: Seq<EffectView>,
)
    ensures
        there_after(file, before, a + b) == there_after(file, there_after(file, before, a), b),
    decreases b.len(),
{
    if b.len() == 0 {
        assert(a + b =~= a);
    } else {
        assert((a + b).drop_last() =~= a + b.drop_last());
        assert((a + b).last() == b.last());
        lemma_there_after(file, before, a, b.drop_last());
    }
}

// ---------------------------------------------------------------------------
// What a start and an end are for
// ---------------------------------------------------------------------------

/// How far a start has come.
pub open spec fn place(p: Phase) -> int {
    match p {
        Phase::Stale => 0,
        Phase::Peer => 1,
        Phase::Directory => 2,
        Phase::Store => 3,
        Phase::Graph => 4,
        Phase::Repair => 5,
        Phase::SocketPath => 6,
        Phase::Bind => 7,
        Phase::Publish => 8,
        Phase::PidFile => 9,
        Phase::Ready => 10,
        Phase::Failed => 11,
    }
}

/// Whether what happened stands in the way of a start.
pub open spec fn is_obstacle(e: Event) -> bool {
    match e {
        Event::Stale(c) => c is LiveDaemon,
        Event::Peer(active) => active,
        Event::Directory(r) => r is Err,
        Event::Store(r) => r is Err,
        Event::Graph(r) => r is Err,
        Event::Repair(_) => false,
        Event::SocketPath { bytes, limit } => bytes > limit,
        Event::Bind(r) => r is Err,
        Event::Publish(_) => false,
        Event::PidFile(r) => r is Err,
    }
}

/// A start goes on exactly where nothing stands in its way, one phase at a time; only
/// a daemon that is published, or has its pid file, is ready. An event of another
/// phase changes nothing.
pub proof fn law_start_goes_on_without_obstacles(st: Startup, s: Setting, e: Event)
    ensures
        step(st, s, e) is Some <==> (match e {
            Event::Stale(_) => st.phase == Phase::Stale,
            Event::Peer(_) => st.phase == Phase::Peer,
            Event::Directory(_) => st.phase == Phase::Directory,
            Event::Store(_) => st.phase == Phase::Store,
            Event::Graph(_) => st.phase == Phase::Graph,
            Event::Repair(_) => st.phase == Phase::Repair,
            Event::SocketPath { .. } => st.phase == Phase::SocketPath,
            Event::Bind(_) => st.phase == Phase::Bind,
            Event::Publish(_) => st.phase == Phase::Publish,
            Event::PidFile(_) => st.phase == Phase::PidFile,
        }),
        step(st, s, e) matches Some(v) ==> {
            &&& v.phase == Phase::Failed <==> is_obstacle(e)
            &&& !is_obstacle(e) && !(e is Publish) ==> place(v.phase) == place(st.phase) + 1
            &&& e matches Event::Publish(Ok(_)) ==> v.phase == Phase::Ready
            &&& e matches Event::Publish(Err(m)) ==> v.phase == Phase::PidFile && v.unpublished
                == m@
            &&& v.phase == Phase::Ready <==> e matches Event::Publish(Ok(_)) || e
                matches Event::PidFile(Ok(_))
        },
{
}

/// What stood in the way is told.
pub proof fn law_obstacle_is_told(st: Startup, s: Setting, m: String, pid: u32, owner: String)
    ensures
        step(st, s, Event::Directory(Err(m))) matches Some(v) ==> v.error == Some(m@),
        step(st, s, Event::Store(Err(m))) matches Some(v) ==> v.error == Some(m@),
        step(st, s, Event::Graph(Err(m))) matches Some(v) ==> v.error == Some(m@),
        step(st, s, Event::Bind(Err(m))) matches Some(v) ==> v.error == Some(m@),
        step(st, s, Event::PidFile(Err(m))) matches Some(v) ==> v.error == Some(m@),
        step(st, s, Event::Stale(StaleCheck::LiveDaemon { pid, owner })) matches Some(v)
            ==> v.error is Some && text::text_contains(v.error->0, owner@) && text::text_contains(
            v.error->0,
            text::dec(pid as nat),
        ),
{
    let a = "another mati "@;
    let b = a + owner@;
    let c = b + " (pid "@;
    let d = text::dec(pid as nat);
    let z = ") is already running.\nStop it with: mati daemon stop"@;
    text::lemma_padded_contains(owner@, 0);
    text::lemma_padded_contains(d, 0);
    text::lemma_contains_either(a, owner@, owner@);
    text::lemma_contains_either(b, " (pid "@, owner@);
    text::lemma_contains_either(c, d, owner@);
    text::lemma_contains_either(c, d, d);
    text::lemma_contains_either(c + d, z, owner@);
    text::lemma_contains_either(c + d, z, d);
}

/// The socket is taken away before a start only where nobody owns it.
pub proof fn law_only_an_orphan_socket_is_removed(st: Startup, s: Setting, e: Event)
    ensures
        step(st, s, e) matches Some(v) ==> (v.effects.contains(EffectView::RemoveSocket) <==> e
            == Event::Stale(StaleCheck::OrphanSocket)),
{
    if let Some(v) = step(st, s, e) {
        if e == Event::Stale(StaleCheck::OrphanSocket) {
            assert(v.effects[0] == EffectView::RemoveSocket);
        }
    }
}

/// A daemon shuts itself down after half an hour without a connection.
pub proof fn law_idle_means_half_an_hour(now: u64, last: u64)
    ensures
        idle_for(now, last) <==> now >= last + 1800,
{
}

/// A signal ends the daemon for its own reason, at once, whatever is still open.
pub proof fn law_signals_end_the_daemon(s: Serving, e: ServeEvent)
    requires
        s.phase == ServePhase::Serving,
    ensures
        served(s, ServeEvent::Signalled(StopSignal::Interrupt)).phase == ServePhase::Draining(
            Shutdown::Interrupt,
        ),
        served(s, ServeEvent::Signalled(StopSignal::Terminate)).phase == ServePhase::Draining(
            Shutdown::Terminate,
        ),
        served(s, ServeEvent::Signalled(StopSignal::Hangup)).phase == ServePhase::Draining(
            Shutdown::Hangup,
        ),
        e is Signalled ==> serve_effects(s, e) == seq![
            EffectView::Announce("mati daemon shutting down"@),
        ],
        shutdown_name(Shutdown::Interrupt) == "signal_"@ + "sigint"@,
        shutdown_name(Shutdown::Terminate) == "signal_"@ + "sigterm"@,
        shutdown_name(Shutdown::Hangup) == "signal_"@ + "sighup"@,
{
    reveal_strlit("signal_");
    reveal_strlit("sigint");
    reveal_strlit("sigterm");
    reveal_strlit("sighup");
    reveal_strlit("signal_sigint");
    reveal_strlit("signal_sigterm");
    reveal_strlit("signal_sighup");
    assert("signal_"@ + "sigint"@ =~= "signal_sigint"@);
    assert("signal_"@ + "sigterm"@ =~= "signal_sigterm"@);
    assert("signal_"@ + "sighup"@ =~= "signal_sighup"@);
}

/// A connection counts from its opening to its end, and each one that is accepted
/// starts the idle time anew.
pub proof fn law_connections_are_counted(s: Serving, now: u64)
    requires
        s.active < u64::MAX,
    ensures
        served(s, ServeEvent::Opened(now)).active == s.active + 1,
        served(s, ServeEvent::Opened(now)).last == now,
        served(served(s, ServeEvent::Opened(now)), ServeEvent::Closed).active == s.active,
        served(s, ServeEvent::Dropped(now)).active == s.active,
        served(s, ServeEvent::Dropped(now)).last == now,
        served(s, ServeEvent::Tick(now)).last == s.last,
{
}

/// A connection is handled exactly where its peer was accepted. A failed attempt does
/// not end the loop; a panic, a signal and closed permits do.
pub proof fn law_failed_attempts_do_not_end_the_loop(a: Accept)
    ensures
        step_of_accepting(a) is Handle <==> a is PeerAccepted,
        step_of_accepting(a) is Next <==> a is AcceptFailed || a is PeerRejected,
{
}

/// An idle daemon ends exactly where nothing was accepted for the limit and nothing is
/// open.
pub proof fn law_only_idle_daemons_end(now: nat, last: nat, active: nat, limit: nat)
    requires
        limit > 0,
    ensures
        ends_idle(now, last, active, limit) <==> active == 0 && now >= last + limit,
{
}

/// Each end of a daemon is logged under its own name, after its files are gone.
pub proof fn law_ends_are_logged_by_name(r: Shutdown)
    ensures
        shutdown_name(r) == "idle_timeout"@ <==> r is Idle,
        shutdown_name(r) == "serve_loop_exit"@ <==> r is LoopExit,
        shutdown_name(r) == "signal_sigint"@ <==> r is Interrupt,
        shutdown_name(r) == "signal_sigterm"@ <==> r is Terminate,
        shutdown_name(r) == "signal_sighup"@ <==> r is Hangup,
        cleanup(r).last() == record("serve_shutdown"@, shutdown_name(r)),
        cleanup(r).contains(EffectView::RemoveSocket),
        cleanup(r).contains(EffectView::RemovePidFile),
        cleanup(r).contains(EffectView::RemoveSentinel),
        farewell(r).len() == 0 <==> r is LoopExit,
{
    reveal_strlit("idle_timeout");
    reveal_strlit("serve_loop_exit");
    reveal_strlit("signal_sigint");
    reveal_strlit("signal_sigterm");
    reveal_strlit("signal_sighup");
    assert("idle_timeout"@.len() == 12 && "serve_loop_exit"@.len() == 15
        && "signal_sigterm"@.len() == 14);
    assert("signal_sigint"@[10] == 'i' && "signal_sighup"@[10] == 'h');
    let c = cleanup(r);
    assert(c[0] == EffectView::RemoveSentinel && c[1] == EffectView::RemoveSocket && c[2]
        == EffectView::RemovePidFile);
}

/// A daemon that is ready has no sentinel left, has logged it, and says where it listens
/// and after how many minutes it ends by itself.
pub proof fn law_ready_daemon_says_where_it_listens(s: Setting, ms: nat, m: nat)
    requires
        s.idle_secs == m * 60,
    ensures
        becomes_ready(s, ms).effects.len() == 3,
        becomes_ready(s, ms).effects[0] == EffectView::RemoveSentinel,
        becomes_ready(s, ms).effects[1] == record(
            "startup"@,
            "phase=ready elapsed_ms="@ + text::dec(ms),
        ),
        becomes_ready(s, ms).effects[2] == EffectView::Announce(
            "mati daemon listening on "@ + s.socket@ + " (idle shutdown: "@ + text::dec(m)
                + "min)"@,
        ),
        becomes_ready(s, ms).error is None,
{
    assert(s.idle_secs / 60 == m);
}

/// A start that fails is logged as failed, and one whose path is too long says by how
/// much.
pub proof fn law_failed_start_is_logged(detail: Seq<char>, error: Seq<char>, s: Setting, a: nat, b: nat)
    ensures
        fails(detail, error).effects[0] == record("serve_failed"@, detail),
        fails(detail, error).effects[1] == EffectView::RemoveSentinel,
        fails(detail, error).phase == Phase::Failed && fails(detail, error).error == Some(error),
        path_too_long(s, a, b).error matches Some(e) && text::text_contains(e, s.socket@)
            && text::text_contains(e, text::dec(a) + " > "@ + text::dec(b)),
{
    let e = path_too_long(s, a, b).error->0;
    let h = "socket path too long ("@;
    let m = text::dec(a) + " > "@ + text::dec(b);
    let t = " bytes): "@;
    let z = "\nShorten your home directory path or symlink ~/.mati to a shorter location."@;
    assert(h + m + (t + s.socket@ + z) =~= e);
    text::lemma_part_occurs(h, m, t + s.socket@ + z);
    assert((h + m + t) + s.socket@ + z =~= e);
    text::lemma_part_occurs(h + m + t, s.socket@, z);
}

} // verus!
