//! The daemon: sentinels, PID files, requests, classification, stop and start.
use mati::daemon::{
    classify_daemon, daemon_get, first_pid, kill_step, no_wait_report, outcome, owner_of, ping_outcome,
    plan_stop, poll_files, recycled, removes_socket, request, response_timeout, signal_delivered,
    status_lines, stop_report, stop_start_event, Attempt, DaemonResult, DaemonState,
    DaemonStopArgs, ExitOutcome, FilePoll, Finding, Findings, KillStep, Owner, Ping, Probe, StaleCheck,
    StopPlan,
};
use mati::host::Assistant;
use mati::json::Json;
use mati::sentinel::{
    check_starting_peer_active, format_sentinel, legacy_pid_file, live_starting_pid,
    mati_root_for, parse_sentinel, read_pid_file, PidInfo, STARTING_STALE_SECS,
};
use mati::startup::{
    accept_step, idle_line, idle_shutdown, shutdown_line, shutdown_reason, Accept, Effect, Event,
    Phase, Repair, Serve, ServeEvent, ServePhase, Serving, Setting, Shutdown, Startup, StopSignal,
    IDLE_SHUTDOWN_SECS,
};

fn value(v: serde_json::Value) -> Json {
    match v {
        serde_json::Value::Null => Json::Null,
        serde_json::Value::Bool(b) => Json::Bool(b),
        serde_json::Value::Number(n) => Json::Number(n.to_string()),
        serde_json::Value::String(s) => Json::Str(s),
        serde_json::Value::Array(a) => Json::Array(a.into_iter().map(value).collect()),
        serde_json::Value::Object(o) => {
            Json::Object(o.into_iter().map(|(k, v)| (k, value(v))).collect())
        }
    }
}

fn json(s: &str) -> Json {
    value(serde_json::from_str(s).unwrap())
}

const NOW: u64 = 1_700_000_000;

#[test]
fn parse_sentinel_roundtrip() {
    let s = format_sentinel(1234567890, 42);
    let (ts, pid) = parse_sentinel(&s).unwrap();
    assert_eq!(ts, 1234567890);
    assert_eq!(pid, 42);
}

#[test]
fn parse_sentinel_legacy_format_returns_none() {
    // Legacy format has only a timestamp, no PID
    assert!(parse_sentinel("1234567890").is_none());
}

#[test]
fn check_starting_peer_active_absent_sentinel_returns_false() {
    let c = check_starting_peer_active(None, NOW, 7, false);
    assert!(!c.active);
    assert!(!c.remove);
}

#[test]
fn check_starting_peer_active_dead_pid_returns_false_and_cleans_up() {
    let content = format_sentinel(NOW, 4_000_000);
    let c = check_starting_peer_active(Some(&content), NOW, 7, false);
    assert!(!c.active);
    assert!(c.remove, "stale sentinel must be cleaned up");
}

#[test]
fn check_starting_peer_active_alive_pid_returns_true() {
    let content = format_sentinel(NOW, 1);
    let c = check_starting_peer_active(Some(&content), NOW, 7, true);
    assert!(c.active, "alive peer PID must be classified as active starting peer");
    assert!(!c.remove, "active sentinel must NOT be removed");
}

#[test]
fn check_starting_peer_active_self_pid_returns_false() {
    let content = format_sentinel(NOW, 7);
    let c = check_starting_peer_active(Some(&content), NOW, 7, true);
    assert!(!c.active, "sentinel for our own PID must not block our own restart");
    assert!(c.remove, "self-pid sentinel must be removed");
}

#[test]
fn check_starting_peer_active_legacy_recent_timestamp_returns_true() {
    let content = format!("{NOW}\n");
    assert!(check_starting_peer_active(Some(&content), NOW, 7, false).active);
}

#[test]
fn check_starting_peer_active_legacy_old_timestamp_returns_false() {
    let stale_ts = NOW.saturating_sub(STARTING_STALE_SECS + 60);
    let content = format!("{stale_ts}\n");
    let c = check_starting_peer_active(Some(&content), NOW, 7, false);
    assert!(!c.active);
    assert!(c.remove, "stale legacy sentinel must be removed");
}

#[test]
fn check_starting_peer_active_garbage_content_returns_false() {
    let c = check_starting_peer_active(Some("not a real sentinel ~~"), NOW, 7, false);
    assert!(!c.active);
    assert!(c.remove);
}

#[test]
fn a_starting_pid_counts_while_it_lives() {
    let content = format_sentinel(NOW, 42);
    assert_eq!(live_starting_pid(Some(&content), true), Some(42));
    assert_eq!(live_starting_pid(Some(&content), false), None);
    assert_eq!(live_starting_pid(Some("garbage"), true), None);
    assert_eq!(live_starting_pid(None, true), None);
}

#[test]
fn pid_files_are_read_in_both_forms() {
    let text = r#"{"pid":77,"owner":"mcp"}"#;
    let j = json(text);
    assert_eq!(
        read_pid_file(text, Some(&j)),
        Some(PidInfo { pid: 77, owner: "mcp".to_string() })
    );
    let plain = legacy_pid_file(1234);
    let n = json(plain.trim());
    assert_eq!(
        read_pid_file(&plain, Some(&n)),
        Some(PidInfo { pid: 1234, owner: "daemon".to_string() })
    );
    assert_eq!(read_pid_file("nonsense", None), None);
}

#[test]
fn the_store_lies_below_the_home_directory() {
    assert_eq!(mati_root_for(Some("/home/u"), "abc").unwrap(), "/home/u/.mati/abc");
    assert!(mati_root_for(None, "abc").is_err());
}

#[test]
fn daemon_result_not_running_without_socket() {
    assert!(matches!(outcome(Attempt::NoSocket), DaemonResult::NotRunning));
}

#[test]
fn daemon_get_returns_none_without_socket() {
    assert!(daemon_get(&outcome(Attempt::NoSocket)).is_none());
}

#[test]
fn attempts_have_their_outcomes() {
    assert!(matches!(outcome(Attempt::PathTooLong), DaemonResult::NotRunning));
    assert!(matches!(outcome(Attempt::NotConnected), DaemonResult::NotRunning));
    assert!(matches!(outcome(Attempt::Refused(StaleCheck::StaleRemoved)), DaemonResult::StaleSocket));
    assert!(matches!(
        outcome(Attempt::Refused(StaleCheck::LiveDaemon { pid: 3, owner: "mcp".to_string() })),
        DaemonResult::Unresponsive
    ));
    assert!(matches!(outcome(Attempt::NoLine), DaemonResult::Unresponsive));
    assert!(removes_socket(&StaleCheck::OrphanSocket));
    assert!(!removes_socket(&StaleCheck::LiveDaemon { pid: 3, owner: "mcp".to_string() }));
}

#[test]
fn the_data_of_a_response_are_handed_on() {
    let ok = outcome(Attempt::Response(json(r#"{"status":"ok","data":{"x":1}}"#)));
    assert_eq!(daemon_get(&ok), Some(&json(r#"{"x":1}"#)));
    assert_eq!(ping_outcome(&ok), Ping::Answered);
    let err = outcome(Attempt::Response(json(
        r#"{"status":"err","error":{"message":"no","code":"bad"}}"#,
    )));
    assert_eq!(daemon_get(&err), None);
}

#[test]
fn a_request_carries_its_session() {
    let r = request(2, "id-1", Some("s-1".to_string()), json(r#"{"type":"ping"}"#));
    assert_eq!(r.text_of("session").as_deref(), Some("s-1"));
    assert_eq!(r.text_of("id").as_deref(), Some("id-1"));
    assert_eq!(r.get("cmd"), Some(&json(r#"{"type":"ping"}"#)));
    let r = request(2, "id-1", None, json("{}"));
    assert_eq!(
        r.text_of("session").as_deref(),
        Some("00000000-0000-0000-0000-000000000000")
    );
    assert!(response_timeout("ping") > 0);
}

fn findings() -> Findings {
    Findings {
        force: false,
        has_pid: false,
        has_sock: false,
        has_starting: false,
        starting: None,
        pid_file: None,
        ping: None,
        metadata: None,
        socket_owner: None,
    }
}

#[test]
fn no_files_mean_no_daemon() {
    let mut f = findings();
    loop {
        match classify_daemon(&f) {
            Finding::State(s) => {
                assert_eq!(s, DaemonState::Empty);
                break;
            }
            Finding::Look(Probe::StartingPid) => f.starting = Some(None),
            Finding::Look(Probe::PidFile) => f.pid_file = Some(None),
            Finding::Look(Probe::Ping) => f.ping = Some(Ping::NotRunning),
            Finding::Look(Probe::MetadataPid) => f.metadata = Some(None),
            Finding::Look(Probe::SocketOwner) => f.socket_owner = Some(None),
        }
    }
}

#[test]
fn a_live_owner_is_told_apart() {
    let mut f = findings();
    f.has_pid = true;
    f.has_sock = true;
    f.starting = Some(None);
    f.pid_file = Some(Some(Owner { pid: 9, is_mcp: true, alive: true }));
    f.ping = Some(Ping::Answered);
    assert_eq!(classify_daemon(&f), Finding::State(DaemonState::LiveOwnerMcp { pid: 9 }));
    f.pid_file = Some(Some(Owner { pid: 9, is_mcp: false, alive: true }));
    assert_eq!(classify_daemon(&f), Finding::State(DaemonState::LiveOwnerDaemon { pid: 9 }));
    let o = owner_of(&PidInfo { pid: 9, owner: "mcp".to_string() }, true);
    assert_eq!(o, Owner { pid: 9, is_mcp: true, alive: true });
}

#[test]
fn stopping_spares_what_it_does_not_own() {
    assert!(matches!(plan_stop(DaemonState::Empty, false), StopPlan::Finish { .. }));
    assert!(matches!(
        plan_stop(DaemonState::LiveOwnerMcp { pid: 9 }, false),
        StopPlan::Refuse { .. }
    ));
    assert!(matches!(
        plan_stop(DaemonState::LiveOwnerMcp { pid: 9 }, true),
        StopPlan::Kill { pid: 9, .. }
    ));
    assert!(matches!(
        plan_stop(DaemonState::LiveOwnerDaemon { pid: 9 }, false),
        StopPlan::Kill { pid: 9, .. }
    ));
    assert!(matches!(
        plan_stop(DaemonState::StaleFiles, false),
        StopPlan::Finish { remove_files: true, .. }
    ));
}

#[test]
fn stopping_reports_how_the_process_ended() {
    let clean = stop_report(9, "daemon", ExitOutcome::ExitedClean(12), false);
    assert!(clean.clean_up);
    assert!(clean.error.is_none());
    assert_eq!(
        clean.stdout.as_deref(),
        Some("mati daemon: stopped (pid 9, owner=daemon, took 12ms, signal=TERM)")
    );
    let stuck = stop_report(9, "daemon", ExitOutcome::Stuck(9000), false);
    assert!(stuck.error.is_some());
    assert!(!stuck.clean_up);
    assert!(no_wait_report(9, false).error.is_some());
    assert!(no_wait_report(9, true).error.is_none());
    assert!(signal_delivered(0, None, 3));
    assert!(signal_delivered(-1, Some(3), 3));
    assert!(!signal_delivered(-1, Some(1), 3));
    assert!(recycled(&Some("a".to_string()), &Some("b".to_string())));
    assert!(!recycled(&Some("a".to_string()), &Some("a".to_string())));
    assert!(stop_start_event(&None, true).contains("force"));
}

#[test]
fn stop_arguments_are_bounded() {
    let d = DaemonStopArgs::default();
    assert_eq!((d.force, d.timeout, d.no_wait), (false, 0, false));
    assert_eq!(d.timeout_clamped(), 1);
    let some = DaemonStopArgs { timeout: 8, ..DaemonStopArgs::default() };
    assert_eq!(some.timeout_clamped(), 8);
    let long = DaemonStopArgs { timeout: u64::MAX, ..DaemonStopArgs::default() };
    assert!(long.timeout_clamped() < u64::MAX);
}

#[test]
fn files_are_waited_for_and_then_removed() {
    assert_eq!(poll_files(0, false, false), FilePoll::Gone);
    assert_eq!(poll_files(0, true, false), FilePoll::Wait);
    assert_eq!(poll_files(1_000, true, true), FilePoll::Remove);
    assert_eq!(first_pid("abc 12 13"), Some(12));
    assert_eq!(first_pid(""), None);
}

#[test]
fn status_is_told_in_lines() {
    let host = Assistant {
        name: "A".to_string(),
        product: "A Pro".to_string(),
        dir: ".a".to_string(),
        memory: "A.md".to_string(),
    };
    assert_eq!(
        status_lines("/s", &None, &None, &host),
        vec!["mati daemon is not running (no socket)"]
    );
    let answer = DaemonResult::Answer(json(r#"{"ok":true,"v":2}"#));
    let lines = status_lines("/s", &None, &Some(answer), &host);
    assert!(lines.contains(&"  to stop: close the A Pro session that uses mati".to_string()));
    assert!(lines.contains(&"  protocol version: 2".to_string()));
    let info = Some(PidInfo { pid: 5, owner: "daemon".to_string() });
    assert_eq!(
        status_lines("/s", &info, &Some(DaemonResult::NotRunning), &host),
        vec![
            "mati daemon is not running",
            "  stale pid: 5",
            "  run `mati daemon stop` to clean up"
        ]
    );
}

fn setting() -> Setting {
    Setting { pid: 9, socket: "/s".to_string(), idle_secs: 600 }
}

fn start(events: Vec<Event>) -> (Startup, Vec<Effect>, Option<String>) {
    let mut s = Startup::new();
    let mut all: Vec<Effect> = Vec::new();
    let mut error = None;
    for e in events {
        let mut out: Vec<Effect> = Vec::new();
        error = s.on_event(&setting(), e, &mut out);
        all.extend(out);
        if error.is_some() {
            break;
        }
    }
    (s, all, error)
}

fn until_bind() -> Vec<Event> {
    vec![
        Event::Stale(StaleCheck::Clean),
        Event::Peer(false),
        Event::Directory(Ok(())),
        Event::Store(Ok(5)),
        Event::Graph(Ok(())),
        Event::Repair(Repair::NotNeeded),
        Event::SocketPath { bytes: 10, limit: 104 },
    ]
}

#[test]
fn a_start_goes_through_to_ready() {
    let mut events = until_bind();
    events.push(Event::Bind(Ok(())));
    events.push(Event::Publish(Ok(1)));
    events.push(Event::PidFile(Ok(1)));
    let (s, effects, error) = start(events);
    assert_eq!(error, None);
    assert_eq!(s.phase, Phase::Ready);
    let written = effects.iter().filter(|e| matches!(e, Effect::WriteSentinel)).count();
    let removed = effects.iter().filter(|e| matches!(e, Effect::RemoveSentinel)).count();
    assert_eq!(written, 1);
    assert_eq!(removed, 1);
}

#[test]
fn a_failed_start_takes_its_sentinel_back() {
    let mut events = until_bind();
    events.push(Event::Bind(Err("in use".to_string())));
    let (s, effects, error) = start(events);
    assert!(error.is_some());
    assert_eq!(s.phase, Phase::Failed);
    assert!(effects.iter().any(|e| matches!(e, Effect::RemoveSentinel)));
}

#[test]
fn a_running_daemon_is_left_alone() {
    let live = StaleCheck::LiveDaemon { pid: 3, owner: "mcp".to_string() };
    let (s, effects, error) = start(vec![Event::Stale(live)]);
    assert!(error.is_some());
    assert_eq!(s.phase, Phase::Failed);
    assert!(!effects.iter().any(|e| matches!(e, Effect::RemoveSocket)));
}

#[test]
fn an_idle_daemon_stops_serving() {
    assert!(idle_shutdown(1_000, 300, 0, 600));
    assert!(!idle_shutdown(1_000, 500, 0, 600));
    assert!(!idle_shutdown(1_000, 0, 1, 600), "a request is being handled");
    assert!(!idle_line(600).is_empty());
    assert_eq!(accept_step(Accept::PeerAccepted), Serve::Handle);
    assert_eq!(accept_step(Accept::ShutdownSignalled), Serve::Stop);
    assert_eq!(accept_step(Accept::PeerRejected), Serve::Next);
    assert!(!shutdown_reason(Shutdown::Idle).is_empty());
    assert_eq!(
        shutdown_line(Shutdown::Interrupt).as_deref(),
        Some("mati daemon shutting down")
    );
}

fn run(begun: u64, events: &[ServeEvent]) -> (Serving, Vec<Effect>) {
    let mut s = Serving::begin(begun);
    let mut done = Vec::new();
    for e in events {
        let mut out = Vec::new();
        s.on_event(*e, &mut out);
        done.extend(out);
    }
    (s, done)
}

#[test]
fn a_run_ends_for_idleness_only_when_idle() {
    let limit = IDLE_SHUTDOWN_SECS;
    assert_eq!(limit, 30 * 60);
    let (s, done) = run(100, &[ServeEvent::Tick(100 + limit - 1)]);
    assert!(s.is_serving() && done.is_empty());
    let (s, done) = run(100, &[ServeEvent::Tick(100 + limit)]);
    assert_eq!(s.phase, ServePhase::Draining(Shutdown::Idle));
    assert_eq!(done, vec![Effect::Announce("mati daemon: idle 30min — shutting down".to_string())]);
    let held = [ServeEvent::Opened(100), ServeEvent::Tick(100_000), ServeEvent::Tick(200_000)];
    assert!(run(0, &held).0.is_serving(), "an open connection keeps the daemon up");
    let dropped = [ServeEvent::Dropped(5_000), ServeEvent::Tick(5_000 + limit - 1)];
    assert!(run(0, &dropped).0.is_serving(), "a rejected peer counts as activity");
    let closed = [ServeEvent::Opened(100), ServeEvent::Closed, ServeEvent::Tick(100 + limit)];
    assert!(!run(0, &closed).0.is_serving());
    assert!(run(500, &[ServeEvent::Tick(10)]).0.is_serving(), "a clock that goes back");
}

#[test]
fn the_first_reason_to_end_counts() {
    let events = [
        ServeEvent::Signalled(StopSignal::Hangup),
        ServeEvent::Tick(u64::MAX),
        ServeEvent::LoopExited,
        ServeEvent::Signalled(StopSignal::Interrupt),
    ];
    let (s, done) = run(0, &events);
    assert_eq!(s.phase, ServePhase::Draining(Shutdown::Hangup));
    assert_eq!(done, vec![Effect::Announce("mati daemon shutting down".to_string())]);
    let (s, done) = run(0, &[ServeEvent::LoopExited]);
    assert_eq!(s.phase, ServePhase::Draining(Shutdown::LoopExit));
    assert!(done.is_empty());
    let (s, _) = run(0, &[ServeEvent::Signalled(StopSignal::Terminate)]);
    assert_eq!(s.phase, ServePhase::Draining(Shutdown::Terminate));
}

#[test]
fn a_stopped_daemon_leaves_no_file() {
    let events = [
        ServeEvent::Drained,
        ServeEvent::Opened(1),
        ServeEvent::Signalled(StopSignal::Terminate),
        ServeEvent::Closed,
        ServeEvent::Drained,
        ServeEvent::Drained,
    ];
    let (s, done) = run(0, &events);
    assert_eq!(s.phase, ServePhase::Stopped(Shutdown::Terminate));
    assert_eq!(
        done,
        vec![
            Effect::Announce("mati daemon shutting down".to_string()),
            Effect::RemoveSentinel,
            Effect::RemoveSocket,
            Effect::RemovePidFile,
            Effect::Record { event: "serve_shutdown", detail: "signal_sigterm".to_string() },
        ]
    );
}

#[test]
fn a_process_is_killed_only_when_its_time_is_over() {
    assert_eq!(kill_step(None, false, 30, 7_000, 2_000), KillStep::Done(ExitOutcome::ExitedClean(30)));
    assert_eq!(kill_step(None, true, 6_999, 7_000, 2_000), KillStep::Wait);
    assert_eq!(kill_step(None, true, 7_000, 7_000, 2_000), KillStep::Kill);
    assert_eq!(kill_step(Some(7_000), true, 8_999, 7_000, 2_000), KillStep::Wait);
    assert_eq!(
        kill_step(Some(7_000), false, 7_050, 7_000, 2_000),
        KillStep::Done(ExitOutcome::KilledHard(7_050))
    );
    assert_eq!(
        kill_step(Some(7_000), true, 9_000, 7_000, 2_000),
        KillStep::Done(ExitOutcome::Stuck(9_000))
    );
    assert_eq!(kill_step(Some(u64::MAX), true, u64::MAX, 0, 1), KillStep::Wait);
}
