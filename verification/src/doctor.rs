//! `mati doctor`: what the checks say, what the lifecycle log says, and how the
//! report reads.
use vstd::prelude::*;
use crate::daemon::Ping;
use crate::json;
use crate::json::{Json, JsonView};
use crate::sentinel;
use crate::text;

verus! {

/// Arguments of `mati doctor`.
#[derive(Debug, PartialEq, Eq)]
pub struct DoctorArgs {
    /// Print the report as JSON.
    pub json: bool,
    /// Show the daemon's metrics instead.
    pub internal: bool,
}

// ---------------------------------------------------------------------------
// Checks
// ---------------------------------------------------------------------------

#[derive(Debug, Clone, Copy, PartialEq, Eq, Structural)]
pub enum Status {
    Pass,
    Warn,
    Fail,
    Info,
}

/// The outcome of one check.
#[derive(Debug, PartialEq, Eq)]
pub struct CheckResult {
    pub section: &'static str,
    pub name: &'static str,
    pub status: Status,
    pub detail: String,
    /// How to mend it.
    pub fix: Option<&'static str>,
}

#[verifier::ext_equal]
pub struct CheckView {
    pub section: Seq<char>,
    pub name: Seq<char>,
    pub status: Status,
    pub detail: Seq<char>,
    pub fix: Option<Seq<char>>,
}

impl View for CheckResult {
    type V = CheckView;

    open spec fn view(&self) -> CheckView {
        CheckView {
            section: self.section@,
            name: self.name@,
            status: self.status,
            detail: self.detail@,
            fix: match self.fix {
                Some(f) => Some(f@),
                None => None,
            },
        }
    }
}

pub open spec fn check_views(v: Seq<CheckResult>) -> Seq<CheckView> {
    v.map_values(|c: CheckResult| c@)
}

/// What the dirty marker says.
#[derive(Debug, PartialEq, Eq)]
pub enum Marker {
    Clear,
    /// The number of keys and the cause, where they can be read.
    Dirty(Option<(u64, String)>),
}

/// What the indexes look like.
#[derive(Debug, PartialEq, Eq)]
pub enum Drift {
    Absent,
    Present { missing_file: u64, stale_file: u64, missing_edge: u64, stale_edge: u64 },
    Unknown(String),
}

/// What a look into the store shows.
#[derive(Debug, PartialEq, Eq)]
pub enum StoreLook {
    OpenFailed(String),
    Opened { marker: Marker, drift: Drift },
}

/// Whether the store is looked into: not while a daemon holds its lock, and not
/// where there is none, since opening would create it.
pub open spec fn looks_into_store(ping: Ping, has_store: bool) -> bool {
    has_store && ping != Ping::Answered && ping != Ping::Unresponsive
}

pub fn wants_store(ping: Ping, has_store: bool) -> (r: bool)
    ensures
        r == looks_into_store(ping, has_store),
{
    match ping {
        Ping::Answered | Ping::Unresponsive => false,
        _ => has_store,
    }
}

pub open spec fn check(
    section: Seq<char>,
    name: Seq<char>,
    status: Status,
    detail: Seq<char>,
    fix: Option<Seq<char>>,
) -> CheckView {
    CheckView { section, name, status, detail, fix }
}

pub open spec fn ping_check(ping: Ping) -> CheckView {
    match ping {
        Ping::Answered => check("daemon"@, "ping"@, Status::Pass, "ok"@, None),
        Ping::Unresponsive => check(
            "daemon"@,
            "ping"@,
            Status::Fail,
            "socket exists but daemon is not responding"@,
            Some("mati daemon stop && mati daemon start"@),
        ),
        Ping::StaleSocket => check(
            "daemon"@,
            "ping"@,
            Status::Warn,
            "stale socket detected and cleaned up"@,
            None,
        ),
        Ping::NotRunning => check(
            "daemon"@,
            "ping"@,
            Status::Info,
            "not running (OK if no agent session is active)"@,
            None,
        ),
    }
}

pub open spec fn marker_check(m: Marker) -> CheckView {
    match m {
        Marker::Clear => check("integrity"@, "dirty_marker"@, Status::Pass, "not set"@, None),
        Marker::Dirty(known) => check(
            "integrity"@,
            "dirty_marker"@,
            Status::Warn,
            match known {
                Some((n, cause)) => text::dec(n as nat) + " key(s) flagged: "@ + cause@,
                None => "flagged but cause not readable"@,
            },
            Some("mati repair --fast"@),
        ),
    }
}

pub open spec fn drift_check(d: Drift) -> CheckView {
    match d {
        Drift::Absent => check("integrity"@, "drift"@, Status::Pass, "no drift detected"@, None),
        Drift::Present { missing_file, stale_file, missing_edge, stale_edge } => check(
            "integrity"@,
            "drift"@,
            Status::Fail,
            "missing_file="@ + text::dec(missing_file as nat) + ", stale_file="@ + text::dec(
                stale_file as nat,
            ) + ", missing_edge="@ + text::dec(missing_edge as nat) + ", stale_edge="@ + text::dec(
                stale_edge as nat,
            ),
            Some("mati repair"@),
        ),
        Drift::Unknown(e) => check(
            "integrity"@,
            "drift"@,
            Status::Fail,
            "check error: "@ + e@,
            None,
        ),
    }
}

/// Both integrity checks with one outcome.
pub open spec fn both_checks(
    status: Status,
    marker: Seq<char>,
    drift: Seq<char>,
    fix: Option<Seq<char>>,
) -> Seq<CheckView> {
    seq![
        check("integrity"@, "dirty_marker"@, status, marker, fix),
        check("integrity"@, "drift"@, status, drift, fix),
    ]
}

pub open spec fn no_store_text() -> Seq<char> {
    "skipped \u{2014} no store initialized for this directory (run `mati init` to set up)"@
}

pub open spec fn unverifiable_text() -> Seq<char> {
    "skipped \u{2014} daemon is unresponsive; integrity unverifiable until it is restarted"@
}

/// The integrity checks.
pub open spec fn integrity_checks(ping: Ping, has_store: bool, look: Option<StoreLook>) -> Seq<
    CheckView,
> {
    match ping {
        Ping::Answered => both_checks(
            Status::Info,
            "skipped \u{2014} daemon holds the store lock"@,
            "skipped \u{2014} daemon holds the store lock; auto-drain runs on its side"@,
            None,
        ),
        Ping::Unresponsive => both_checks(
            Status::Info,
            unverifiable_text(),
            unverifiable_text(),
            None,
        ),
        _ => if !has_store {
            both_checks(Status::Info, no_store_text(), no_store_text(), Some("mati init"@))
        } else {
            match look {
                Some(StoreLook::Opened { marker, drift }) => seq![
                    marker_check(marker),
                    drift_check(drift),
                ],
                Some(StoreLook::OpenFailed(e)) => both_checks(
                    Status::Fail,
                    "store open failed: "@ + e@,
                    "store open failed: "@ + e@,
                    None,
                ),
                None => Seq::empty(),
            }
        },
    }
}

/// All checks, in order.
pub open spec fn all_checks(ping: Ping, has_store: bool, look: Option<StoreLook>) -> Seq<CheckView> {
    seq![ping_check(ping)] + integrity_checks(ping, has_store, look)
}

fn push_check(v: &mut Vec<CheckResult>, c: CheckResult)
    ensures
        check_views(final(v)@) == check_views(old(v)@).push(c@),
{
    let ghost before = v@;
    v.push(c);
    assert(check_views(v@) =~= check_views(before).push(c@));
}

fn ping_result(ping: Ping) -> (r: CheckResult)
    ensures
        r@ == ping_check(ping),
{
    match ping {
        Ping::Answered => CheckResult {
            section: "daemon",
            name: "ping",
            status: Status::Pass,
            detail: "ok".to_owned(),
            fix: None,
        },
        Ping::Unresponsive => CheckResult {
            section: "daemon",
            name: "ping",
            status: Status::Fail,
            detail: "socket exists but daemon is not responding".to_owned(),
            fix: Some("mati daemon stop && mati daemon start"),
        },
        Ping::StaleSocket => CheckResult {
            section: "daemon",
            name: "ping",
            status: Status::Warn,
            detail: "stale socket detected and cleaned up".to_owned(),
            fix: None,
        },
        Ping::NotRunning => CheckResult {
            section: "daemon",
            name: "ping",
            status: Status::Info,
            detail: "not running (OK if no agent session is active)".to_owned(),
            fix: None,
        },
    }
}

fn push_both(
    v: &mut Vec<CheckResult>,
    status: Status,
    marker: &str,
    drift: &str,
    fix: Option<&'static str>,
)
    ensures
        check_views(final(v)@) == check_views(old(v)@) + both_checks(
            status,
            marker@,
            drift@,
            match fix {
                Some(f) => Some(f@),
                None => None,
            },
        ),
{
    push_check(
        v,
        CheckResult {
            section: "integrity",
            name: "dirty_marker",
            status,
            detail: marker.to_owned(),
            fix,
        },
    );
    push_check(
        v,
        CheckResult { section: "integrity", name: "drift", status, detail: drift.to_owned(), fix },
    );
    assert(check_views(v@) =~= check_views(old(v)@) + both_checks(
        status,
        marker@,
        drift@,
        match fix {
            Some(f) => Some(f@),
            None => None,
        },
    ));
}

fn marker_result(m: &Marker) -> (r: CheckResult)
    ensures
        r@ == marker_check(*m),
{
    match m {
        Marker::Clear => CheckResult {
            section: "integrity",
            name: "dirty_marker",
            status: Status::Pass,
            detail: "not set".to_owned(),
            fix: None,
        },
        Marker::Dirty(known) => {
            let detail = match known {
                Some((n, cause)) => text::decimal(*n).concat(" key(s) flagged: ").concat(
                    cause.as_str(),
                ),
                None => "flagged but cause not readable".to_owned(),
            };
            CheckResult {
                section: "integrity",
                name: "dirty_marker",
                status: Status::Warn,
                detail,
                fix: Some("mati repair --fast"),
            }
        },
    }
}

fn drift_result(d: &Drift) -> (r: CheckResult)
    ensures
        r@ == drift_check(*d),
{
    match d {
        Drift::Absent => CheckResult {
            section: "integrity",
            name: "drift",
            status: Status::Pass,
            detail: "no drift detected".to_owned(),
            fix: None,
        },
        Drift::Present { missing_file, stale_file, missing_edge, stale_edge } => CheckResult {
            section: "integrity",
            name: "drift",
            status: Status::Fail,
            detail: "missing_file=".to_owned().concat(
                text::decimal(*missing_file).as_str(),
            ).concat(", stale_file=").concat(text::decimal(*stale_file).as_str()).concat(
                ", missing_edge=",
            ).concat(text::decimal(*missing_edge).as_str()).concat(", stale_edge=").concat(
                text::decimal(*stale_edge).as_str(),
            ),
            fix: Some("mati repair"),
        },
        Drift::Unknown(e) => CheckResult {
            section: "integrity",
            name: "drift",
            status: Status::Fail,
            detail: "check error: ".to_owned().concat(e.as_str()),
            fix: None,
        },
    }
}

/// Collects the checks. Where the store is to be looked into, `look` is what was
/// seen.
pub fn collect_checks(ping: Ping, has_store: bool, look: &Option<StoreLook>) -> (r: Vec<CheckResult>)
    requires
        looks_into_store(ping, has_store) ==> look is Some,
    ensures
        check_views(r@) == all_checks(ping, has_store, *look),
{
    let mut out: Vec<CheckResult> = Vec::new();
    push_check(&mut out, ping_result(ping));
    assert(check_views(out@) =~= seq![ping_check(ping)]);
    match ping {
        Ping::Answered => {
            push_both(
                &mut out,
                Status::Info,
                "skipped \u{2014} daemon holds the store lock",
                "skipped \u{2014} daemon holds the store lock; auto-drain runs on its side",
                None,
            );
        },
        Ping::Unresponsive => {
            push_both(
                &mut out,
                Status::Info,
                "skipped \u{2014} daemon is unresponsive; integrity unverifiable until it is restarted",
                "skipped \u{2014} daemon is unresponsive; integrity unverifiable until it is restarted",
                None,
            );
        },
        _ => {
            if !has_store {
                push_both(
                    &mut out,
                    Status::Info,
                    "skipped \u{2014} no store initialized for this directory (run `mati init` to set up)",
                    "skipped \u{2014} no store initialized for this directory (run `mati init` to set up)",
                    Some("mati init"),
                );
            } else {
                match look {
                    Some(StoreLook::Opened { marker, drift }) => {
                        push_check(&mut out, marker_result(marker));
                        push_check(&mut out, drift_result(drift));
                    },
                    Some(StoreLook::OpenFailed(e)) => {
                        let detail = "store open failed: ".to_owned().concat(e.as_str());
                        push_both(&mut out, Status::Fail, detail.as_str(), detail.as_str(), None);
                    },
                    None => {},
                }
            }
        },
    }
    assert(check_views(out@) =~= all_checks(ping, has_store, *look));
    out
}

#[derive(Debug, Clone, Copy, PartialEq, Eq, Structural)]
pub struct Summary {
    pub pass: u32,
    pub warn: u32,
    pub fail: u32,
    pub info: u32,
}

/// How many of the first `n` checks have a status.
pub open spec fn count_with(c: Seq<CheckView>, s: Status, n: int) -> nat
    decreases n,
{
    if n <= 0 {
        0
    } else {
        count_with(c, s, n - 1) + (if c[n - 1].status == s {
            1nat
        } else {
            0
        })
    }
}

/// Whether a summary counts these checks by status.
pub open spec fn counts(s: Summary, c: Seq<CheckView>) -> bool {
    let n = c.len() as int;
    &&& s.pass == count_with(c, Status::Pass, n)
    &&& s.warn == count_with(c, Status::Warn, n)
    &&& s.fail == count_with(c, Status::Fail, n)
    &&& s.info == count_with(c, Status::Info, n)
}

/// Counts the checks by status.
pub fn summarize(checks: &Vec<CheckResult>) -> (r: Summary)
    requires
        checks@.len() <= u32::MAX,
    ensures
        counts(r, check_views(checks@)),
{
    let mut s = Summary { pass: 0, warn: 0, fail: 0, info: 0 };
    let ghost c = check_views(checks@);
    let mut i: usize = 0;
    while i < checks.len()
        invariant
            i <= checks.len(),
            checks@.len() <= u32::MAX,
            c == check_views(checks@),
            s.pass == count_with(c, Status::Pass, i as int),
            s.warn == count_with(c, Status::Warn, i as int),
            s.fail == count_with(c, Status::Fail, i as int),
            s.info == count_with(c, Status::Info, i as int),
            s.pass <= i,
            s.warn <= i,
            s.fail <= i,
            s.info <= i,
        decreases checks.len() - i,
    {
        assert(c[i as int] == checks@[i as int]@);
        match checks[i].status {
            Status::Pass => {
                s.pass = s.pass + 1;
            },
            Status::Warn => {
                s.warn = s.warn + 1;
            },
            Status::Fail => {
                s.fail = s.fail + 1;
            },
            Status::Info => {
                s.info = s.info + 1;
            },
        }
        i = i + 1;
    }
    s
}

/// The exit code: 1 where a check fails.
pub fn exit_code(s: &Summary) -> (r: i32)
    ensures
        r == (if s.fail > 0 {
            1i32
        } else {
            0i32
        }),
{
    if s.fail > 0 {
        1
    } else {
        0
    }
}

// ---------------------------------------------------------------------------
// The lifecycle log
// ---------------------------------------------------------------------------

/// An entry of the lifecycle log.
#[derive(Debug, PartialEq, Eq)]
pub struct LifecycleEntry {
    pub ts: u64,
    pub pid: u32,
    pub event: String,
    pub detail: String,
}

#[verifier::ext_equal]
pub struct EntryView {
    pub ts: nat,
    pub pid: nat,
    pub event: Seq<char>,
    pub detail: Seq<char>,
}

impl View for LifecycleEntry {
    type V = EntryView;

    open spec fn view(&self) -> EntryView {
        EntryView {
            ts: self.ts as nat,
            pid: self.pid as nat,
            event: self.event@,
            detail: self.detail@,
        }
    }
}

pub open spec fn entry_views(v: Seq<LifecycleEntry>) -> Seq<EntryView> {
    v.map_values(|e: LifecycleEntry| e@)
}

pub open spec fn number_or_zero(s: Seq<char>, limit: nat) -> nat {
    match text::number_text(s, limit) {
        Some(n) => n,
        None => 0,
    }
}

/// The entry on a line of four columns with tabs between them; further tabs
/// belong to the last column. Other lines are no entries.
pub open spec fn entry_of(line: Seq<char>) -> Option<EntryView> {
    let cols = text::split_on(line, '\t');
    if cols.len() < 4 {
        None
    } else {
        Some(
            EntryView {
                ts: number_or_zero(cols[0], u64::MAX as nat),
                pid: number_or_zero(cols[1], u32::MAX as nat),
                event: cols[2],
                detail: text::joined(cols.skip(3), "\t"@),
            },
        )
    }
}

/// The line of an entry.
pub open spec fn log_line(e: EntryView) -> Seq<char> {
    text::dec(e.ts) + "\t"@ + text::dec(e.pid) + "\t"@ + e.event + "\t"@ + e.detail
}

/// A text on one line and in one column: blanks stand for tabs and line feeds.
pub open spec fn flat(s: Seq<char>) -> Seq<char> {
    s.map_values(
        |c: char|
            if c == '\t' || c == '\n' || c == '\r' {
                ' '
            } else {
                c
            },
    )
}

fn flatten(s: &str) -> (r: String)
    ensures
        r@ == flat(s@),
{
    let v = text::chars(s);
    let mut out = String::new();
    let mut i: usize = 0;
    assert(out@ =~= flat(s@).take(0));
    while i < v.len()
        invariant
            i <= v.len(),
            v@ == s@,
            out@ == flat(s@).take(i as int),
        decreases v.len() - i,
    {
        let c = v[i];
        let kept = if c == '\t' || c == '\n' || c == '\r' {
            ' '
        } else {
            c
        };
        out.push(kept);
        assert(out@ =~= flat(s@).take(i + 1));
        i = i + 1;
    }
    assert(flat(s@).take(i as int) =~= flat(s@));
    out
}

/// The line by which an event enters the log.
pub fn lifecycle_line(ts: u64, pid: u32, event: &str, detail: &str) -> (r: String)
    ensures
        r@ == log_line(
            EntryView { ts: ts as nat, pid: pid as nat, event: event@, detail: flat(detail@) },
        ) + "\n"@,
{
    text::decimal(ts).concat("\t").concat(text::decimal(pid as u64).as_str()).concat("\t").concat(
        event,
    ).concat("\t").concat(flatten(detail).as_str()).concat("\n")
}

/// An entry is read back from its line, whatever its detail is.
pub proof fn law_entries_are_read_back(e: EntryView)
    requires
        e.ts <= u64::MAX,
        e.pid <= u32::MAX,
        !e.event.contains('\t'),
    ensures
        entry_of(log_line(e)) == Some(e),
{
    let tab = seq!['\t'];
    let ts = text::dec(e.ts);
    let pid = text::dec(e.pid);
    reveal_strlit("\t");
    assert("\t"@ =~= tab);
    text::lemma_dec_value(e.ts);
    text::lemma_dec_value(e.pid);
    assert forall|i: int| 0 <= i < ts.len() implies ts[i] != '\t' && ts[i] != '+' by {
        assert(text::is_digit(ts[i]));
    }
    assert forall|i: int| 0 <= i < pid.len() implies pid[i] != '\t' && pid[i] != '+' by {
        assert(text::is_digit(pid[i]));
    }
    text::lemma_split_on_plain(ts, '\t');
    text::lemma_split_on_plain(pid, '\t');
    text::lemma_split_on_plain(e.event, '\t');
    let two = ts + tab + pid;
    let three = two + tab + e.event;
    text::lemma_split_on_append(ts, pid, '\t');
    text::lemma_split_on_append(two, e.event, '\t');
    text::lemma_split_on_append(three, e.detail, '\t');
    assert(log_line(e) =~= three + tab + e.detail);
    let rest = text::split_on(e.detail, '\t');
    text::lemma_split_on_nonempty(e.detail, '\t');
    let cols = text::split_on(log_line(e), '\t');
    assert(cols =~= seq![ts, pid, e.event] + rest);
    assert(cols.skip(3) =~= rest);
    text::lemma_joined_split(e.detail, '\t');
}

/// The entries among lines from `i` on.
pub open spec fn entries_from(lines: Seq<Seq<char>>, i: int) -> Seq<EntryView>
    decreases lines.len() - i,
{
    if i < 0 || i >= lines.len() {
        Seq::empty()
    } else {
        (match entry_of(lines[i]) {
            Some(e) => seq![e],
            None => Seq::empty(),
        }) + entries_from(lines, i + 1)
    }
}

/// The entries on the last `n` lines.
pub open spec fn tail_entries(contents: Seq<char>, n: nat) -> Seq<EntryView> {
    let lines = text::lines_of(contents);
    entries_from(
        lines,
        if lines.len() < n {
            0
        } else {
            lines.len() - n
        },
    )
}

proof fn lemma_entries_len(lines: Seq<Seq<char>>, i: int)
    requires
        0 <= i <= lines.len(),
    ensures
        entries_from(lines, i).len() <= lines.len() - i,
    decreases lines.len() - i,
{
    if i < lines.len() {
        lemma_entries_len(lines, i + 1);
    }
}

proof fn lemma_entries_push(lines: Seq<Seq<char>>, line: Seq<char>, i: int)
    requires
        0 <= i <= lines.len(),
        entry_of(line) is Some,
    ensures
        entries_from(lines.push(line), i) == entries_from(lines, i).push(entry_of(line).unwrap()),
    decreases lines.len() - i,
{
    let all = lines.push(line);
    let e = entry_of(line).unwrap();
    if i == lines.len() {
        assert(all[i] == line);
        assert(entries_from(all, i + 1) =~= Seq::<EntryView>::empty());
        assert(entries_from(all, i) =~= entries_from(lines, i).push(e));
    } else {
        assert(all[i] == lines[i]);
        lemma_entries_push(lines, line, i + 1);
        assert(entries_from(all, i) =~= entries_from(lines, i).push(e));
    }
}

/// An event that is put behind the lines of a log is the last one that is read,
/// however few are read: its detail comes back flat, and nothing else is changed.
pub proof fn law_last_event_is_read(log: Seq<char>, e: EntryView, n: nat)
    requires
        log.len() == 0 || log.last() == '\n',
        e.ts <= u64::MAX,
        e.pid <= u32::MAX,
        e.event == flat(e.event),
        n > 0,
    ensures
        ({
            let written = EntryView { detail: flat(e.detail), ..e };
            let read = tail_entries(log + log_line(written) + "\n"@, n);
            read.len() > 0 && read.last() == written
        }),
{
    let written = EntryView { detail: flat(e.detail), ..e };
    let line = log_line(written);
    reveal_strlit("\n");
    reveal_strlit("\t");
    assert("\n"@ =~= seq!['\n']);
    lemma_flat(e.event);
    lemma_flat(e.detail);
    assert forall|i: int| 0 <= i < line.len() implies line[i] != '\n' && line[i] != '\r' by {
        lemma_line_chars(written, i);
    }
    text::lemma_lines_push(log, line);
    law_entries_are_read_back(written);
    let lines = text::lines_of(log);
    let all = lines.push(line);
    let from = if all.len() < n {
        0
    } else {
        all.len() - n
    };
    lemma_entries_push(lines, line, from as int);
}

/// A flat text holds no tab and no end of line.
proof fn lemma_flat(s: Seq<char>)
    ensures
        !flat(s).contains('\t'),
        !flat(s).contains('\n'),
        !flat(s).contains('\r'),
        flat(flat(s)) == flat(s),
{
    assert(flat(flat(s)) =~= flat(s));
}

/// A line holds no end of line where its texts are flat.
proof fn lemma_line_chars(e: EntryView, i: int)
    requires
        0 <= i < log_line(e).len(),
        e.event == flat(e.event),
        e.detail == flat(e.detail),
    ensures
        log_line(e)[i] != '\n',
        log_line(e)[i] != '\r',
{
    let ts = text::dec(e.ts);
    let pid = text::dec(e.pid);
    reveal_strlit("\t");
    text::lemma_dec_value(e.ts);
    text::lemma_dec_value(e.pid);
    lemma_flat(e.event);
    lemma_flat(e.detail);
    let a = ts.len() as int;
    let b = a + 1 + pid.len();
    let c = b + 1 + e.event.len();
    if i < a {
        assert(text::is_digit(ts[i]));
        assert(log_line(e)[i] == ts[i]);
    } else if i == a || i == b || i == c {
        assert(log_line(e)[i] == '\t');
    } else if i < b {
        assert(text::is_digit(pid[i - a - 1]));
        assert(log_line(e)[i] == pid[i - a - 1]);
    } else if i < c {
        assert(log_line(e)[i] == e.event[i - b - 1]);
        assert(flat(e.event).contains(e.event[i - b - 1]));
    } else {
        assert(log_line(e)[i] == e.detail[i - c - 1]);
        assert(flat(e.detail).contains(e.detail[i - c - 1]));
    }
}

fn parse_entry(line: &str) -> (r: Option<LifecycleEntry>)
    ensures
        match r {
            Some(e) => entry_of(line@) == Some(e@),
            None => entry_of(line@) is None,
        },
{
    let cols = text::split(line, '\t');
    let ghost all = text::split_on(line@, '\t');
    assert(all.len() == cols@.len());
    if cols.len() < 4 {
        return None;
    }
    let ts = match text::parse_number(cols[0].as_str(), u64::MAX) {
        Some(n) => n,
        None => 0,
    };
    let pid = match text::parse_number(cols[1].as_str(), u32::MAX as u64) {
        Some(n) => n as u32,
        None => 0,
    };
    let mut rest: Vec<String> = Vec::new();
    let mut i: usize = 3;
    assert(text::texts(rest@) =~= all.subrange(3, 3));
    while i < cols.len()
        invariant
            3 <= i <= cols.len(),
            all == text::texts(cols@),
            text::texts(rest@) == all.subrange(3, i as int),
        decreases cols.len() - i,
    {
        text::push_line(&mut rest, cols[i].clone());
        assert(text::texts(rest@) =~= all.subrange(3, i + 1));
        i = i + 1;
    }
    assert(text::texts(rest@) =~= all.skip(3));
    assert(all[0] == cols@[0]@ && all[1] == cols@[1]@ && all[2] == cols@[2]@);
    Some(LifecycleEntry { ts, pid, event: cols[2].clone(), detail: text::join(&rest, "\t") })
}

/// The entries on the last `n` lines of the log; none where there is no log.
pub fn read_lifecycle_tail(contents: Option<&str>, n: usize) -> (r: Vec<LifecycleEntry>)
    ensures
        entry_views(r@) == (match contents {
            Some(c) => tail_entries(c@, n as nat),
            None => Seq::empty(),
        }),
{
    let mut out: Vec<LifecycleEntry> = Vec::new();
    assert(entry_views(out@) =~= Seq::<EntryView>::empty());
    if let Some(c) = contents {
        let lines = text::lines(c);
        let ghost all = text::lines_of(c@);
        let start: usize = if lines.len() < n {
            0
        } else {
            lines.len() - n
        };
        let mut i: usize = start;
        assert(all.len() == lines@.len());
        assert(entry_views(out@) + entries_from(all, i as int) =~= entries_from(all, start as int));
        while i < lines.len()
            invariant
                start <= i <= lines.len(),
                all == text::texts(lines@),
                all.len() == lines@.len(),
                entry_views(out@) + entries_from(all, i as int) == entries_from(all, start as int),
            decreases lines.len() - i,
        {
            assert(all[i as int] == lines@[i as int]@);
            let ghost before = entry_views(out@);
            let ghost rest = entries_from(all, i + 1);
            if let Some(e) = parse_entry(lines[i].as_str()) {
                let ghost prior = out@;
                out.push(e);
                proof {
                    assert(entry_views(out@) =~= entry_views(prior).push(e@));
                    assert(before.push(e@) + rest =~= before + (seq![e@] + rest));
                }
            } else {
                assert(Seq::<EntryView>::empty() + rest =~= rest);
            }
            i = i + 1;
        }
        assert(entry_views(out@) + entries_from(all, i as int) =~= entry_views(out@));
    }
    out
}

// ---------------------------------------------------------------------------
// Texts
// ---------------------------------------------------------------------------

/// A span of seconds in its two largest units.
pub open spec fn span(secs: nat) -> Seq<char> {
    if secs < 60 {
        text::dec(secs) + "s"@
    } else if secs < 3600 {
        text::dec(secs / 60) + "m "@ + text::dec(secs % 60) + "s"@
    } else if secs < 86400 {
        text::dec(secs / 3600) + "h "@ + text::dec((secs % 3600) / 60) + "m"@
    } else {
        text::dec(secs / 86400) + "d "@ + text::dec((secs % 86400) / 3600) + "h"@
    }
}

pub fn format_duration(secs: u64) -> (r: String)
    ensures
        r@ == span(secs as nat),
{
    if secs < 60 {
        text::decimal(secs).concat("s")
    } else if secs < 3600 {
        text::decimal(secs / 60).concat("m ").concat(text::decimal(secs % 60).as_str()).concat("s")
    } else if secs < 86400 {
        text::decimal(secs / 3600).concat("h ").concat(
            text::decimal((secs % 3600) / 60).as_str(),
        ).concat("m")
    } else {
        text::decimal(secs / 86400).concat("d ").concat(
            text::decimal((secs % 86400) / 3600).as_str(),
        ).concat("h")
    }
}

/// How long ago a time was.
pub open spec fn ago(now: nat, ts: nat) -> Seq<char> {
    let n = sentinel::seconds_since(now, ts);
    if n == 0 {
        "just now"@
    } else if n < 60 {
        text::dec(n) + "s ago"@
    } else if n < 3600 {
        text::dec(n / 60) + "m ago"@
    } else if n < 86400 {
        text::dec(n / 3600) + "h ago"@
    } else {
        text::dec(n / 86400) + "d ago"@
    }
}

pub fn relative_ts(now: u64, ts: u64) -> (r: String)
    ensures
        r@ == ago(now as nat, ts as nat),
{
    let n: u64 = if now < ts {
        0
    } else {
        now - ts
    };
    if n == 0 {
        "just now".to_owned()
    } else if n < 60 {
        text::decimal(n).concat("s ago")
    } else if n < 3600 {
        text::decimal(n / 60).concat("m ago")
    } else if n < 86400 {
        text::decimal(n / 3600).concat("h ago")
    } else {
        text::decimal(n / 86400).concat("d ago")
    }
}

/// A share in whole percent, rounded down.
pub open spec fn rate_text(n: nat, total: nat) -> Seq<char> {
    if total == 0 {
        "0%"@
    } else {
        text::dec((n * 100) / total) + "%"@
    }
}

pub fn rate_label(n: u64, total: u64) -> (r: String)
    requires
        total > 0 ==> n * 100 <= u64::MAX,
    ensures
        r@ == rate_text(n as nat, total as nat),
{
    if total == 0 {
        "0%".to_owned()
    } else {
        text::decimal((n * 100) / total).concat("%")
    }
}

pub open spec fn status_mark(s: Status) -> Seq<char> {
    match s {
        Status::Pass => "ok"@,
        Status::Warn => "WARN"@,
        Status::Fail => "FAIL"@,
        Status::Info => "\u{2014}"@,
    }
}

pub open spec fn status_shade(s: Status) -> Seq<char> {
    match s {
        Status::Pass => "\x1b[32m"@,
        Status::Warn => "\x1b[33m"@,
        Status::Fail => "\x1b[31m"@,
        Status::Info => "\x1b[90m"@,
    }
}

pub open spec fn symbol(s: Status, on: bool) -> Seq<char> {
    if on {
        status_shade(s) + status_mark(s) + "\x1b[0m"@
    } else {
        status_mark(s)
    }
}

pub fn symbol_for(status: Status, use_color: bool) -> (r: String)
    ensures
        r@ == symbol(status, use_color),
{
    let mark = match status {
        Status::Pass => "ok",
        Status::Warn => "WARN",
        Status::Fail => "FAIL",
        Status::Info => "\u{2014}",
    };
    if !use_color {
        return mark.to_owned();
    }
    let shade = match status {
        Status::Pass => "\x1b[32m",
        Status::Warn => "\x1b[33m",
        Status::Fail => "\x1b[31m",
        Status::Info => "\x1b[90m",
    };
    shade.to_owned().concat(mark).concat("\x1b[0m")
}

// ---------------------------------------------------------------------------
// The report for people
// ---------------------------------------------------------------------------

pub open spec fn section_title(section: Seq<char>) -> Seq<char> {
    if section == "daemon"@ {
        "Daemon"@
    } else if section == "integrity"@ {
        "Integrity"@
    } else {
        section
    }
}

/// The lines on a check; `before` is the section of the one before it.
pub open spec fn check_lines(c: CheckView, before: Seq<char>, on: bool) -> Seq<Seq<char>> {
    (if c.section != before {
        (if before.len() > 0 {
            seq![""@]
        } else {
            Seq::empty()
        }) + seq![section_title(c.section)]
    } else {
        Seq::empty()
    }) + seq![
        "  "@ + text::padded_right(c.name, 18) + " "@ + symbol(c.status, on) + "  "@ + c.detail,
    ] + (match c.fix {
        Some(f) => seq!["                       fix: "@ + f],
        None => Seq::empty(),
    })
}

/// The section of the check before the one at `i`.
pub open spec fn section_before(c: Seq<CheckView>, i: int) -> Seq<char> {
    if i <= 0 {
        Seq::empty()
    } else {
        c[i - 1].section
    }
}

/// The lines on the first `n` checks.
pub open spec fn checks_text(c: Seq<CheckView>, on: bool, n: int) -> Seq<Seq<char>>
    decreases n,
{
    if n <= 0 {
        Seq::empty()
    } else {
        checks_text(c, on, n - 1) + check_lines(c[n - 1], section_before(c, n - 1), on)
    }
}

pub open spec fn entry_line(e: EntryView, now: nat) -> Seq<char> {
    "  "@ + text::padded_right(ago(now, e.ts), 14) + "  pid="@ + text::padded_right(
        text::dec(e.pid),
        6,
    ) + " "@ + text::padded_right(e.event, 18) + " "@ + e.detail
}

pub open spec fn lifecycle_text(e: Seq<EntryView>, now: nat) -> Seq<Seq<char>> {
    seq![""@, "Lifecycle (last "@ + text::dec(e.len()) + " events)"@] + (if e.len() == 0 {
        seq!["  (no lifecycle.log yet \u{2014} log fills as the daemon runs)"@]
    } else {
        e.map_values(|x: EntryView| entry_line(x, now))
    })
}

pub open spec fn verdict(s: Summary) -> Seq<char> {
    if s.fail > 0 {
        "Result: "@ + text::dec(s.fail as nat) + " fail, "@ + text::dec(s.warn as nat)
            + " warn, "@ + text::dec(s.pass as nat) + " pass \u{2014} see fixes above"@
    } else if s.warn > 0 {
        "Result: clean with "@ + text::dec(s.warn as nat) + " warn ("@ + text::dec(s.pass as nat)
            + " pass)"@
    } else {
        "Result: all checks passed ("@ + text::dec(s.pass as nat) + " pass)"@
    }
}

fn push_check_lines(out: &mut Vec<String>, c: &CheckResult, before: &str, on: bool)
    ensures
        text::texts(final(out)@) == text::texts(old(out)@) + check_lines(c@, before@, on),
{
    if !text::same(c.section, before) {
        if !before.is_empty() {
            text::push_line(out, "".to_owned());
        }
        let title = if text::same(c.section, "daemon") {
            "Daemon"
        } else if text::same(c.section, "integrity") {
            "Integrity"
        } else {
            c.section
        };
        text::push_line(out, title.to_owned());
    }
    text::push_line(
        out,
        "  ".to_owned().concat(text::pad_right(c.name, 18).as_str()).concat(" ").concat(
            symbol_for(c.status, on).as_str(),
        ).concat("  ").concat(c.detail.as_str()),
    );
    if let Some(f) = c.fix {
        text::push_line(out, "                       fix: ".to_owned().concat(f));
    }
    assert(text::texts(out@) =~= text::texts(old(out)@) + check_lines(c@, before@, on));
}

fn push_checks(out: &mut Vec<String>, checks: &Vec<CheckResult>, on: bool)
    ensures
        text::texts(final(out)@) == text::texts(old(out)@) + checks_text(
            check_views(checks@),
            on,
            checks@.len() as int,
        ),
{
    let ghost head = text::texts(out@);
    let ghost c = check_views(checks@);
    let mut i: usize = 0;
    assert(head + checks_text(c, on, 0) =~= head);
    while i < checks.len()
        invariant
            i <= checks.len(),
            c == check_views(checks@),
            text::texts(out@) == head + checks_text(c, on, i as int),
        decreases checks.len() - i,
    {
        assert(c[i as int] == checks@[i as int]@);
        let before = if i == 0 {
            ""
        } else {
            checks[i - 1].section
        };
        proof {
            reveal_strlit("");
            if i == 0 {
                assert(before@ =~= section_before(c, 0));
            } else {
                assert(c[i - 1] == checks@[i - 1]@);
            }
            text::lemma_append_two(
                head,
                checks_text(c, on, i as int),
                check_lines(c[i as int], section_before(c, i as int), on),
                Seq::empty(),
            );
        }
        push_check_lines(out, &checks[i], before, on);
        i = i + 1;
    }
}

fn push_lifecycle(out: &mut Vec<String>, entries: &Vec<LifecycleEntry>, now: u64)
    ensures
        text::texts(final(out)@) == text::texts(old(out)@) + lifecycle_text(
            entry_views(entries@),
            now as nat,
        ),
{
    let ghost head = text::texts(out@);
    let ghost e = entry_views(entries@);
    let ghost title = seq![""@, "Lifecycle (last "@ + text::dec(e.len()) + " events)"@];
    text::push_line(out, "".to_owned());
    text::push_line(
        out,
        "Lifecycle (last ".to_owned().concat(text::decimal(entries.len() as u64).as_str()).concat(
            " events)",
        ),
    );
    assert(text::texts(out@) =~= head + title);
    if entries.is_empty() {
        text::push_line(
            out,
            "  (no lifecycle.log yet \u{2014} log fills as the daemon runs)".to_owned(),
        );
        assert(text::texts(out@) =~= head + lifecycle_text(e, now as nat));
        return ;
    }
    let ghost f = |x: EntryView| entry_line(x, now as nat);
    let mut i: usize = 0;
    assert(text::texts(out@) =~= head + title + e.take(0).map_values(f));
    while i < entries.len()
        invariant
            i <= entries.len(),
            e == entry_views(entries@),
            f == (|x: EntryView| entry_line(x, now as nat)),
            text::texts(out@) == head + title + e.take(i as int).map_values(f),
        decreases entries.len() - i,
    {
        let x = &entries[i];
        assert(e[i as int] == x@);
        text::push_line(
            out,
            "  ".to_owned().concat(
                text::pad_right(relative_ts(now, x.ts).as_str(), 14).as_str(),
            ).concat("  pid=").concat(
                text::pad_right(text::decimal(x.pid as u64).as_str(), 6).as_str(),
            ).concat(" ").concat(text::pad_right(x.event.as_str(), 18).as_str()).concat(" ").concat(
                x.detail.as_str(),
            ),
        );
        assert(text::texts(out@) =~= head + title + e.take(i + 1).map_values(f));
        i = i + 1;
    }
    assert(e.take(i as int) =~= e);
    assert(text::texts(out@) =~= head + lifecycle_text(e, now as nat));
}

fn verdict_line(s: &Summary) -> (r: String)
    ensures
        r@ == verdict(*s),
{
    let pass = text::decimal(s.pass as u64);
    let warn = text::decimal(s.warn as u64);
    if s.fail > 0 {
        "Result: ".to_owned().concat(text::decimal(s.fail as u64).as_str()).concat(
            " fail, ",
        ).concat(warn.as_str()).concat(" warn, ").concat(pass.as_str()).concat(
            " pass \u{2014} see fixes above",
        )
    } else if s.warn > 0 {
        "Result: clean with ".to_owned().concat(warn.as_str()).concat(" warn (").concat(
            pass.as_str(),
        ).concat(" pass)")
    } else {
        "Result: all checks passed (".to_owned().concat(pass.as_str()).concat(" pass)")
    }
}

// ---------------------------------------------------------------------------
// Extraction quality
// ---------------------------------------------------------------------------

/// Extractions of one tier or configuration. `rate` is the share of confirmed
/// ones in percent without decimals, where there is one.
#[derive(Debug, PartialEq, Eq)]
pub struct TierStats {
    pub label: String,
    pub total: u64,
    pub rate: Option<String>,
}

/// The quality of extractions over the last 30 days. The tiers come in the order
/// fast, standard, deep, unknown; the configurations by name.
#[derive(Debug, PartialEq, Eq)]
pub struct ExtractionStats {
    pub total: u64,
    pub confirmed: u64,
    pub tombstoned: u64,
    pub pending: u64,
    pub expired: u64,
    pub tiers: Vec<TierStats>,
    pub configs: Vec<TierStats>,
}

pub open spec fn count_column(n: u64) -> Seq<char> {
    text::padded_left(text::dec(n as nat), 4)
}

pub open spec fn confirmed_text(rate: Option<String>) -> Seq<char> {
    match rate {
        Some(r) => text::padded_left(r@, 3) + "% confirmed"@,
        None => "\u{2014}"@,
    }
}

/// The label of a tier stands on the left of its column; that of a configuration
/// on the right.
pub open spec fn tier_label(label: Seq<char>, is_tier: bool) -> Seq<char> {
    if is_tier {
        text::padded_right(label, 8)
    } else {
        text::padded_left(label, 11)
    }
}

/// The line on a tier or configuration.
pub open spec fn tier_line(t: TierStats, is_tier: bool) -> Seq<char> {
    "    "@ + tier_label(t.label@, is_tier) + "  "@ + text::padded_left(
        text::dec(t.total as nat),
        3,
    ) + " extractions, "@ + confirmed_text(t.rate)
}

/// How many of the first `n` tiers were used.
pub open spec fn used_tiers(v: Seq<TierStats>, n: int) -> nat
    decreases n,
{
    if n <= 0 {
        0
    } else {
        used_tiers(v, n - 1) + (if v[n - 1].total > 0 {
            1nat
        } else {
            0
        })
    }
}

/// The lines on those of the first `n` tiers that were used.
pub open spec fn tier_lines(v: Seq<TierStats>, is_tier: bool, n: int) -> Seq<Seq<char>>
    decreases n,
{
    if n <= 0 {
        Seq::empty()
    } else {
        let before = tier_lines(v, is_tier, n - 1);
        if v[n - 1].total > 0 {
            before.push(tier_line(v[n - 1], is_tier))
        } else {
            before
        }
    }
}

/// A breakdown, shown where at least `least` of its tiers were used.
pub open spec fn breakdown(title: Seq<char>, v: Seq<TierStats>, is_tier: bool, least: nat) -> Seq<
    Seq<char>,
> {
    if used_tiers(v, v.len() as int) >= least {
        seq![""@, title] + tier_lines(v, is_tier, v.len() as int)
    } else {
        Seq::empty()
    }
}

pub open spec fn totals_text(s: ExtractionStats) -> Seq<Seq<char>> {
    seq![
        ""@,
        "Extraction quality (last 30d, /mati-enrich pipeline)"@,
        "  total           "@ + count_column(s.total),
        "  confirmed       "@ + count_column(s.confirmed) + "  ("@ + rate_text(
            s.confirmed as nat,
            s.total as nat,
        ) + ")"@,
        "  tombstoned      "@ + count_column(s.tombstoned) + "  ("@ + rate_text(
            s.tombstoned as nat,
            s.total as nat,
        ) + ")"@,
        "  pending         "@ + count_column(s.pending),
    ] + (if s.expired > 0 {
        seq!["  expired (>90d)  "@ + count_column(s.expired)]
    } else {
        Seq::empty()
    })
}

/// The section on extractions; none where there were none. Tiers are broken down
/// where one was used, configurations where two can be compared.
pub open spec fn extraction_text(s: ExtractionStats) -> Seq<Seq<char>> {
    if s.total == 0 {
        Seq::empty()
    } else {
        totals_text(s) + breakdown("  Per-tier:"@, s.tiers@, true, 1) + breakdown(
            "  Per-config (A/B):"@,
            s.configs@,
            false,
            2,
        )
    }
}

fn column(n: u64) -> (r: String)
    ensures
        r@ == count_column(n),
{
    let s = text::decimal(n);
    text::pad_left(s.as_str(), 4)
}

fn push_totals(out: &mut Vec<String>, s: &ExtractionStats)
    requires
        s.total > 0 ==> s.confirmed * 100 <= u64::MAX && s.tombstoned * 100 <= u64::MAX,
    ensures
        text::texts(final(out)@) == text::texts(old(out)@) + totals_text(*s),
{
    text::push_line(out, "".to_owned());
    text::push_line(out, "Extraction quality (last 30d, /mati-enrich pipeline)".to_owned());
    text::push_line(out, "  total           ".to_owned().concat(column(s.total).as_str()));
    text::push_line(
        out,
        "  confirmed       ".to_owned().concat(column(s.confirmed).as_str()).concat("  (").concat(
            rate_label(s.confirmed, s.total).as_str(),
        ).concat(")"),
    );
    text::push_line(
        out,
        "  tombstoned      ".to_owned().concat(column(s.tombstoned).as_str()).concat("  (").concat(
            rate_label(s.tombstoned, s.total).as_str(),
        ).concat(")"),
    );
    text::push_line(out, "  pending         ".to_owned().concat(column(s.pending).as_str()));
    if s.expired > 0 {
        text::push_line(out, "  expired (>90d)  ".to_owned().concat(column(s.expired).as_str()));
    }
    assert(text::texts(out@) =~= text::texts(old(out)@) + totals_text(*s));
}

fn push_breakdown(
    out: &mut Vec<String>,
    title: &str,
    v: &Vec<TierStats>,
    is_tier: bool,
    least: usize,
)
    ensures
        text::texts(final(out)@) == text::texts(old(out)@) + breakdown(
            title@,
            v@,
            is_tier,
            least as nat,
        ),
{
    let ghost head = text::texts(out@);
    let mut used: usize = 0;
    let mut i: usize = 0;
    while i < v.len()
        invariant
            i <= v.len(),
            used <= i,
            used == used_tiers(v@, i as int),
        decreases v.len() - i,
    {
        if v[i].total > 0 {
            used = used + 1;
        }
        i = i + 1;
    }
    if used < least {
        assert(head + breakdown(title@, v@, is_tier, least as nat) =~= head);
        return ;
    }
    let ghost first = seq![""@, title@];
    text::push_line(out, "".to_owned());
    text::push_line(out, title.to_owned());
    assert(text::texts(out@) =~= head + first);
    assert(head + first + tier_lines(v@, is_tier, 0) =~= head + first);
    let mut j: usize = 0;
    while j < v.len()
        invariant
            j <= v.len(),
            text::texts(out@) == head + first + tier_lines(v@, is_tier, j as int),
        decreases v.len() - j,
    {
        let t = &v[j];
        let ghost before = tier_lines(v@, is_tier, j as int);
        if t.total > 0 {
            let shown = match &t.rate {
                Some(r) => text::pad_left(r.as_str(), 3).concat("% confirmed"),
                None => "\u{2014}".to_owned(),
            };
            let label = if is_tier {
                text::pad_right(t.label.as_str(), 8)
            } else {
                text::pad_left(t.label.as_str(), 11)
            };
            text::push_line(
                out,
                "    ".to_owned().concat(label.as_str()).concat(
                    "  ",
                ).concat(text::pad_left(text::decimal(t.total).as_str(), 3).as_str()).concat(
                    " extractions, ",
                ).concat(shown.as_str()),
            );
            assert((head + first + before).push(tier_line(*t, is_tier)) =~= head + first
                + before.push(tier_line(*t, is_tier)));
        }
        j = j + 1;
    }
    assert(text::texts(out@) =~= head + breakdown(title@, v@, is_tier, least as nat));
}

fn push_extraction(out: &mut Vec<String>, s: &ExtractionStats)
    requires
        s.total > 0 ==> s.confirmed * 100 <= u64::MAX && s.tombstoned * 100 <= u64::MAX,
    ensures
        text::texts(final(out)@) == text::texts(old(out)@) + extraction_text(*s),
{
    let ghost head = text::texts(out@);
    if s.total == 0 {
        assert(head + extraction_text(*s) =~= head);
        return ;
    }
    push_totals(out, s);
    push_breakdown(out, "  Per-tier:", &s.tiers, true, 1);
    push_breakdown(out, "  Per-config (A/B):", &s.configs, false, 2);
    proof {
        text::lemma_append_two(
            head,
            totals_text(*s),
            breakdown("  Per-tier:"@, s.tiers@, true, 1),
            breakdown("  Per-config (A/B):"@, s.configs@, false, 2),
        );
    }
}

/// The version of the report's shape. One version stands for one set of checks in
/// one order.
pub const REPORT_VERSION: u32 = 1;

/// How many entries of the lifecycle log a report shows.
pub const REPORT_ENTRIES: usize = 5;

/// What is reported.
#[derive(Debug, PartialEq, Eq)]
pub struct Report {
    pub version: u32,
    pub root: String,
    pub checks: Vec<CheckResult>,
    pub lifecycle: Vec<LifecycleEntry>,
    pub summary: Summary,
    pub extraction: Option<ExtractionStats>,
}

/// Whether a report says what was found: `log` is the lifecycle log where there is
/// one.
pub open spec fn reports(
    r: Report,
    root: Seq<char>,
    ping: Ping,
    has_store: bool,
    look: Option<StoreLook>,
    log: Option<Seq<char>>,
    extraction: Option<ExtractionStats>,
) -> bool {
    &&& r.version == REPORT_VERSION
    &&& r.root@ == root
    &&& check_views(r.checks@) == all_checks(ping, has_store, look)
    &&& entry_views(r.lifecycle@) == (match log {
        Some(c) => tail_entries(c, REPORT_ENTRIES as nat),
        None => Seq::empty(),
    })
    &&& counts(r.summary, check_views(r.checks@))
    &&& r.extraction == extraction
}

/// Puts the report together. Where the store is to be looked into, `look` is what
/// was seen.
pub fn collect(
    root: &str,
    ping: Ping,
    has_store: bool,
    look: &Option<StoreLook>,
    log: Option<&str>,
    extraction: Option<ExtractionStats>,
) -> (r: Report)
    requires
        looks_into_store(ping, has_store) ==> look is Some,
    ensures
        reports(
            r,
            root@,
            ping,
            has_store,
            *look,
            match log {
                Some(c) => Some(c@),
                None => None,
            },
            extraction,
        ),
{
    let checks = collect_checks(ping, has_store, look);
    assert(check_views(checks@).len() == checks@.len());
    let summary = summarize(&checks);
    let lifecycle = read_lifecycle_tail(log, REPORT_ENTRIES);
    Report {
        version: REPORT_VERSION,
        root: root.to_owned(),
        checks,
        lifecycle,
        summary,
        extraction,
    }
}

/// A report has version 1 and the same checks in the same order in every
/// situation, each counted once. Only a daemon that does not respond fails the
/// ping, and a daemon that holds the store leaves its integrity unchecked.
pub proof fn law_report_shape_is_stable(
    r: Report,
    root: Seq<char>,
    ping: Ping,
    has_store: bool,
    look: Option<StoreLook>,
    log: Option<Seq<char>>,
    extraction: Option<ExtractionStats>,
)
    requires
        looks_into_store(ping, has_store) ==> look is Some,
        reports(r, root, ping, has_store, look, log, extraction),
    ensures
        r.version == 1,
        ({
            let c = check_views(r.checks@);
            &&& c.len() == 3
            &&& c[0].section == "daemon"@ && c[0].name == "ping"@
            &&& c[1].section == "integrity"@ && c[1].name == "dirty_marker"@
            &&& c[2].section == "integrity"@ && c[2].name == "drift"@
            &&& c[0].status == Status::Fail <==> ping == Ping::Unresponsive
            &&& ping == Ping::Answered || ping == Ping::Unresponsive ==> c[1].status
                == Status::Info && c[2].status == Status::Info
        }),
        r.summary.pass + r.summary.warn + r.summary.fail + r.summary.info == 3,
        r.lifecycle@.len() <= REPORT_ENTRIES,
{
    reveal_with_fuel(count_with, 4);
    assert(entry_views(r.lifecycle@).len() == r.lifecycle@.len());
    if let Some(c) = log {
        let lines = text::lines_of(c);
        lemma_entries_len(
            lines,
            if lines.len() < REPORT_ENTRIES {
                0
            } else {
                lines.len() - REPORT_ENTRIES
            },
        );
    }
}

pub open spec fn opt_extraction(e: Option<ExtractionStats>) -> Seq<Seq<char>> {
    match e {
        Some(s) => extraction_text(s),
        None => Seq::empty(),
    }
}

/// The report as people read it.
pub open spec fn report_text(r: Report, now: nat, on: bool) -> Seq<Seq<char>> {
    seq![""@, "mati doctor \u{2014} "@ + r.root@, ""@] + checks_text(
        check_views(r.checks@),
        on,
        r.checks@.len() as int,
    ) + lifecycle_text(entry_views(r.lifecycle@), now) + opt_extraction(r.extraction) + seq![
        ""@,
        verdict(r.summary),
    ]
}

/// Renders the report.
pub fn render_human(r: &Report, now: u64, use_color: bool) -> (lines: Vec<String>)
    requires
        r.extraction matches Some(s) ==> s.total > 0 ==> s.confirmed * 100 <= u64::MAX
            && s.tombstoned * 100 <= u64::MAX,
    ensures
        text::texts(lines@) == report_text(*r, now as nat, use_color),
{
    let mut out: Vec<String> = Vec::new();
    text::push_line(&mut out, "".to_owned());
    text::push_line(&mut out, "mati doctor \u{2014} ".to_owned().concat(r.root.as_str()));
    text::push_line(&mut out, "".to_owned());
    assert(text::texts(out@) =~= seq![""@, "mati doctor \u{2014} "@ + r.root@, ""@]);
    push_checks(&mut out, &r.checks, use_color);
    push_lifecycle(&mut out, &r.lifecycle, now);
    let ghost head = text::texts(out@);
    match &r.extraction {
        Some(s) => {
            push_extraction(&mut out, s);
        },
        None => {
            assert(head + opt_extraction(r.extraction) =~= head);
        },
    }
    text::push_line(&mut out, "".to_owned());
    text::push_line(&mut out, verdict_line(&r.summary));
    assert(text::texts(out@) =~= report_text(*r, now as nat, use_color));
    out
}

// ---------------------------------------------------------------------------
// The daemon's metrics
// ---------------------------------------------------------------------------

/// The metrics of one command; times in microseconds.
#[derive(Debug, PartialEq, Eq)]
pub struct CommandMetrics {
    pub name: String,
    pub count: u64,
    pub errors: u64,
    pub mean: u32,
    pub p50: u32,
    pub p95: u32,
    pub p99: u32,
    pub max: u32,
}

#[verifier::ext_equal]
pub struct CommandView {
    pub name: Seq<char>,
    pub count: nat,
    pub errors: nat,
    pub mean: nat,
    pub p50: nat,
    pub p95: nat,
    pub p99: nat,
    pub max: nat,
}

impl View for CommandMetrics {
    type V = CommandView;

    open spec fn view(&self) -> CommandView {
        CommandView {
            name: self.name@,
            count: self.count as nat,
            errors: self.errors as nat,
            mean: self.mean as nat,
            p50: self.p50 as nat,
            p95: self.p95 as nat,
            p99: self.p99 as nat,
            max: self.max as nat,
        }
    }
}

/// What the daemon reports of itself. Without commands the shape is unknown.
#[derive(Debug, PartialEq, Eq)]
pub struct Metrics {
    pub uptime_secs: u64,
    pub total_calls: u64,
    pub total_errors: u64,
    pub commands: Option<Vec<CommandMetrics>>,
}

pub open spec fn field(j: JsonView, name: Seq<char>) -> nat {
    match sentinel::unsigned_value(json::member(j, name)) {
        Some(n) => n,
        None => 0,
    }
}

/// The low 32 bits of a field.
pub open spec fn field32(j: JsonView, name: Seq<char>) -> nat {
    field(j, name) % 0x1_0000_0000
}

pub open spec fn command_of(j: JsonView) -> CommandView {
    CommandView {
        name: match json::text_value(json::member(j, "name"@)) {
            Some(s) => s,
            None => "?"@,
        },
        count: field(j, "count"@),
        errors: field(j, "error_count"@),
        mean: field32(j, "mean_us"@),
        p50: field32(j, "p50_us"@),
        p95: field32(j, "p95_us"@),
        p99: field32(j, "p99_us"@),
        max: field32(j, "max_us"@),
    }
}

fn read_field(j: &Json, name: &str) -> (r: u64)
    ensures
        r == field(j@, name@),
{
    match sentinel::unsigned(j.get(name)) {
        Some(n) => n,
        None => 0,
    }
}

fn read_field32(j: &Json, name: &str) -> (r: u32)
    ensures
        r == field32(j@, name@),
{
    (read_field(j, name) % 0x1_0000_0000) as u32
}

fn read_command(j: &Json) -> (r: CommandMetrics)
    ensures
        r@ == command_of(j@),
{
    let name = match j.text_of("name") {
        Some(s) => s,
        None => "?".to_owned(),
    };
    CommandMetrics {
        name,
        count: read_field(j, "count"),
        errors: read_field(j, "error_count"),
        mean: read_field32(j, "mean_us"),
        p50: read_field32(j, "p50_us"),
        p95: read_field32(j, "p95_us"),
        p99: read_field32(j, "p99_us"),
        max: read_field32(j, "max_us"),
    }
}

/// Reads the metrics; none where the daemon has recorded nothing yet.
pub fn read_metrics(data: &Json) -> (r: Option<Metrics>)
    ensures
        match r {
            Some(m) => {
                &&& data@ != JsonView::Null
                &&& m.uptime_secs == field(data@, "uptime_secs"@)
                &&& m.total_calls == field(data@, "total_calls"@)
                &&& m.total_errors == field(data@, "total_errors"@)
                &&& match json::member(data@, "commands"@) {
                    Some(JsonView::Array(v)) => m.commands matches Some(c) && c@.map_values(
                        |x: CommandMetrics| x@,
                    ) == v.map_values(|j: JsonView| command_of(j)),
                    _ => m.commands is None,
                }
            },
            None => data@ == JsonView::Null,
        },
{
    if let Json::Null = data {
        return None;
    }
    let ghost f = |j: JsonView| command_of(j);
    let ghost g = |x: CommandMetrics| x@;
    let commands = match data.get("commands") {
        Some(Json::Array(v)) => {
            proof {
                json::lemma_array_view(*v);
            }
            let ghost all = json::items(v@);
            let mut out: Vec<CommandMetrics> = Vec::new();
            let mut i: usize = 0;
            assert(out@.map_values(g) =~= all.take(0).map_values(f));
            while i < v.len()
                invariant
                    i <= v.len(),
                    all == json::items(v@),
                    f == (|j: JsonView| command_of(j)),
                    g == (|x: CommandMetrics| x@),
                    out@.map_values(g) =~= all.take(i as int).map_values(f),
                decreases v.len() - i,
            {
                assert(all[i as int] == v@[i as int]@);
                let ghost before = out@;
                let c = read_command(&v[i]);
                out.push(c);
                assert(out@.map_values(g) =~= before.map_values(g).push(c@));
                i = i + 1;
            }
            assert(all.take(i as int) =~= all);
            Some(out)
        },
        _ => None,
    };
    Some(
        Metrics {
            uptime_secs: read_field(data, "uptime_secs"),
            total_calls: read_field(data, "total_calls"),
            total_errors: read_field(data, "total_errors"),
            commands,
        },
    )
}

/// What is said where the metrics cannot be had.
pub open spec fn metrics_refusal(p: Ping) -> Seq<Seq<char>> {
    match p {
        Ping::Answered => Seq::empty(),
        Ping::NotRunning | Ping::StaleSocket => seq![
            "daemon is not running \u{2014} start it with `mati daemon start`"@,
        ],
        Ping::Unresponsive => seq![
            "daemon socket exists but is unresponsive"@,
            "  hint: mati daemon stop && mati daemon start"@,
        ],
    }
}

pub fn no_metrics(p: Ping) -> (r: Vec<String>)
    ensures
        text::texts(r@) == metrics_refusal(p),
{
    let mut out: Vec<String> = Vec::new();
    match p {
        Ping::Answered => {},
        Ping::NotRunning | Ping::StaleSocket => {
            text::push_line(
                &mut out,
                "daemon is not running \u{2014} start it with `mati daemon start`".to_owned(),
            );
        },
        Ping::Unresponsive => {
            text::push_line(&mut out, "daemon socket exists but is unresponsive".to_owned());
            text::push_line(&mut out, "  hint: mati daemon stop && mati daemon start".to_owned());
        },
    }
    assert(text::texts(out@) =~= metrics_refusal(p));
    out
}

/// What is printed of the metrics above the table of commands. The share of errors
/// is given as a number with two decimals.
pub open spec fn metrics_text(m: Option<Metrics>, share: Seq<char>) -> Seq<Seq<char>> {
    match m {
        None => seq!["(daemon has no metrics yet \u{2014} none recorded since startup)"@],
        Some(m) => seq![
            "daemon metrics"@,
            "  uptime         "@ + span(m.uptime_secs as nat),
            "  total calls    "@ + text::dec(m.total_calls as nat) + " (errors: "@ + text::dec(
                m.total_errors as nat,
            ) + ", "@ + share + "%)"@,
            ""@,
        ] + (match m.commands {
            None => seq!["(unknown metrics shape; raw payload:)"@],
            Some(v) => if v@.len() == 0 {
                seq!["(no commands recorded since startup)"@]
            } else {
                Seq::empty()
            },
        }),
    }
}

pub fn metrics_lines(m: &Option<Metrics>, share: &str) -> (r: Vec<String>)
    ensures
        text::texts(r@) == metrics_text(*m, share@),
{
    let mut out: Vec<String> = Vec::new();
    match m {
        None => {
            text::push_line(
                &mut out,
                "(daemon has no metrics yet \u{2014} none recorded since startup)".to_owned(),
            );
        },
        Some(m) => {
            text::push_line(&mut out, "daemon metrics".to_owned());
            text::push_line(
                &mut out,
                "  uptime         ".to_owned().concat(format_duration(m.uptime_secs).as_str()),
            );
            text::push_line(
                &mut out,
                "  total calls    ".to_owned().concat(
                    text::decimal(m.total_calls).as_str(),
                ).concat(" (errors: ").concat(text::decimal(m.total_errors).as_str()).concat(
                    ", ",
                ).concat(share).concat("%)"),
            );
            text::push_line(&mut out, "".to_owned());
            match &m.commands {
                None => {
                    text::push_line(&mut out, "(unknown metrics shape; raw payload:)".to_owned());
                },
                Some(v) => if v.len() == 0 {
                    text::push_line(&mut out, "(no commands recorded since startup)".to_owned());
                },
            }
        },
    }
    assert(text::texts(out@) =~= metrics_text(*m, share@));
    out
}

// ---------------------------------------------------------------------------
// What the report is for
// ---------------------------------------------------------------------------

/// The store is looked into exactly where there is one and no daemon may hold it.
pub proof fn law_held_stores_are_left_alone(ping: Ping, has_store: bool)
    ensures
        looks_into_store(ping, has_store) <==> has_store && (ping == Ping::NotRunning || ping
            == Ping::StaleSocket),
{
}

/// A check fails exactly where something is wrong: a daemon that does not answer, an
/// index that drifted or could not be compared, a store that did not open. A dirty
/// marker warns.
pub proof fn law_checks_tell_what_is_wrong(
    ping: Ping,
    look: StoreLook,
    marker: Marker,
    drift: Drift,
)
    ensures
        ping_check(ping).status == Status::Fail <==> ping == Ping::Unresponsive,
        ping_check(ping).status == Status::Warn <==> ping == Ping::StaleSocket,
        ping_check(ping).status == Status::Pass <==> ping == Ping::Answered,
        marker_check(marker).status == Status::Warn <==> marker is Dirty,
        marker_check(marker).status == Status::Pass <==> marker is Clear,
        drift_check(drift).status == Status::Pass <==> drift is Absent,
        drift_check(drift).status == Status::Fail <==> !(drift is Absent),
        drift is Present ==> drift_check(drift).fix == Some("mati repair"@),
        marker is Dirty ==> marker_check(marker).fix == Some("mati repair --fast"@),
        ping != Ping::Answered && ping != Ping::Unresponsive ==> ({
            let c = all_checks(ping, true, Some(look));
            &&& look is OpenFailed ==> c[1].status == Status::Fail && c[2].status == Status::Fail
            &&& look matches StoreLook::Opened { marker: m, drift: d } ==> (c[1].status
                == Status::Warn <==> m is Dirty) && (c[2].status == Status::Fail <==> !(
            d is Absent))
        }),
        ping != Ping::Answered && ping != Ping::Unresponsive ==> ({
            let c = all_checks(ping, false, None);
            c[1].status == Status::Info && c[2].status == Status::Info && c[1].fix == Some(
                "mati init"@,
            )
        }),
{
}

/// Drift is told by its four counts, each under its own name.
pub proof fn law_drift_is_told_by_count(a: u64, b: u64, c: u64, d: u64)
    ensures
        ({
            let t = drift_check(
                Drift::Present { missing_file: a, stale_file: b, missing_edge: c, stale_edge: d },
            ).detail;
            &&& ("missing_file="@ + text::dec(a as nat)).is_prefix_of(t)
            &&& text::text_contains(t, ", stale_file="@ + text::dec(b as nat))
            &&& text::text_contains(t, ", missing_edge="@ + text::dec(c as nat))
            &&& (", stale_edge="@ + text::dec(d as nat)).is_suffix_of(t)
        }),
{
    let t = drift_check(
        Drift::Present { missing_file: a, stale_file: b, missing_edge: c, stale_edge: d },
    ).detail;
    let w = "missing_file="@ + text::dec(a as nat);
    let x = ", stale_file="@ + text::dec(b as nat);
    let y = ", missing_edge="@ + text::dec(c as nat);
    let z = ", stale_edge="@ + text::dec(d as nat);
    assert(t =~= w + x + (y + z));
    text::lemma_part_occurs(w, x, y + z);
    assert(t =~= (w + x) + y + z);
    text::lemma_part_occurs(w + x, y, z);
    assert(t.subrange(0, w.len() as int) =~= w);
    assert(t.subrange(t.len() - z.len(), t.len() as int) =~= z);
}

proof fn lemma_count_same(a: Seq<CheckView>, b: Seq<CheckView>, s: Status, n: int)
    requires
        0 <= n <= a.len() <= b.len(),
        forall|i: int| 0 <= i < n ==> a[i] == #[trigger] b[i],
    ensures
        count_with(a, s, n) == count_with(b, s, n),
    decreases n,
{
    if n > 0 {
        lemma_count_same(a, b, s, n - 1);
        assert(a[n - 1] == b[n - 1]);
    }
}

/// Every check counts once, under its own outcome.
pub proof fn law_checks_are_counted(c: Seq<CheckView>, one: CheckView, s: Status)
    ensures
        count_with(Seq::empty(), s, 0) == 0,
        count_with(c.push(one), s, c.len() as int + 1) == count_with(c, s, c.len() as int) + (
        if one.status == s {
            1nat
        } else {
            0nat
        }),
{
    lemma_count_same(c, c.push(one), s, c.len() as int);
}

/// The verdict is a failure exactly where a check failed, and clean with warnings
/// exactly where one warned; it tells the counts.
pub proof fn law_verdict_tells_the_worst(s: Summary)
    ensures
        s.fail > 0 ==> ("Result: "@ + text::dec(s.fail as nat) + " fail, "@).is_prefix_of(
            verdict(s),
        ) && text::text_contains(verdict(s), " fail, "@ + text::dec(s.warn as nat) + " warn, "@),
        s.fail == 0 && s.warn > 0 ==> ("Result: clean with "@ + text::dec(
            s.warn as nat,
        )).is_prefix_of(verdict(s)),
        s.fail == 0 && s.warn == 0 ==> verdict(s) == "Result: all checks passed ("@ + text::dec(
            s.pass as nat,
        ) + " pass)"@,
        s.fail > 0 <==> "see fixes above"@.is_suffix_of(verdict(s)),
{
    let v = verdict(s);
    reveal_strlit("see fixes above");
    reveal_strlit(" pass \u{2014} see fixes above");
    reveal_strlit(" pass)");
    let e = "see fixes above"@;
    if s.fail > 0 {
        let h = "Result: "@ + text::dec(s.fail as nat) + " fail, "@;
        assert(v.subrange(0, h.len() as int) =~= h);
        assert(v.subrange(v.len() - e.len(), v.len() as int) =~= e);
        let a = "Result: "@ + text::dec(s.fail as nat);
        let m = " fail, "@ + text::dec(s.warn as nat) + " warn, "@;
        let z = text::dec(s.pass as nat) + " pass \u{2014} see fixes above"@;
        assert(v =~= a + m + z);
        text::lemma_part_occurs(a, m, z);
    } else {
        assert(v.last() == ')');
        if e.is_suffix_of(v) {
            assert(v.subrange(v.len() - e.len(), v.len() as int).last() == 'e');
        }
        if s.warn > 0 {
            let h = "Result: clean with "@ + text::dec(s.warn as nat);
            assert(v.subrange(0, h.len() as int) =~= h);
        }
    }
}

/// A duration is told in its two largest units.
pub proof fn law_durations_are_told_in_two_units(d: nat, h: nat, m: nat, s: nat)
    requires
        h < 24,
        m < 60,
        s < 60,
    ensures
        span(s) == text::dec(s) + "s"@,
        m > 0 ==> span(m * 60 + s) == text::dec(m) + "m "@ + text::dec(s) + "s"@,
        h > 0 ==> span(h * 3600 + m * 60 + s) == text::dec(h) + "h "@ + text::dec(m) + "m"@,
        d > 0 ==> span(d * 86400 + h * 3600 + m * 60 + s) == text::dec(d) + "d "@ + text::dec(h)
            + "h"@,
{
    let a = m * 60 + s;
    assert(a / 60 == m && a % 60 == s);
    let b = h * 3600 + a;
    assert(b / 3600 == h && b % 3600 == a);
    let c = d * 86400 + b;
    assert(c / 86400 == d && c % 86400 == b);
}

/// What lies back is told in whole units of the largest kind; what lies ahead is now.
pub proof fn law_age_is_told_in_whole_units(now: nat, n: nat, k: nat)
    requires
        n <= now,
    ensures
        ago(now, now) == "just now"@,
        ago(now, now + n) == "just now"@,
        0 < n < 60 ==> ago(now, (now - n) as nat) == text::dec(n) + "s ago"@,
        60 <= n < 3600 && k * 60 <= n < (k + 1) * 60 ==> ago(now, (now - n) as nat) == text::dec(k)
            + "m ago"@,
        3600 <= n < 86400 && k * 3600 <= n < (k + 1) * 3600 ==> ago(now, (now - n) as nat)
            == text::dec(k) + "h ago"@,
        86400 <= n && k * 86400 <= n < (k + 1) * 86400 ==> ago(now, (now - n) as nat) == text::dec(k)
            + "d ago"@,
{
    if k * 60 <= n < (k + 1) * 60 {
        assert(n / 60 == k);
    }
    if k * 3600 <= n < (k + 1) * 3600 {
        assert(n / 3600 == k);
    }
    if k * 86400 <= n < (k + 1) * 86400 {
        assert(n / 86400 == k);
    }
}

/// A share is told in whole percent, rounded down.
pub proof fn law_share_is_in_whole_percent(n: nat, total: nat, k: nat)
    ensures
        total > 0 && k * total <= n * 100 < (k + 1) * total ==> rate_text(n, total) == text::dec(k)
            + "%"@,
        rate_text(n, 0) == "0%"@,
{
    if total > 0 && k * total <= n * 100 < (k + 1) * total {
        let x = n * 100;
        assert(x / total == k) by (nonlinear_arith)
            requires
                total > 0,
                k * total <= x,
                x < (k + 1) * total,
        ;
    }
}

/// Each outcome has a mark of its own, and colour changes nothing but the colour.
pub proof fn law_outcomes_have_their_marks(s: Status)
    ensures
        symbol(s, false) == "FAIL"@ <==> s == Status::Fail,
        symbol(s, false) == "WARN"@ <==> s == Status::Warn,
        symbol(s, false) == "ok"@ <==> s == Status::Pass,
        text::text_contains(symbol(s, true), symbol(s, false)),
        s == Status::Fail ==> "\x1b[31m"@.is_prefix_of(symbol(s, true)),
        s == Status::Pass ==> "\x1b[32m"@.is_prefix_of(symbol(s, true)),
{
    reveal_strlit("FAIL");
    reveal_strlit("WARN");
    reveal_strlit("ok");
    reveal_strlit("\u{2014}");
    assert("FAIL"@[0] == 'F' && "WARN"@[0] == 'W' && "ok"@.len() == 2 && "\u{2014}"@.len() == 1);
    let t = symbol(s, true);
    let c = status_shade(s);
    text::lemma_part_occurs(c, status_mark(s), "\x1b[0m"@);
    assert(t.subrange(0, c.len() as int) =~= c);
}

/// A check is shown with its name, its outcome and what was found, and with its
/// remedy where it has one.
pub proof fn law_check_is_shown_with_its_remedy(c: CheckView, before: Seq<char>)
    ensures
        ({
            let l = check_lines(c, before, false);
            let line = "  "@ + text::padded_right(c.name, 18) + " "@ + symbol(c.status, false)
                + "  "@ + c.detail;
            &&& l.contains(line)
            &&& c.fix matches Some(f) ==> l.last() == "                       fix: "@ + f
            &&& c.fix is None ==> l.last() == line
            &&& c.section != before && before.len() == 0 ==> l[0] == section_title(c.section)
            &&& c.section == before ==> l[0] == line
        }),
{
    let l = check_lines(c, before, false);
    let k = l.len() - 1 - (if c.fix is Some {
        1int
    } else {
        0int
    });
    assert(l[k] == "  "@ + text::padded_right(c.name, 18) + " "@ + symbol(c.status, false) + "  "@
        + c.detail);
}

proof fn lemma_checks_bring(c: Seq<CheckView>, n: int, i: int, x: Seq<char>)
    requires
        0 <= i < n <= c.len(),
        check_lines(c[i], section_before(c, i), false).contains(x),
    ensures
        checks_text(c, false, n).contains(x),
    decreases n,
{
    if i < n - 1 {
        lemma_checks_bring(c, n - 1, i, x);
    }
    text::lemma_line_of_either(
        checks_text(c, false, n - 1),
        check_lines(c[n - 1], section_before(c, n - 1), false),
        x,
    );
}

/// The report brings every check, every event of the log, and ends with the verdict.
pub proof fn law_report_brings_everything(r: Report, now: nat, i: int)
    ensures
        report_text(r, now, false).last() == verdict(r.summary),
        report_text(r, now, false)[1] == "mati doctor \u{2014} "@ + r.root@,
        0 <= i < r.lifecycle@.len() ==> report_text(r, now, false).contains(
            entry_line(r.lifecycle@[i]@, now),
        ),
        0 <= i < r.checks@.len() ==> report_text(r, now, false).contains(
            "  "@ + text::padded_right(r.checks@[i]@.name, 18) + " "@ + symbol(
                r.checks@[i].status,
                false,
            ) + "  "@ + r.checks@[i].detail@,
        ),
{
    let all = report_text(r, now, false);
    let head = seq![""@, "mati doctor \u{2014} "@ + r.root@, ""@];
    let c = check_views(r.checks@);
    let checks = checks_text(c, false, r.checks@.len() as int);
    let e = entry_views(r.lifecycle@);
    let log = lifecycle_text(e, now);
    let ext = opt_extraction(r.extraction);
    let tail = seq![""@, verdict(r.summary)];
    assert(all == head + checks + log + ext + tail);
    assert(all[1] == head[1]);
    if 0 <= i < r.lifecycle@.len() {
        let x = entry_line(r.lifecycle@[i]@, now);
        assert(log[2 + i] == x);
        assert(log.contains(x));
        text::lemma_line_of_either(head + checks, log, x);
        text::lemma_line_of_either(head + checks + log, ext, x);
        text::lemma_line_of_either(head + checks + log + ext, tail, x);
    }
    if 0 <= i < r.checks@.len() {
        let x = "  "@ + text::padded_right(r.checks@[i]@.name, 18) + " "@ + symbol(
            r.checks@[i].status,
            false,
        ) + "  "@ + r.checks@[i].detail@;
        law_check_is_shown_with_its_remedy(c[i], section_before(c, i));
        assert(c[i] == r.checks@[i]@);
        lemma_checks_bring(c, c.len() as int, i, x);
        text::lemma_line_of_either(head, checks, x);
        text::lemma_line_of_either(head + checks, log, x);
        text::lemma_line_of_either(head + checks + log, ext, x);
        text::lemma_line_of_either(head + checks + log + ext, tail, x);
    }
}

/// An event of the log is shown with its age, its process, its name and its detail.
pub proof fn law_event_is_shown(e: EntryView, now: nat)
    ensures
        ("  "@ + ago(now, e.ts)).is_prefix_of(entry_line(e, now)),
        e.detail.is_suffix_of(entry_line(e, now)),
        text::text_contains(entry_line(e, now), "  pid="@ + text::dec(e.pid)),
        text::text_contains(entry_line(e, now), e.event),
{
    let l = entry_line(e, now);
    let a = "  "@ + ago(now, e.ts);
    assert(l.subrange(0, a.len() as int) =~= a);
    assert(l.subrange(l.len() - e.detail.len(), l.len() as int) =~= e.detail);
    let h = "  "@ + text::padded_right(ago(now, e.ts), 14);
    let p = "  pid="@ + text::dec(e.pid);
    let fill = text::spaces(text::missing(text::dec(e.pid).len(), 6));
    let ev = text::padded_right(e.event, 18);
    let rest = fill + " "@ + ev + " "@ + e.detail;
    assert(l =~= h + p + rest);
    text::lemma_part_occurs(h, p, rest);
    text::lemma_padded_contains(e.event, 18);
    let b = h + p + fill + " "@;
    let z = " "@ + e.detail;
    assert(l =~= b + ev + z);
    text::lemma_contains_in_part(b, ev, z, e.event);
}

/// Only what was used is broken down: tiers from the first on, configurations where two
/// can be compared. Nothing is told before there was an extraction.
pub proof fn law_only_used_tiers_are_told(v: Seq<TierStats>, is_tier: bool, n: int)
    requires
        0 <= n <= v.len(),
    ensures
        tier_lines(v, is_tier, n).len() == used_tiers(v, n),
        n > 0 && v[n - 1].total == 0 ==> tier_lines(v, is_tier, n) == tier_lines(v, is_tier, n - 1),
        n > 0 && v[n - 1].total > 0 ==> tier_lines(v, is_tier, n) == tier_lines(
            v,
            is_tier,
            n - 1,
        ).push(tier_line(v[n - 1], is_tier)),
    decreases n,
{
    if n > 0 {
        law_only_used_tiers_are_told(v, is_tier, n - 1);
    }
}

/// The quality of extraction is told by its counts, with the share that was confirmed
/// and the share that was thrown away.
pub proof fn law_extraction_tells_its_counts(s: ExtractionStats)
    ensures
        s.total == 0 <==> extraction_text(s).len() == 0,
        s.total > 0 ==> ({
            let t = extraction_text(s);
            &&& t[2] == "  total           "@ + text::padded_left(text::dec(s.total as nat), 4)
            &&& t[3] == "  confirmed       "@ + text::padded_left(
                text::dec(s.confirmed as nat),
                4,
            ) + "  ("@ + rate_text(s.confirmed as nat, s.total as nat) + ")"@
            &&& t[4] == "  tombstoned      "@ + text::padded_left(
                text::dec(s.tombstoned as nat),
                4,
            ) + "  ("@ + rate_text(s.tombstoned as nat, s.total as nat) + ")"@
            &&& t[5] == "  pending         "@ + text::padded_left(text::dec(s.pending as nat), 4)
            &&& s.expired > 0 ==> t[6] == "  expired (>90d)  "@ + text::padded_left(
                text::dec(s.expired as nat),
                4,
            )
        }),
        used_tiers(s.configs@, s.configs@.len() as int) < 2 ==> breakdown(
            "  Per-config (A/B):"@,
            s.configs@,
            false,
            2,
        ).len() == 0,
{
    if s.total > 0 {
        let t = extraction_text(s);
        let a = totals_text(s);
        assert(t[2] == a[2] && t[3] == a[3] && t[4] == a[4] && t[5] == a[5]);
        if s.expired > 0 {
            assert(t[6] == a[6]);
        }
    }
}

proof fn lemma_count_told(head: Seq<char>, n: nat, width: nat, unit: Seq<char>, rest: Seq<char>)
    ensures
        text::text_contains(
            head + text::padded_left(text::dec(n), width) + unit + rest,
            text::dec(n) + unit,
        ),
{
    let d = text::dec(n);
    let fill = text::spaces(text::missing(d.len(), width));
    let m = d + unit;
    text::lemma_part_occurs(head + fill, m, rest);
    assert(head + text::padded_left(d, width) + unit =~= (head + fill) + m);
}

/// A tier is told with its count and, where it is known, how much of it was confirmed.
pub proof fn law_tier_is_told(t: TierStats, is_tier: bool)
    ensures
        t.rate matches Some(r) ==> (text::padded_left(r@, 3) + "% confirmed"@).is_suffix_of(
            tier_line(t, is_tier),
        ),
        t.rate is None ==> "\u{2014}"@.is_suffix_of(tier_line(t, is_tier)),
        text::text_contains(tier_line(t, is_tier), text::dec(t.total as nat) + " extractions, "@),
        text::text_contains(tier_line(t, is_tier), t.label@),
{
    let l = tier_line(t, is_tier);
    let lab = tier_label(t.label@, is_tier);
    let z = confirmed_text(t.rate);
    let a = "    "@ + lab;
    let b = a + "  "@;
    let c = b + text::padded_left(text::dec(t.total as nat), 3);
    let d = c + " extractions, "@;
    assert(l == d + z);
    lemma_count_told(b, t.total as nat, 3, " extractions, "@, z);
    text::lemma_padded_contains(t.label@, 8);
    text::lemma_padded_contains(t.label@, 11);
    text::lemma_contains_either("    "@, lab, t.label@);
    text::lemma_contains_either(a, "  "@, t.label@);
    text::lemma_contains_either(b, text::padded_left(text::dec(t.total as nat), 3), t.label@);
    text::lemma_contains_either(c, " extractions, "@, t.label@);
    text::lemma_contains_either(d, z, t.label@);
    assert(l.subrange(l.len() - z.len(), l.len() as int) =~= z);
}

/// The metrics of a command are read from the members of its report, each from its
/// own.
pub proof fn law_metrics_are_read_by_name(j: JsonView, n: u32)
    ensures
        ({
            let v = Some(JsonView::Number(text::dec(n as nat)));
            &&& json::member(j, "count"@) == v ==> command_of(j).count == n
            &&& json::member(j, "error_count"@) == v ==> command_of(j).errors == n
            &&& json::member(j, "mean_us"@) == v ==> command_of(j).mean == n
            &&& json::member(j, "p50_us"@) == v ==> command_of(j).p50 == n
            &&& json::member(j, "p95_us"@) == v ==> command_of(j).p95 == n
            &&& json::member(j, "p99_us"@) == v ==> command_of(j).p99 == n
            &&& json::member(j, "max_us"@) == v ==> command_of(j).max == n
            &&& json::member(j, "name"@) matches Some(JsonView::Str(s)) ==> command_of(j).name == s
            &&& json::member(j, "count"@) is None ==> command_of(j).count == 0
        }),
{
    text::law_numbers_are_read_back(n as nat, u64::MAX as nat);
}

/// The metrics tell how long the daemon is up, its calls and its errors; a daemon that
/// does not answer has none.
pub proof fn law_metrics_are_told(m: Metrics, share: Seq<char>, p: Ping)
    ensures
        ({
            let t = metrics_text(Some(m), share);
            &&& t[1] == "  uptime         "@ + span(m.uptime_secs as nat)
            &&& t[2] == "  total calls    "@ + text::dec(m.total_calls as nat) + " (errors: "@
                + text::dec(m.total_errors as nat) + ", "@ + share + "%)"@
            &&& m.commands matches Some(v) ==> (v@.len() > 0 <==> t.len() == 4)
        }),
        metrics_refusal(p).len() == 0 <==> p == Ping::Answered,
        metrics_text(None, share).len() == 1,
{
}

/// The sections are headed by their names, with a capital.
pub proof fn law_sections_are_headed(section: Seq<char>)
    ensures
        section == "daemon"@ || section == "integrity"@ ==> text::ascii_lowered(
            section_title(section),
        ) == section && 65 <= section_title(section)[0] as int <= 90,
        section != "daemon"@ && section != "integrity"@ ==> section_title(section) == section,
{
    reveal_strlit("daemon");
    reveal_strlit("integrity");
    reveal_strlit("Daemon");
    reveal_strlit("Integrity");
    assert("daemon"@.len() == 6 && "integrity"@.len() == 9);
    assert(text::ascii_lowered("Daemon"@) =~= "daemon"@);
    assert(text::ascii_lowered("Integrity"@) =~= "integrity"@);
}

/// A line of the log without its four columns is passed over; a number in it that
/// cannot be read counts as nothing.
pub proof fn law_unreadable_numbers_count_as_nothing(line: Seq<char>, e: EntryView)
    ensures
        entry_of(line) is Some <==> text::split_on(line, '\t').len() >= 4,
        entry_of(line) == Some(e) ==> ({
            let c = text::split_on(line, '\t');
            &&& e.event == c[2]
            &&& text::number_text(c[0], u64::MAX as nat) is None ==> e.ts == 0
            &&& text::number_text(c[1], u32::MAX as nat) is None ==> e.pid == 0
            &&& text::number_text(c[0], u64::MAX as nat) matches Some(n) ==> e.ts == n
            &&& text::number_text(c[1], u32::MAX as nat) matches Some(n) ==> e.pid == n
        }),
{
}

} // verus!
