//! `mati history`: the versions of a record, recently changed records, and the
//! enforcement events.
use vstd::prelude::*;
use vstd::utf8::*;
use crate::civil;
use crate::colors;
use crate::json;
use crate::record;
use crate::record::RecordSource;
use crate::show;
use crate::text;

verus! {

/// Arguments of `mati history`.
#[derive(Debug, PartialEq, Eq)]
pub struct HistoryArgs {
    pub key: Option<String>,
    pub since: Option<String>,
    pub limit: usize,
    pub enforcement: bool,
    pub event_type: Option<String>,
    pub file: Option<String>,
}

// ---------------------------------------------------------------------------
// UTC timestamps
// ---------------------------------------------------------------------------

/// The UTC text that `chrono` makes of a count of milliseconds since 1970 under
/// a pattern.
pub uninterp spec fn utc_text(millis: int, pattern: Seq<char>) -> Option<Seq<char>>;

/// The first millisecond of the year 10000.
pub const YEAR_10000_MS: i64 = 253_402_300_800_000;

/// Date and time of a count of milliseconds, with `between` between the two and
/// `end` behind them.
pub open spec fn plain_utc(millis: int, between: Seq<char>, end: Seq<char>) -> Seq<char> {
    let secs = (millis / 1000) as nat;
    civil::date_text((secs / 86400) as int) + between + civil::minute_text(secs % 86400) + ":"@
        + text::dec_padded(secs % 60, 2) + end
}

/// `DateTime::from_timestamp_millis` and `DateTime::format` of `chrono`, under
/// one of two patterns. There is no text where the count is out of chrono's
/// range. From 1970 up to the year 10000 the fields are the padded numbers of
/// the UTC date and time; how chrono writes other years is left unsaid.
#[verifier::external_body]
pub(crate) fn format_utc(millis: i64, pattern: &str) -> (r: Option<String>)
    requires
        pattern@ == "%Y-%m-%d %H:%M:%S"@ || pattern@ == "%Y-%m-%dT%H:%M:%SZ"@,
    ensures
        json::opt_text(r) == utc_text(millis as int, pattern@),
        0 <= millis < YEAR_10000_MS && pattern@ == "%Y-%m-%d %H:%M:%S"@ ==> json::opt_text(r)
            == Some(plain_utc(millis as int, " "@, ""@)),
        0 <= millis < YEAR_10000_MS && pattern@ == "%Y-%m-%dT%H:%M:%SZ"@ ==> json::opt_text(r)
            == Some(plain_utc(millis as int, "T"@, "Z"@)),
{
    chrono::DateTime::from_timestamp_millis(millis).map(|dt| dt.format(pattern).to_string())
}

/// A moment in the form of the fail-open log, `YYYY-MM-DDTHH:MM:SSZ`.
pub fn iso_utc(millis: i64) -> (r: Option<String>)
    ensures
        json::opt_text(r) == utc_text(millis as int, "%Y-%m-%dT%H:%M:%SZ"@),
        0 <= millis < YEAR_10000_MS ==> json::opt_text(r) == Some(
            plain_utc(millis as int, "T"@, "Z"@),
        ),
{
    format_utc(millis, "%Y-%m-%dT%H:%M:%SZ")
}

// ---------------------------------------------------------------------------
// Enforcement events
// ---------------------------------------------------------------------------

/// What an event is shown as.
#[derive(Debug, Clone, Copy, PartialEq, Eq, Structural)]
pub enum EventClass {
    Deny,
    AllowAfterReceipt,
    RecordingGap,
    Other,
}

#[derive(Debug, PartialEq, Eq)]
pub struct EnforcementEvent {
    pub seq_no: u64,
    pub recorded_at_ms: u64,
    pub class: EventClass,
    pub type_label: String,
    pub subject_key: String,
    pub reason_code: String,
}

/// The view of an optional slice.
pub open spec fn opt_str(s: Option<&str>) -> Option<Seq<char>> {
    match s {
        Some(t) => Some(t@),
        None => None,
    }
}

/// An optional filter: without one everything passes, else what contains it.
pub open spec fn passes(filter: Option<Seq<char>>, s: Seq<char>) -> bool {
    match filter {
        Some(f) => text::text_contains(s, f),
        None => true,
    }
}

/// Whether an event is recent enough and passes the filters on its type and its
/// subject.
pub open spec fn wanted(
    e: EnforcementEvent,
    since_ms: u64,
    kind: Option<Seq<char>>,
    file: Option<Seq<char>>,
) -> bool {
    &&& e.recorded_at_ms >= since_ms
    &&& passes(kind, e.type_label@)
    &&& passes(file, e.subject_key@)
}

/// The positions of the wanted events among the first `n`, in order.
pub open spec fn wanted_positions(
    events: Seq<EnforcementEvent>,
    since_ms: u64,
    kind: Option<Seq<char>>,
    file: Option<Seq<char>>,
    n: int,
) -> Seq<int>
    decreases n,
{
    if n <= 0 {
        Seq::empty()
    } else {
        let p = wanted_positions(events, since_ms, kind, file, n - 1);
        if wanted(events[n - 1], since_ms, kind, file) {
            p.push(n - 1)
        } else {
            p
        }
    }
}

/// Where the last `limit` of `total` items begin.
pub fn tail_start(total: usize, limit: usize) -> (r: usize)
    ensures
        r as int == (if total <= limit {
            0
        } else {
            total - limit
        }),
{
    total.saturating_sub(limit)
}

/// The last `limit` items of a list.
pub open spec fn tail<A>(s: Seq<A>, limit: nat) -> Seq<A> {
    if s.len() <= limit {
        s
    } else {
        s.skip(s.len() - limit)
    }
}

pub open spec fn as_ints(v: Seq<usize>) -> Seq<int> {
    v.map_values(|i: usize| i as int)
}

fn passes_filter(filter: Option<&str>, s: &str) -> (r: bool)
    ensures
        r == passes(opt_str(filter), s@),
{
    match filter {
        Some(f) => text::contains(s, f),
        None => true,
    }
}

/// Selects the events to show: the wanted ones, and of those the last `limit`,
/// still in order of time.
pub fn select_events(
    events: &Vec<EnforcementEvent>,
    since_ms: u64,
    kind: Option<&str>,
    file: Option<&str>,
    limit: usize,
) -> (r: Vec<usize>)
    ensures
        as_ints(r@) == tail(
            wanted_positions(events@, since_ms, opt_str(kind), opt_str(file), events@.len() as int),
            limit as nat,
        ),
{
    let mut all: Vec<usize> = Vec::new();
    let mut i: usize = 0;
    while i < events.len()
        invariant
            i <= events.len(),
            as_ints(all@) =~= wanted_positions(
                events@,
                since_ms,
                opt_str(kind),
                opt_str(file),
                i as int,
            ),
        decreases events.len() - i,
    {
        let e = &events[i];
        if e.recorded_at_ms >= since_ms && passes_filter(kind, e.type_label.as_str())
            && passes_filter(file, e.subject_key.as_str()) {
            all.push(i);
        }
        i = i + 1;
    }
    let start = tail_start(all.len(), limit);
    let mut out: Vec<usize> = Vec::new();
    let mut k: usize = start;
    while k < all.len()
        invariant
            start <= k <= all.len(),
            out@ =~= all@.subrange(start as int, k as int),
        decreases all.len() - k,
    {
        out.push(all[k]);
        k = k + 1;
    }
    assert(as_ints(out@) =~= tail(as_ints(all@), limit as nat));
    out
}

/// The beginning of a window of `secs` seconds that ends at `now_ms`.
pub fn window_start(now_ms: u64, secs: u64) -> (r: u64)
    ensures
        r as int == (if now_ms >= secs * 1000 {
            now_ms - secs * 1000
        } else {
            0
        }),
{
    match secs.checked_mul(1000) {
        Some(ms) => now_ms.saturating_sub(ms),
        None => 0,
    }
}

/// A text in a column of `max` characters: padded where its bytes fit, else cut
/// and marked.
pub open spec fn column(s: Seq<char>, max: nat) -> Seq<char> {
    if text::byte_len(s) <= max {
        text::padded_right(s, max)
    } else {
        show::byte_head(s, max - 3) + "..."@
    }
}

/// A text can be cut for a column of `max`.
pub open spec fn fits_column(s: Seq<char>, max: nat) -> bool {
    text::byte_len(s) > max ==> max >= 3 && is_char_boundary(encode_utf8(s), max - 3)
}

pub fn truncate_str(s: &str, max: usize) -> (r: String)
    requires
        fits_column(s@, max as nat),
    ensures
        r@ == column(s@, max as nat),
{
    if text::bytes_in(s) <= max {
        text::pad_right(s, max)
    } else {
        show::byte_prefix(s, max - 3).to_owned().concat("...")
    }
}

/// The colours of the event table.
pub open spec fn event_shade(c: EventClass) -> Seq<char> {
    match c {
        EventClass::Deny => "\x1b[31m"@,
        EventClass::AllowAfterReceipt => "\x1b[32m"@,
        EventClass::RecordingGap => "\x1b[33m"@,
        EventClass::Other => "\x1b[36m"@,
    }
}

fn event_color(c: EventClass) -> (r: &'static str)
    ensures
        r@ == event_shade(c),
{
    match c {
        EventClass::Deny => "\x1b[31m",
        EventClass::AllowAfterReceipt => "\x1b[32m",
        EventClass::RecordingGap => "\x1b[33m",
        EventClass::Other => "\x1b[36m",
    }
}

/// The row of an event; `time` is its time, or nothing where it is out of range.
pub open spec fn event_row_text(e: EnforcementEvent, time: Option<Seq<char>>, on: bool) -> Seq<char> {
    text::padded_left(text::dec(e.seq_no as nat), 6) + "  "@ + (match time {
        Some(t) => t,
        None => "?"@,
    }) + "  "@ + colors::shade(on, event_shade(e.class)) + text::padded_right(e.type_label@, 16)
        + colors::shade(on, "\x1b[0m"@) + "  "@ + column(e.subject_key@, 30) + "  "@ + e.reason_code@
}

/// The row of an event whose time is given as text.
pub fn event_row_at(e: &EnforcementEvent, time: Option<String>, on: bool) -> (r: String)
    requires
        fits_column(e.subject_key@, 30),
    ensures
        r@ == event_row_text(*e, json::opt_text(time), on),
{
    let t = match time {
        Some(t) => t,
        None => "?".to_owned(),
    };
    text::pad_left(text::decimal(e.seq_no).as_str(), 6).concat("  ").concat(t.as_str()).concat(
        "  ",
    ).concat(colors::tint(on, event_color(e.class))).concat(
        text::pad_right(e.type_label.as_str(), 16).as_str(),
    ).concat(colors::tint(on, "\x1b[0m")).concat("  ").concat(
        truncate_str(e.subject_key.as_str(), 30).as_str(),
    ).concat("  ").concat(e.reason_code.as_str())
}

/// The milliseconds as chrono takes them: the 64 bits read as a signed number.
pub open spec fn signed_millis(ms: u64) -> int {
    if ms < 0x8000_0000_0000_0000 {
        ms as int
    } else {
        ms - 0x1_0000_0000_0000_0000
    }
}

/// The row of an event.
pub fn event_row(e: &EnforcementEvent, on: bool) -> (r: String)
    requires
        fits_column(e.subject_key@, 30),
    ensures
        r@ == event_row_text(
            *e,
            utc_text(signed_millis(e.recorded_at_ms), "%Y-%m-%d %H:%M:%S"@),
            on,
        ),
{
    let ms = e.recorded_at_ms;
    let millis: i64 = if ms < 0x8000_0000_0000_0000 {
        ms as i64
    } else {
        -((0xFFFF_FFFF_FFFF_FFFF - ms) as i64) - 1
    };
    event_row_at(e, format_utc(millis, "%Y-%m-%d %H:%M:%S"), on)
}

/// The head of the event table.
pub open spec fn event_head() -> Seq<Seq<char>> {
    seq![
        text::padded_left("SEQ"@, 6) + "  "@ + text::padded_right("TIMESTAMP"@, 19) + "  "@
            + text::padded_right("TYPE"@, 16) + "  "@ + text::padded_right("SUBJECT"@, 30) + "  "@
            + text::padded_right("REASON"@, 6),
        Seq::new(90, |i: int| '-'),
    ]
}

pub fn event_header() -> (r: Vec<String>)
    ensures
        text::texts(r@) == event_head(),
{
    let mut v: Vec<String> = Vec::new();
    text::push_line(
        &mut v,
        text::pad_left("SEQ", 6).concat("  ").concat(
            text::pad_right("TIMESTAMP", 19).as_str(),
        ).concat("  ").concat(text::pad_right("TYPE", 16).as_str()).concat("  ").concat(
            text::pad_right("SUBJECT", 30).as_str(),
        ).concat("  ").concat(text::pad_right("REASON", 6).as_str()),
    );
    text::push_line(&mut v, repeat('-', 90));
    assert(text::texts(v@) =~= event_head());
    v
}

/// A character `n` times.
pub fn repeat(c: char, n: usize) -> (r: String)
    ensures
        r@ == Seq::new(n as nat, |i: int| c),
{
    let mut s = String::new();
    let mut i: usize = 0;
    while i < n
        invariant
            i <= n,
            s@ =~= Seq::new(i as nat, |k: int| c),
        decreases n - i,
    {
        s.push(c);
        i = i + 1;
    }
    s
}

/// The line for an empty list of events.
pub fn no_events(since: Option<&str>) -> (r: String)
    ensures
        r@ == "No enforcement events"@ + (match since {
            Some(s) => " in the last "@ + s@,
            None => ""@,
        }) + "."@,
{
    let window = match since {
        Some(s) => " in the last ".to_owned().concat(s),
        None => "".to_owned(),
    };
    "No enforcement events".to_owned().concat(window.as_str()).concat(".")
}

// ---------------------------------------------------------------------------
// Versions of a record
// ---------------------------------------------------------------------------

/// What the arguments ask for.
#[derive(Debug, PartialEq, Eq)]
pub enum HistoryPlan {
    /// The enforcement events since a time in milliseconds.
    Events { since_ms: u64 },
    /// The versions of a record, since a time in seconds where a window was given.
    Versions { key: String, window: Option<Window> },
    /// The records that changed in a window.
    Changes(Window),
    Failed(String),
}

/// The last `secs` seconds, which began at `start`.
#[derive(Debug, Clone, Copy, PartialEq, Eq, Structural)]
pub struct Window {
    pub secs: u64,
    pub start: u64,
}

pub open spec fn sub_floor(a: int, b: int) -> int {
    if a >= b {
        a - b
    } else {
        0
    }
}

/// The plan that the arguments call for at a time in milliseconds.
pub open spec fn plans(args: HistoryArgs, now_ms: u64, p: HistoryPlan) -> bool {
    let since = match args.since {
        Some(s) => Some(civil::read_span(s@)),
        None => None,
    };
    if args.limit == 0 {
        p matches HistoryPlan::Failed(m) && m@ == "--limit must be at least 1"@
    } else if since is Some && since->0 is Err {
        p matches HistoryPlan::Failed(m) && m@ == since->0->Err_0
    } else if args.enforcement {
        p matches HistoryPlan::Events { since_ms } && since_ms as int == (match since {
            Some(Ok(secs)) => sub_floor(now_ms as int, (secs * 1000) as int),
            _ => 0,
        })
    } else {
        let window_is = |w: Window| since matches Some(Ok(secs)) && w.secs == secs && w.start
            == sub_floor((now_ms / 1000) as int, secs as int);
        match args.key {
            Some(key) => p matches HistoryPlan::Versions { key: k, window } && k@ == key@ && (
            match window {
                Some(w) => window_is(w),
                None => since is None,
            }),
            None => if since is Some {
                p matches HistoryPlan::Changes(w) && window_is(w)
            } else {
                p matches HistoryPlan::Failed(m) && m@
                    == "provide a key (e.g., mati history gotcha:foo) or --since (e.g., mati history --since 7d)"@
            },
        }
    }
}

/// What is to be looked up.
pub fn plan_history(args: &HistoryArgs, now_ms: u64) -> (p: HistoryPlan)
    ensures
        plans(*args, now_ms, p),
{
    if args.limit == 0 {
        return HistoryPlan::Failed("--limit must be at least 1".to_owned());
    }
    let secs: Option<u64> = match &args.since {
        Some(s) => match civil::parse_since_duration(s.as_str()) {
            Ok(secs) => Some(secs),
            Err(e) => return HistoryPlan::Failed(e.message()),
        },
        None => None,
    };
    if args.enforcement {
        return match secs {
            Some(secs) => HistoryPlan::Events { since_ms: window_start(now_ms, secs) },
            None => HistoryPlan::Events { since_ms: 0 },
        };
    }
    let window: Option<Window> = match secs {
        Some(secs) => Some(Window { secs, start: (now_ms / 1000).saturating_sub(secs) }),
        None => None,
    };
    match &args.key {
        Some(key) => HistoryPlan::Versions { key: key.clone(), window },
        None => match window {
            Some(w) => HistoryPlan::Changes(w),
            None => HistoryPlan::Failed(
                "provide a key (e.g., mati history gotcha:foo) or --since (e.g., mati history --since 7d)".to_owned(),
            ),
        },
    }
}

/// What is said of a record that has no versions, in a window where one was given.
pub fn no_versions(key: &str, secs: Option<u64>) -> (r: String)
    ensures
        r@ == "No history for '"@ + key@ + (match secs {
            Some(n) => "' in the last "@ + civil::span_text(n as nat) + "."@,
            None => "'."@,
        }),
{
    let tail = match secs {
        Some(n) => "' in the last ".to_owned().concat(civil::duration_label(n).as_str()).concat(
            ".",
        ),
        None => "'.".to_owned(),
    };
    "No history for '".to_owned().concat(key).concat(tail.as_str())
}

/// What is said of a window in which no record changed.
pub fn no_changes(secs: u64) -> (r: String)
    ensures
        r@ == "No records changed in the last "@ + civil::span_text(secs as nat) + "."@,
{
    "No records changed in the last ".to_owned().concat(
        civil::duration_label(secs).as_str(),
    ).concat(".")
}

/// The heading of the records that changed in a window.
pub fn changes_header(secs: u64, n: u64) -> (r: String)
    ensures
        r@ == "Records changed in the last "@ + civil::span_text(secs as nat) + "  ("@ + text::dec(
            n as nat,
        ) + " total)"@,
{
    "Records changed in the last ".to_owned().concat(civil::duration_label(secs).as_str()).concat(
        "  (",
    ).concat(text::decimal(n).as_str()).concat(" total)")
}

/// The cells of a record that changed.
pub open spec fn change_cells(
    key: Seq<char>,
    updated_at: nat,
    source: RecordSource,
    confidence: Seq<char>,
    value: Seq<char>,
) -> Seq<Seq<char>> {
    seq![
        key,
        civil::ts_minute(updated_at),
        record::source_layer(source),
        confidence,
        record::truncated(value, 40),
    ]
}

pub fn change_row(
    key: &str,
    updated_at: u64,
    source: &RecordSource,
    confidence: &str,
    value: &str,
) -> (cells: Vec<String>)
    ensures
        text::texts(cells@) == change_cells(
            key@,
            updated_at as nat,
            *source,
            confidence@,
            value@,
        ),
{
    let mut out: Vec<String> = Vec::new();
    text::push_line(&mut out, key.to_owned());
    text::push_line(&mut out, civil::format_ts_short(updated_at));
    text::push_line(&mut out, record::source_short_label(source).to_owned());
    text::push_line(&mut out, confidence.to_owned());
    text::push_line(&mut out, record::truncate(value, 40));
    assert(text::texts(out@) =~= change_cells(
        key@,
        updated_at as nat,
        *source,
        confidence@,
        value@,
    ));
    out
}

#[derive(Debug, PartialEq, Eq)]
pub struct VersionRecord {
    pub created_at: u64,
    pub updated_at: u64,
    pub source: RecordSource,
    pub value: String,
    /// Confidence and quality with two decimals.
    pub confidence: String,
    pub quality: String,
    pub logical_clock: u64,
}

#[derive(Debug, PartialEq, Eq)]
pub struct HistoryEntry {
    pub timestamp_secs: u64,
    pub is_tombstone: bool,
    /// The record at that time, where it could be read.
    pub record: Option<VersionRecord>,
}

/// The lines of one readable version. The preview of the value is left out where
/// it is empty, except for the newest version.
pub open spec fn version_lines(e: HistoryEntry, v: VersionRecord, newest: bool, on: bool) -> Seq<
    Seq<char>,
> {
    let gray = colors::shade(on, colors::GRAY@);
    let reset = colors::shade(on, colors::RESET@);
    let created = v.created_at == v.updated_at;
    let action = colors::shade(
        on,
        if created {
            colors::GREEN@
        } else {
            colors::YELLOW@
        },
    );
    let preview = record::truncated(v.value@, 60);
    seq![
        "  "@ + action + "*"@ + reset + "  "@ + gray + civil::ts_minute(e.timestamp_secs as nat)
            + reset + "  "@ + action + (if created {
            "created"@
        } else {
            "updated"@
        }) + reset + "  "@ + gray + record::source_layer(v.source) + reset,
    ] + (if newest || preview.len() > 0 {
        seq!["     "@ + colors::shade(on, colors::WHITE@) + preview + reset]
    } else {
        Seq::<Seq<char>>::empty()
    }) + seq![
        "     "@ + gray + "conf="@ + v.confidence@ + "  qual="@ + v.quality@ + "  clock="@
            + text::dec(v.logical_clock as nat) + reset,
    ]
}

/// The lines of one entry: a deletion, a version, or one that cannot be read.
pub open spec fn entry_lines(e: HistoryEntry, newest: bool, on: bool) -> Seq<Seq<char>> {
    let gray = colors::shade(on, colors::GRAY@);
    let reset = colors::shade(on, colors::RESET@);
    let ts = civil::ts_minute(e.timestamp_secs as nat);
    if e.is_tombstone {
        let red = colors::shade(on, colors::RED@);
        seq![
            "  "@ + red + "x"@ + reset + "  "@ + gray + ts + reset + "  "@ + red + "deleted"@
                + reset,
        ]
    } else {
        match e.record {
            Some(v) => version_lines(e, v, newest, on),
            None => {
                let yellow = colors::shade(on, colors::YELLOW@);
                seq![
                    "  "@ + yellow + "?"@ + reset + "  "@ + gray + ts + reset + "  "@ + yellow
                        + "unreadable version"@ + reset,
                ]
            },
        }
    }
}

fn push_version(out: &mut Vec<String>, e: &HistoryEntry, v: &VersionRecord, newest: bool, on: bool)
    ensures
        text::texts(final(out)@) == text::texts(old(out)@) + version_lines(*e, *v, newest, on),
{
    let ghost head = text::texts(out@);
    let gray = colors::tint(on, colors::GRAY);
    let reset = colors::tint(on, colors::RESET);
    let created = v.created_at == v.updated_at;
    let action = colors::tint(
        on,
        if created {
            colors::GREEN
        } else {
            colors::YELLOW
        },
    );
    let ts = civil::format_ts_short(e.timestamp_secs);
    text::push_line(
        out,
        "  ".to_owned().concat(action).concat("*").concat(reset).concat("  ").concat(gray).concat(
            ts.as_str(),
        ).concat(reset).concat("  ").concat(action).concat(
            if created {
                "created"
            } else {
                "updated"
            },
        ).concat(reset).concat("  ").concat(gray).concat(
            record::source_short_label(&v.source),
        ).concat(reset),
    );
    let preview = record::truncate(v.value.as_str(), 60);
    if newest || !preview.as_str().is_empty() {
        text::push_line(
            out,
            "     ".to_owned().concat(colors::tint(on, colors::WHITE)).concat(
                preview.as_str(),
            ).concat(reset),
        );
    }
    text::push_line(
        out,
        "     ".to_owned().concat(gray).concat("conf=").concat(v.confidence.as_str()).concat(
            "  qual=",
        ).concat(v.quality.as_str()).concat("  clock=").concat(
            text::decimal(v.logical_clock).as_str(),
        ).concat(reset),
    );
    assert(text::texts(out@) =~= head + version_lines(*e, *v, newest, on));
}

fn push_entry(out: &mut Vec<String>, e: &HistoryEntry, newest: bool, on: bool)
    ensures
        text::texts(final(out)@) == text::texts(old(out)@) + entry_lines(*e, newest, on),
{
    let ghost head = text::texts(out@);
    let gray = colors::tint(on, colors::GRAY);
    let reset = colors::tint(on, colors::RESET);
    let ts = civil::format_ts_short(e.timestamp_secs);
    if e.is_tombstone {
        let red = colors::tint(on, colors::RED);
        text::push_line(
            out,
            "  ".to_owned().concat(red).concat("x").concat(reset).concat("  ").concat(
                gray,
            ).concat(ts.as_str()).concat(reset).concat("  ").concat(red).concat("deleted").concat(
                reset,
            ),
        );
    } else {
        match &e.record {
            Some(v) => push_version(out, e, v, newest, on),
            None => {
                let yellow = colors::tint(on, colors::YELLOW);
                text::push_line(
                    out,
                    "  ".to_owned().concat(yellow).concat("?").concat(reset).concat("  ").concat(
                        gray,
                    ).concat(ts.as_str()).concat(reset).concat("  ").concat(yellow).concat(
                        "unreadable version",
                    ).concat(reset),
                );
            },
        }
    }
    assert(text::texts(out@) =~= head + entry_lines(*e, newest, on));
}

/// The lines of the first `n` entries of a timeline, with a bar between two.
pub open spec fn timeline_body(entries: Seq<HistoryEntry>, on: bool, n: int) -> Seq<Seq<char>>
    decreases n,
{
    if n <= 0 {
        Seq::empty()
    } else {
        timeline_body(entries, on, n - 1) + entry_lines(entries[n - 1], n == 1, on) + bar(
            n < entries.len(),
            on,
        )
    }
}

/// The bar between two entries.
pub open spec fn bar(shown: bool, on: bool) -> Seq<Seq<char>> {
    if shown {
        seq!["  "@ + colors::shade(on, colors::GRAY@) + "|"@ + colors::shade(on, colors::RESET@)]
    } else {
        Seq::empty()
    }
}

fn push_bar(out: &mut Vec<String>, shown: bool, on: bool)
    ensures
        text::texts(final(out)@) == text::texts(old(out)@) + bar(shown, on),
{
    let ghost head = text::texts(out@);
    if shown {
        text::push_line(
            out,
            "  ".to_owned().concat(colors::tint(on, colors::GRAY)).concat("|").concat(
                colors::tint(on, colors::RESET),
            ),
        );
    }
    assert(text::texts(out@) =~= head + bar(shown, on));
}

/// The timeline of a record.
pub open spec fn timeline_lines(key: Seq<char>, entries: Seq<HistoryEntry>, on: bool) -> Seq<
    Seq<char>,
> {
    let bold = colors::shade(on, colors::BOLD@);
    let reset = colors::shade(on, colors::RESET@);
    seq![
        ""@,
        bold + colors::shade(on, colors::BLUE@) + "history"@ + reset + "  "@ + bold + colors::shade(
            on,
            colors::WHITE@,
        ) + key + reset + "  "@ + colors::shade(on, colors::GRAY@) + "("@ + text::dec(entries.len())
            + " version"@ + (if entries.len() == 1 {
            ""@
        } else {
            "s"@
        }) + ")"@ + reset,
        ""@,
    ] + timeline_body(entries, on, entries.len() as int) + seq![""@]
}

fn push_body(out: &mut Vec<String>, entries: &Vec<HistoryEntry>, on: bool)
    ensures
        text::texts(final(out)@) == text::texts(old(out)@) + timeline_body(
            entries@,
            on,
            entries@.len() as int,
        ),
{
    let ghost head = text::texts(out@);
    let mut i: usize = 0;
    assert(head + timeline_body(entries@, on, 0) =~= head);
    while i < entries.len()
        invariant
            i <= entries.len(),
            text::texts(out@) == head + timeline_body(entries@, on, i as int),
        decreases entries.len() - i,
    {
        push_entry(out, &entries[i], i == 0, on);
        push_bar(out, i < entries.len() - 1, on);
        proof {
            text::lemma_append_two(
                head,
                timeline_body(entries@, on, i as int),
                entry_lines(entries@[i as int], i == 0, on),
                bar(i < entries@.len() - 1, on),
            );
        }
        i = i + 1;
    }
}

pub fn render_timeline(key: &str, entries: &Vec<HistoryEntry>, on: bool) -> (r: Vec<String>)
    ensures
        text::texts(r@) == timeline_lines(key@, entries@, on),
{
    let mut out: Vec<String> = Vec::new();
    let bold = colors::tint(on, colors::BOLD);
    let reset = colors::tint(on, colors::RESET);
    text::push_line(&mut out, "".to_owned());
    text::push_line(
        &mut out,
        bold.to_owned().concat(colors::tint(on, colors::BLUE)).concat("history").concat(
            reset,
        ).concat("  ").concat(bold).concat(colors::tint(on, colors::WHITE)).concat(key).concat(
            reset,
        ).concat("  ").concat(colors::tint(on, colors::GRAY)).concat("(").concat(
            text::decimal(entries.len() as u64).as_str(),
        ).concat(" version").concat(
            if entries.len() == 1 {
                ""
            } else {
                "s"
            },
        ).concat(")").concat(reset),
    );
    text::push_line(&mut out, "".to_owned());
    let ghost head = text::texts(out@);
    push_body(&mut out, entries, on);
    text::push_line(&mut out, "".to_owned());
    assert(text::texts(out@) =~= timeline_lines(key@, entries@, on));
    out
}

// ---------------------------------------------------------------------------
// What the history is for
// ---------------------------------------------------------------------------

proof fn lemma_wanted_positions(
    events: Seq<EnforcementEvent>,
    since_ms: u64,
    kind: Option<Seq<char>>,
    file: Option<Seq<char>>,
    n: int,
)
    requires
        0 <= n <= events.len(),
    ensures
        forall|k: int| #[trigger]
            wanted_positions(events, since_ms, kind, file, n).contains(k) <==> 0 <= k < n && wanted(
                events[k],
                since_ms,
                kind,
                file,
            ),
        forall|a: int, b: int|
            0 <= a < b < wanted_positions(events, since_ms, kind, file, n).len()
                ==> #[trigger] wanted_positions(events, since_ms, kind, file, n)[a]
                < #[trigger] wanted_positions(events, since_ms, kind, file, n)[b],
    decreases n,
{
    if n > 0 {
        lemma_wanted_positions(events, since_ms, kind, file, n - 1);
        let before = wanted_positions(events, since_ms, kind, file, n - 1);
        let all = wanted_positions(events, since_ms, kind, file, n);
        assert forall|k: int| #[trigger]
            all.contains(k) <==> 0 <= k < n && wanted(events[k], since_ms, kind, file) by {
            if all.contains(k) {
                let j = choose|j: int| 0 <= j < all.len() && all[j] == k;
                if j < before.len() {
                    assert(before[j] == k);
                    assert(before.contains(k));
                }
            }
            if before.contains(k) {
                let j = choose|j: int| 0 <= j < before.len() && before[j] == k;
                assert(all[j] == k);
            }
            if k == n - 1 && wanted(events[k], since_ms, kind, file) {
                assert(all[before.len() as int] == k);
            }
        }
        assert forall|a: int, b: int| 0 <= a < b < all.len() implies #[trigger] all[a]
            < #[trigger] all[b] by {
            if b < before.len() {
                assert(before[a] < before[b]);
            } else {
                assert(before.contains(before[a]));
            }
        }
    }
}

/// The events that are shown are recent enough and match what was asked for, in the
/// order of the log. Where there are more than the limit, the latest are shown.
pub proof fn law_latest_matching_events_are_shown(
    events: Seq<EnforcementEvent>,
    since_ms: u64,
    kind: Option<Seq<char>>,
    file: Option<Seq<char>>,
    limit: nat,
    r: Seq<int>,
)
    requires
        r == tail(
            wanted_positions(events, since_ms, kind, file, events.len() as int),
            limit,
        ),
    ensures
        r.len() <= limit,
        forall|i: int|
            0 <= i < r.len() ==> {
                &&& 0 <= #[trigger] r[i] < events.len()
                &&& events[r[i]].recorded_at_ms >= since_ms
                &&& kind matches Some(k) ==> text::text_contains(events[r[i]].type_label@, k)
                &&& file matches Some(f) ==> text::text_contains(events[r[i]].subject_key@, f)
            },
        forall|i: int, j: int| 0 <= i < j < r.len() ==> #[trigger] r[i] < #[trigger] r[j],
        forall|x: int|
            0 <= x < events.len() && (#[trigger] events[x]).recorded_at_ms >= since_ms && (
            kind matches Some(k) ==> text::text_contains(events[x].type_label@, k)) && (
            file matches Some(f) ==> text::text_contains(events[x].subject_key@, f))
                ==> r.contains(x) || (r.len() == limit && forall|i: int|
                0 <= i < r.len() ==> x < #[trigger] r[i]),
{
    let w = wanted_positions(events, since_ms, kind, file, events.len() as int);
    lemma_wanted_positions(events, since_ms, kind, file, events.len() as int);
    let off = if w.len() <= limit {
        0int
    } else {
        w.len() - limit
    };
    assert forall|i: int| 0 <= i < r.len() implies #[trigger] r[i] == w[i + off] && w.contains(
        r[i],
    ) by {
        assert(w[i + off] == r[i]);
    }
    assert forall|i: int| 0 <= i < r.len() implies {
        &&& 0 <= #[trigger] r[i] < events.len()
        &&& events[r[i]].recorded_at_ms >= since_ms
        &&& kind matches Some(k) ==> text::text_contains(events[r[i]].type_label@, k)
        &&& file matches Some(f) ==> text::text_contains(events[r[i]].subject_key@, f)
    } by {
        assert(w.contains(r[i]));
        assert(wanted(events[r[i]], since_ms, kind, file));
    }
    assert forall|x: int|
        0 <= x < events.len() && (#[trigger] events[x]).recorded_at_ms >= since_ms && (
        kind matches Some(k) ==> text::text_contains(events[x].type_label@, k)) && (
        file matches Some(f) ==> text::text_contains(events[x].subject_key@, f)) implies r.contains(
        x,
    ) || (r.len() == limit && forall|i: int| 0 <= i < r.len() ==> x < #[trigger] r[i]) by {
        assert(wanted(events[x], since_ms, kind, file));
        assert(w.contains(x));
        let j = choose|j: int| 0 <= j < w.len() && w[j] == x;
        if j >= off {
            assert(r[j - off] == x);
        } else {
            assert forall|i: int| 0 <= i < r.len() implies x < #[trigger] r[i] by {
                assert(w[j] < w[i + off]);
            }
        }
    }
}

/// Whether a period of `length` that ends now begins at `start`: that long before now,
/// or at the beginning where now does not lie that far.
pub open spec fn reaches_back(start: int, length: int, now: int) -> bool {
    &&& length <= now ==> start + length == now
    &&& length > now ==> start == 0
}

/// A limit of nothing and a period that cannot be read are refused, and so is asking
/// for neither a record, nor a period, nor the events. Otherwise the events are
/// shown where they were asked for, else the versions of the record, else what
/// changed; a period reaches back from now, at most to the beginning.
pub proof fn law_plan_follows_what_was_asked(args: HistoryArgs, now_ms: u64, p: HistoryPlan)
    requires
        plans(args, now_ms, p),
    ensures
        p is Failed <==> {
            ||| args.limit == 0
            ||| (args.since matches Some(s) && civil::read_span(s@) is Err)
            ||| (!args.enforcement && args.key is None && args.since is None)
        },
        !(p is Failed) ==> (p is Events <==> args.enforcement),
        !(p is Failed) ==> (p is Versions <==> !args.enforcement && args.key is Some),
        !(p is Failed) ==> (p is Changes <==> !args.enforcement && args.key is None),
        p matches HistoryPlan::Versions { key, window } ==> args.key->0@ == key@ && (window is Some
            <==> args.since is Some),
        p matches HistoryPlan::Versions { key, window: Some(w) } ==> reaches_back(
            w.start as int,
            w.secs as int,
            (now_ms / 1000) as int,
        ),
        p matches HistoryPlan::Changes(w) ==> reaches_back(
            w.start as int,
            w.secs as int,
            (now_ms / 1000) as int,
        ),
        p matches HistoryPlan::Versions { key, window: Some(w) } ==> (args.since matches Some(s)
            && civil::read_span(s@) == Ok::<nat, Seq<char>>(w.secs as nat)),
        p matches HistoryPlan::Changes(w) ==> (args.since matches Some(s) && civil::read_span(s@)
            == Ok::<nat, Seq<char>>(w.secs as nat)),
        p matches HistoryPlan::Events { since_ms } ==> (args.since is None ==> since_ms == 0) && (
        args.since matches Some(s) ==> (civil::read_span(s@) matches Ok(secs) && reaches_back(
            since_ms as int,
            (secs * 1000) as int,
            now_ms as int,
        ))),
{
}

/// A version tells what was done: a deletion, a version that cannot be read, the
/// record's creation or a later change.
pub proof fn law_entry_tells_what_was_done(e: HistoryEntry, newest: bool)
    ensures
        ({
            let first = entry_lines(e, newest, false)[0];
            &&& e.is_tombstone ==> "deleted"@.is_suffix_of(first) && entry_lines(
                e,
                newest,
                false,
            ).len() == 1
            &&& !e.is_tombstone && e.record is None ==> "unreadable version"@.is_suffix_of(first)
                && entry_lines(e, newest, false).len() == 1
            &&& !e.is_tombstone && (e.record matches Some(v) && v.created_at == v.updated_at)
                ==> text::text_contains(first, "  created  "@)
            &&& !e.is_tombstone && (e.record matches Some(v) && v.created_at != v.updated_at)
                ==> text::text_contains(first, "  updated  "@)
            &&& text::text_contains(first, civil::ts_minute(e.timestamp_secs as nat))
        }),
        !e.is_tombstone ==> (e.record matches Some(v) ==> ({
            let lines = entry_lines(e, newest, false);
            &&& record::source_layer(v.source).is_suffix_of(lines[0])
            &&& text::dec(v.logical_clock as nat).is_suffix_of(lines[lines.len() - 1])
            &&& v.value@.len() > 0 && record::truncated(v.value@, 60).len() > 0 ==> lines[1]
                == "     "@ + record::truncated(v.value@, 60)
        })),
{
    let none = Seq::<char>::empty();
    colors::law_painting_keeps_the_text(colors::GRAY@, none);
    colors::law_painting_keeps_the_text(colors::RED@, none);
    colors::law_painting_keeps_the_text(colors::YELLOW@, none);
    colors::law_painting_keeps_the_text(colors::GREEN@, none);
    colors::law_painting_keeps_the_text(colors::WHITE@, none);
    colors::law_painting_keeps_the_text(colors::RESET@, none);
    let lines = entry_lines(e, newest, false);
    let first = lines[0];
    let ts = civil::ts_minute(e.timestamp_secs as nat);
    reveal_strlit("  ");
    if e.is_tombstone {
        let w = "deleted"@;
        assert(first.subrange(first.len() - w.len(), first.len() as int) =~= w);
        let head = "  "@ + "x"@ + "  "@;
        assert(first =~= head + ts + ("  "@ + w));
        text::lemma_part_occurs(head, ts, "  "@ + w);
    } else {
        match e.record {
            None => {
                let w = "unreadable version"@;
                assert(first.subrange(first.len() - w.len(), first.len() as int) =~= w);
                let head = "  "@ + "?"@ + "  "@;
                assert(first =~= head + ts + ("  "@ + w));
                text::lemma_part_occurs(head, ts, "  "@ + w);
            },
            Some(v) => {
                let word = if v.created_at == v.updated_at {
                    "created"@
                } else {
                    "updated"@
                };
                reveal_strlit("created");
                reveal_strlit("updated");
                reveal_strlit("  created  ");
                reveal_strlit("  updated  ");
                let mid = "  "@ + word + "  "@;
                assert(mid =~= (if v.created_at == v.updated_at {
                    "  created  "@
                } else {
                    "  updated  "@
                }));
                let layer = record::source_layer(v.source);
                let head = "  "@ + "*"@ + "  "@;
                assert(first =~= head + ts + (mid + layer));
                text::lemma_part_occurs(head, ts, mid + layer);
                assert(first =~= (head + ts) + mid + layer);
                text::lemma_part_occurs(head + ts, mid, layer);
                assert(first.subrange(first.len() - layer.len(), first.len() as int) =~= layer);
                let last = lines[lines.len() - 1];
                let d = text::dec(v.logical_clock as nat);
                assert(last.subrange(last.len() - d.len(), last.len() as int) =~= d);
                if record::truncated(v.value@, 60).len() > 0 {
                    assert(lines[1] =~= "     "@ + record::truncated(v.value@, 60));
                }
            },
        }
    }
}

/// A cell that fits begins with its text and is filled with blanks; one that does
/// not ends in three dots.
pub proof fn law_columns_keep_the_start(s: Seq<char>, max: nat)
    ensures
        text::byte_len(s) <= max ==> s.is_prefix_of(column(s, max)) && column(s, max).len()
            >= max,
        text::byte_len(s) > max ==> "..."@.is_suffix_of(column(s, max)) && show::byte_head(
            s,
            max - 3,
        ).is_prefix_of(column(s, max)),
{
    let c = column(s, max);
    if text::byte_len(s) <= max {
        text::law_padding_fills_with_blanks(s, max);
        assert(c.subrange(0, s.len() as int) =~= s);
    } else {
        let h = show::byte_head(s, max - 3);
        let d = "..."@;
        assert(c.subrange(0, h.len() as int) =~= h);
        assert(c.subrange(c.len() - d.len(), c.len() as int) =~= d);
    }
}

/// A row of the log shows the type of the event and ends with the reason; a refusal
/// is red, and what was let through green.
pub proof fn law_event_row_tells_the_event(e: EnforcementEvent, time: Option<Seq<char>>)
    ensures
        e.reason_code@.is_suffix_of(event_row_text(e, time, false)),
        text::text_contains(event_row_text(e, time, false), e.type_label@),
        time matches Some(t) ==> text::text_contains(event_row_text(e, time, false), t),
        text::byte_len(e.subject_key@) <= 30 ==> text::text_contains(
            event_row_text(e, time, false),
            e.subject_key@,
        ),
        e.class is Deny ==> event_shade(e.class) == "\x1b[31m"@,
        e.class is AllowAfterReceipt ==> event_shade(e.class) == "\x1b[32m"@,
        e.class is RecordingGap ==> event_shade(e.class) == "\x1b[33m"@,
{
    let none = Seq::<char>::empty();
    let row = event_row_text(e, time, false);
    colors::law_painting_keeps_the_text("\x1b[0m"@, none);
    colors::law_painting_keeps_the_text(event_shade(e.class), none);
    let reason = e.reason_code@;
    assert(row.subrange(row.len() - reason.len(), row.len() as int) =~= reason);
    let n = text::padded_left(text::dec(e.seq_no as nat), 6) + "  "@;
    let t = match time {
        Some(t) => t,
        None => "?"@,
    };
    let label = e.type_label@;
    let fill = text::spaces(text::missing(label.len(), 16));
    let c = column(e.subject_key@, 30);
    let a = n + t + "  "@;
    let b = fill + "  "@ + c + "  "@ + reason;
    assert(row =~= a + label + b);
    text::lemma_part_occurs(a, label, b);
    assert(row =~= n + t + ("  "@ + label + b));
    text::lemma_part_occurs(n, t, "  "@ + label + b);
    if text::byte_len(e.subject_key@) <= 30 {
        let key = e.subject_key@;
        let h = a + label + fill + "  "@;
        let z = text::spaces(text::missing(key.len(), 30)) + "  "@ + reason;
        assert(row =~= h + key + z);
        text::lemma_part_occurs(h, key, z);
    }
}

/// The timeline brings every version of the record.
pub proof fn law_timeline_brings_every_version(
    key: Seq<char>,
    entries: Seq<HistoryEntry>,
    i: int,
    x: Seq<char>,
)
    requires
        0 <= i < entries.len(),
        entry_lines(entries[i], i == 0, false).contains(x),
    ensures
        timeline_lines(key, entries, false).contains(x),
        text::text_contains(timeline_lines(key, entries, false)[1], key),
{
    lemma_body_brings(entries, entries.len() as int, i, x);
    let all = timeline_lines(key, entries, false);
    let body = timeline_body(entries, false, entries.len() as int);
    let head = all.take(3);
    text::lemma_line_of_either(head, body, x);
    text::lemma_line_of_either(head + body, seq![""@], x);
    assert(all =~= head + body + seq![""@]);
    let none = Seq::<char>::empty();
    colors::law_painting_keeps_the_text(colors::GRAY@, none);
    colors::law_painting_keeps_the_text(colors::BLUE@, none);
    colors::law_painting_keeps_the_text(colors::BOLD@, none);
    colors::law_painting_keeps_the_text(colors::WHITE@, none);
    colors::law_painting_keeps_the_text(colors::RESET@, none);
    let a = "history"@ + "  "@;
    let b = "  "@ + "("@ + text::dec(entries.len()) + " version"@ + (if entries.len() == 1 {
        ""@
    } else {
        "s"@
    }) + ")"@;
    assert(all[1] =~= a + key + b);
    text::lemma_part_occurs(a, key, b);
}

proof fn lemma_body_brings(entries: Seq<HistoryEntry>, n: int, i: int, x: Seq<char>)
    requires
        0 <= i < n <= entries.len(),
        entry_lines(entries[i], i == 0, false).contains(x),
    ensures
        timeline_body(entries, false, n).contains(x),
    decreases n,
{
    let before = timeline_body(entries, false, n - 1);
    let own = entry_lines(entries[n - 1], n == 1, false);
    if i < n - 1 {
        lemma_body_brings(entries, n - 1, i, x);
    }
    text::lemma_line_of_either(before, own, x);
    text::lemma_line_of_either(before + own, bar(n < entries.len(), false), x);
}

/// A changed record is shown with its key, the time, where it comes from, how sure it
/// is and how its text begins.
pub proof fn law_change_row_tells_the_record(
    key: Seq<char>,
    updated_at: nat,
    source: RecordSource,
    confidence: Seq<char>,
    value: Seq<char>,
)
    ensures
        ({
            let c = change_cells(key, updated_at, source, confidence, value);
            &&& c.len() == 5 && c[0] == key && c[3] == confidence
            &&& updated_at > 0 ==> civil::ts_date(updated_at).is_prefix_of(c[1])
            &&& source is StaticAnalysis ==> c[2] == "L0"@
            &&& source is DeveloperManual ==> c[2] == "manual"@
            &&& value.len() <= 40 && !value.contains('\n') && (value.len() == 0 || value.last()
                != '\r') ==> c[4] == value
        }),
{
    if updated_at > 0 {
        civil::law_timestamp_texts_agree(updated_at);
    }
    if value.len() <= 40 && !value.contains('\n') && (value.len() == 0 || value.last() != '\r') {
        record::law_truncation_keeps_the_start(value, Seq::empty(), 40);
    }
}

/// Milliseconds beyond the signed range are taken for times before 1970, as two's
/// complement has it.
pub proof fn law_milliseconds_are_taken_signed(ms: u64)
    ensures
        i64::MIN <= signed_millis(ms) <= i64::MAX,
        ms <= i64::MAX ==> signed_millis(ms) == ms,
        ms > i64::MAX ==> signed_millis(ms) + 0x1_0000_0000_0000_0000 == ms,
{
}

/// In colour the creation of a record is green and a later change yellow; a bar parts a
/// version from the next one, and only from a next one.
pub proof fn law_versions_are_parted(e: HistoryEntry, v: VersionRecord, newest: bool)
    ensures
        v.created_at == v.updated_at ==> ("  "@ + colors::GREEN@ + "*"@).is_prefix_of(
            version_lines(e, v, newest, true)[0],
        ),
        v.created_at != v.updated_at ==> ("  "@ + colors::YELLOW@ + "*"@).is_prefix_of(
            version_lines(e, v, newest, true)[0],
        ),
        bar(true, false).len() == 1,
        bar(false, false).len() == 0,
{
    let l = version_lines(e, v, newest, true)[0];
    let h = "  "@ + (if v.created_at == v.updated_at {
        colors::GREEN@
    } else {
        colors::YELLOW@
    }) + "*"@;
    assert(l.subrange(0, h.len() as int) =~= h);
}

} // verus!
