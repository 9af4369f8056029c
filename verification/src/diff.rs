//! `mati diff`: what is known of the files that a change touches.
use vstd::prelude::*;
use crate::colors;
use crate::record;
use crate::record::{Priority, StalenessTier};
use crate::text;

verus! {

/// Arguments of `mati diff`.
#[derive(Debug, PartialEq, Eq)]
pub struct DiffArgs {
    /// A git ref or range; the working tree against HEAD where it is left out.
    pub range: Option<String>,
}

/// What is compared with.
pub fn diff_range(args: &DiffArgs) -> (r: String)
    ensures
        r@ == (match args.range {
            Some(s) => s@,
            None => "HEAD"@,
        }),
{
    match &args.range {
        Some(s) => s.clone(),
        None => "HEAD".to_owned(),
    }
}

/// Not being empty.
pub open spec fn is_filled() -> spec_fn(Seq<char>) -> bool {
    |l: Seq<char>| l.len() > 0
}

/// The files that git lists, one a line.
pub fn changed_files(stdout: &str) -> (r: Vec<String>)
    ensures
        text::texts(r@) == text::lines_of(stdout@).filter(is_filled()),
{
    let lines = text::lines(stdout);
    let ghost all = text::lines_of(stdout@);
    let ghost f = is_filled();
    let mut out: Vec<String> = Vec::new();
    let mut i: usize = 0;
    assert(all.take(0).filter(f) =~= Seq::<Seq<char>>::empty()) by {
        reveal(Seq::filter);
    }
    while i < lines.len()
        invariant
            i <= lines.len(),
            all == text::texts(lines@),
            f == is_filled(),
            text::texts(out@) =~= all.take(i as int).filter(f),
        decreases lines.len() - i,
    {
        proof {
            assert(all[i as int] == lines@[i as int]@);
            assert(all.take(i + 1) =~= all.take(i as int).push(all[i as int]));
            all.take(i as int).lemma_filter_push(all[i as int], f);
        }
        if !lines[i].as_str().is_empty() {
            text::push_line(&mut out, lines[i].clone());
        }
        i = i + 1;
    }
    assert(all.len() == lines@.len());
    assert(all.take(i as int) =~= all);
    out
}

// ---------------------------------------------------------------------------
// Rating a file
// ---------------------------------------------------------------------------

/// How much care a changed file needs.
#[derive(Debug, Clone, Copy, PartialEq, Eq, Structural)]
pub enum Severity {
    Critical,
    High,
    Normal,
    /// Nothing is known of it.
    Unknown,
}

pub open spec fn severity_text(s: Severity) -> Seq<char> {
    match s {
        Severity::Critical => "CRITICAL"@,
        Severity::High => "HIGH"@,
        Severity::Normal => "NORMAL"@,
        Severity::Unknown => "UNKNOWN"@,
    }
}

pub open spec fn severity_mark(s: Severity) -> Seq<char> {
    match s {
        Severity::Critical | Severity::High => "\u{25cf}"@,
        Severity::Normal => "\u{25cb}"@,
        Severity::Unknown => "?"@,
    }
}

impl Severity {
    pub fn label(self) -> (r: &'static str)
        ensures
            r@ == severity_text(self),
    {
        match self {
            Severity::Critical => "CRITICAL",
            Severity::High => "HIGH",
            Severity::Normal => "NORMAL",
            Severity::Unknown => "UNKNOWN",
        }
    }

    pub fn marker(self) -> (r: &'static str)
        ensures
            r@ == severity_mark(self),
    {
        match self {
            Severity::Critical | Severity::High => "\u{25cf}",
            Severity::Normal => "\u{25cb}",
            Severity::Unknown => "?",
        }
    }
}

/// A gotcha that a changed file refers to.
#[derive(Debug, PartialEq, Eq)]
pub struct DiffGotcha {
    pub active: bool,
    pub confirmed: bool,
    pub priority: Priority,
    pub tier: StalenessTier,
}

/// Being active and confirmed.
pub open spec fn counts() -> spec_fn(DiffGotcha) -> bool {
    |g: DiffGotcha| g.active && g.confirmed
}

/// The gotchas that count.
pub open spec fn confirmed(v: Seq<DiffGotcha>) -> Seq<DiffGotcha> {
    v.filter(counts())
}

pub open spec fn has_priority(v: Seq<DiffGotcha>, p: Priority) -> bool {
    exists|k: int| 0 <= k < v.len() && (#[trigger] v[k]).priority == p
}

/// The severity of a file with the given confirmed gotchas: any of them is worth
/// a warning.
pub open spec fn rating(v: Seq<DiffGotcha>) -> Severity {
    if has_priority(v, Priority::Critical) {
        Severity::Critical
    } else if v.len() == 0 {
        Severity::Normal
    } else {
        Severity::High
    }
}

pub open spec fn tier_weight(t: StalenessTier) -> nat {
    match t {
        StalenessTier::Tombstone => 3,
        StalenessTier::Liability => 2,
        StalenessTier::Stale => 1,
        _ => 0,
    }
}

/// The worst tier among the first `n` gotchas, where one of them is stale.
pub open spec fn worst_of(v: Seq<DiffGotcha>, n: int) -> Option<StalenessTier>
    decreases n,
{
    if n <= 0 {
        None
    } else {
        let before = worst_of(v, n - 1);
        let t = v[n - 1].tier;
        if tier_weight(t) == 0 {
            before
        } else {
            match before {
                Some(b) => if tier_weight(b) > tier_weight(t) {
                    Some(b)
                } else {
                    Some(t)
                },
                None => Some(t),
            }
        }
    }
}

fn weight(t: StalenessTier) -> (r: u8)
    ensures
        r == tier_weight(t),
{
    match t {
        StalenessTier::Tombstone => 3,
        StalenessTier::Liability => 2,
        StalenessTier::Stale => 1,
        _ => 0,
    }
}

/// No gotcha is worse than the worst, and the worst is the tier of one of them.
pub proof fn law_worst_tier_is_worst(v: Seq<DiffGotcha>, n: int)
    requires
        0 <= n <= v.len(),
    ensures
        match worst_of(v, n) {
            Some(w) => {
                &&& tier_weight(w) > 0
                &&& exists|k: int| 0 <= k < n && (#[trigger] v[k]).tier == w
                &&& forall|k: int| 0 <= k < n ==> tier_weight((#[trigger] v[k]).tier) <= tier_weight(w)
            },
            None => forall|k: int| 0 <= k < n ==> tier_weight((#[trigger] v[k]).tier) == 0,
        },
    decreases n,
{
    if n > 0 {
        law_worst_tier_is_worst(v, n - 1);
        assert(v[n - 1].tier == v[n - 1].tier);
    }
}

/// What is found out of a changed file.
#[derive(Debug, PartialEq, Eq)]
pub struct Row {
    pub path: String,
    pub severity: Severity,
    pub gotcha_count: u64,
    pub stale: Option<StalenessTier>,
}

/// What the store knows of a file.
#[derive(Debug, PartialEq, Eq)]
pub struct KnownFile {
    pub tier: StalenessTier,
    pub gotchas: Vec<DiffGotcha>,
}

/// Whether a row rates a file: one without a record is unknown; else its confirmed
/// gotchas decide, and the record's own staleness where it has none.
pub open spec fn rates(row: Row, path: Seq<char>, known: Option<KnownFile>) -> bool {
    &&& row.path@ == path
    &&& match known {
        None => row.severity == Severity::Unknown && row.gotcha_count == 0 && row.stale is None,
        Some(k) => {
            let c = confirmed(k.gotchas@);
            &&& row.severity == rating(c)
            &&& row.gotcha_count == c.len()
            &&& row.stale == (if c.len() > 0 {
                worst_of(c, c.len() as int)
            } else if record::is_stale_tier(k.tier) {
                Some(k.tier)
            } else {
                None
            })
        },
    }
}

/// Rates a changed file.
pub fn rate_file(path: &str, known: &Option<KnownFile>) -> (r: Row)
    ensures
        rates(r, path@, *known),
{
    let k = match known {
        None => {
            return Row {
                path: path.to_owned(),
                severity: Severity::Unknown,
                gotcha_count: 0,
                stale: None,
            };
        },
        Some(k) => k,
    };
    let v = &k.gotchas;
    let ghost f = counts();
    let mut count: u64 = 0;
    let mut critical = false;
    let mut worst: Option<StalenessTier> = None;
    let mut i: usize = 0;
    let ghost mut c: Seq<DiffGotcha> = Seq::empty();
    assert(v@.take(0).filter(f) =~= Seq::<DiffGotcha>::empty()) by {
        reveal(Seq::filter);
    }
    while i < v.len()
        invariant
            i <= v.len(),
            f == counts(),
            c == v@.take(i as int).filter(f),
            count == c.len(),
            count <= i,
            critical == has_priority(c, Priority::Critical),
            worst == worst_of(c, c.len() as int),
        decreases v.len() - i,
    {
        let g = &v[i];
        let ghost before = c;
        proof {
            assert(v@.take(i + 1) =~= v@.take(i as int).push(v@[i as int]));
            v@.take(i as int).lemma_filter_push(v@[i as int], f);
        }
        if g.active && g.confirmed {
            proof {
                c = c.push(*g);
                lemma_worst_of_prefix(before, *g, before.len() as int);
                assert forall|k: int| 0 <= k < before.len() implies c[k] == before[k] by {}
                assert(c[before.len() as int] == *g);
            }
            count = count + 1;
            if g.priority == Priority::Critical {
                critical = true;
                assert(c[before.len() as int].priority == Priority::Critical);
            } else {
                assert(has_priority(c, Priority::Critical) == has_priority(
                    before,
                    Priority::Critical,
                )) by {
                    if has_priority(before, Priority::Critical) {
                        let k = choose|k: int|
                            0 <= k < before.len() && (#[trigger] before[k]).priority
                                == Priority::Critical;
                        assert(c[k].priority == Priority::Critical);
                    }
                    if has_priority(c, Priority::Critical) {
                        let k = choose|k: int|
                            0 <= k < c.len() && (#[trigger] c[k]).priority == Priority::Critical;
                        assert(before[k].priority == Priority::Critical);
                    }
                }
            }
            if weight(g.tier) > 0 {
                worst = match worst {
                    Some(b) => if weight(b) > weight(g.tier) {
                        Some(b)
                    } else {
                        Some(g.tier)
                    },
                    None => Some(g.tier),
                };
            }
        }
        i = i + 1;
    }
    assert(v@.take(i as int) =~= v@);
    let severity = if critical {
        Severity::Critical
    } else if count == 0 {
        Severity::Normal
    } else {
        Severity::High
    };
    let stale = if count > 0 {
        worst
    } else {
        match k.tier {
            StalenessTier::Stale | StalenessTier::Liability | StalenessTier::Tombstone => Some(
                k.tier,
            ),
            _ => None,
        }
    };
    Row { path: path.to_owned(), severity, gotcha_count: count, stale }
}

proof fn lemma_worst_of_prefix(v: Seq<DiffGotcha>, g: DiffGotcha, n: int)
    requires
        0 <= n <= v.len(),
    ensures
        worst_of(v.push(g), n) == worst_of(v, n),
    decreases n,
{
    if n > 0 {
        lemma_worst_of_prefix(v, g, n - 1);
    }
}

// ---------------------------------------------------------------------------
// The report
// ---------------------------------------------------------------------------

pub open spec fn plural(n: nat) -> Seq<char> {
    if n == 1 {
        ""@
    } else {
        "s"@
    }
}

fn plural_end(n: u64) -> (r: &'static str)
    ensures
        r@ == plural(n as nat),
{
    if n == 1 {
        ""
    } else {
        "s"
    }
}

pub open spec fn stale_word(t: StalenessTier) -> Seq<char> {
    match t {
        StalenessTier::Stale => "Stale"@,
        StalenessTier::Liability => "Liability"@,
        StalenessTier::Tombstone => "Tombstone"@,
        _ => ""@,
    }
}

pub fn stale_label(t: StalenessTier) -> (r: &'static str)
    ensures
        r@ == stale_word(t),
{
    match t {
        StalenessTier::Stale => "Stale",
        StalenessTier::Liability => "Liability",
        StalenessTier::Tombstone => "Tombstone",
        _ => "",
    }
}

/// What is said of a file.
pub open spec fn status_text(r: Row) -> Seq<char> {
    let note = match r.stale {
        Some(t) => " (stale \u{2014} "@ + stale_word(t) + ")"@,
        None => ""@,
    };
    match r.severity {
        Severity::Critical | Severity::High => text::dec(r.gotcha_count as nat) + " gotcha"@ + plural(
            r.gotcha_count as nat,
        ) + note,
        Severity::Normal => "documented, no gotchas"@ + note,
        Severity::Unknown => "no file record"@,
    }
}

pub open spec fn mark_shade(s: Severity) -> Seq<char> {
    match s {
        Severity::Critical => colors::RED@,
        Severity::High => colors::YELLOW@,
        Severity::Normal => colors::GREEN@,
        Severity::Unknown => colors::GRAY@,
    }
}

pub open spec fn label_shade(s: Severity) -> Seq<char> {
    match s {
        Severity::Critical => colors::RED@,
        Severity::High => colors::YELLOW@,
        _ => colors::GRAY@,
    }
}

/// The line on a file; paths are padded to a width.
pub open spec fn row_text(r: Row, width: nat, on: bool) -> Seq<char> {
    "  "@ + colors::tinted(on, mark_shade(r.severity), severity_mark(r.severity)) + " "@
        + colors::tinted(
        on,
        label_shade(r.severity),
        text::padded_right(severity_text(r.severity), 8),
    ) + "  "@ + colors::tinted(on, colors::CYAN@, text::padded_right(r.path@, width)) + status_text(
        r,
    )
}

/// The longest path of the first `n` rows, in bytes.
pub open spec fn longest(rows: Seq<Row>, n: int) -> nat
    decreases n,
{
    if n <= 0 {
        0
    } else {
        let before = longest(rows, n - 1);
        let len = text::byte_len(rows[n - 1].path@);
        if before < len {
            len
        } else {
            before
        }
    }
}

pub open spec fn row_texts(rows: Seq<Row>, width: nat, on: bool, n: int) -> Seq<Seq<char>>
    decreases n,
{
    if n <= 0 {
        Seq::empty()
    } else {
        row_texts(rows, width, on, n - 1).push(row_text(rows[n - 1], width, on))
    }
}

/// How many of the first `n` rows have a severity that is counted together.
pub open spec fn tallied(rows: Seq<Row>, group: spec_fn(Severity) -> bool, n: int) -> nat
    decreases n,
{
    if n <= 0 {
        0
    } else {
        tallied(rows, group, n - 1) + (if group(rows[n - 1].severity) {
            1nat
        } else {
            0
        })
    }
}

pub open spec fn warned() -> spec_fn(Severity) -> bool {
    |s: Severity| s == Severity::Critical || s == Severity::High
}

pub open spec fn documented() -> spec_fn(Severity) -> bool {
    |s: Severity| s == Severity::Normal
}

pub open spec fn unknown() -> spec_fn(Severity) -> bool {
    |s: Severity| s == Severity::Unknown
}

/// The report on the changed files.
pub open spec fn diff_text(rows: Seq<Row>, on: bool) -> Seq<Seq<char>> {
    let n = rows.len() as int;
    let u = tallied(rows, unknown(), n);
    seq![
        ""@,
        "  "@ + colors::tinted(
            on,
            colors::BLUE@,
            "PRE-MERGE CHECK \u{2014} "@ + text::dec(rows.len()) + " file"@ + plural(rows.len())
                + " changed"@,
        ),
        ""@,
    ] + row_texts(rows, longest(rows, n) + 4, on, n) + seq![
        ""@,
        "  "@ + colors::tinted(on, colors::BLUE@, "Summary:"@) + " "@ + text::dec(
            tallied(rows, warned(), n),
        ) + " warned \u{b7} "@ + text::dec(tallied(rows, documented(), n)) + " documented \u{b7} "@
            + text::dec(u) + " unknown"@,
    ] + (if u > 0 {
        seq![
            "  "@ + colors::tinted(
                on,
                colors::GRAY@,
                "Run `mati explain <file>` for a full briefing on any file above."@,
            ),
        ]
    } else {
        Seq::empty()
    }) + seq![""@]
}

fn row_line(r: &Row, width: usize, on: bool) -> (s: String)
    ensures
        s@ == row_text(*r, width as nat, on),
{
    let (mark, label) = match r.severity {
        Severity::Critical => (colors::RED, colors::RED),
        Severity::High => (colors::YELLOW, colors::YELLOW),
        Severity::Normal => (colors::GREEN, colors::GRAY),
        Severity::Unknown => (colors::GRAY, colors::GRAY),
    };
    let note = match r.stale {
        Some(t) => " (stale \u{2014} ".to_owned().concat(stale_label(t)).concat(")"),
        None => "".to_owned(),
    };
    let status = match r.severity {
        Severity::Critical | Severity::High => text::decimal(r.gotcha_count).concat(
            " gotcha",
        ).concat(plural_end(r.gotcha_count)).concat(note.as_str()),
        Severity::Normal => "documented, no gotchas".to_owned().concat(note.as_str()),
        Severity::Unknown => "no file record".to_owned(),
    };
    let padded = text::pad_right(r.severity.label(), 8);
    let path = text::pad_right(r.path.as_str(), width);
    "  ".to_owned().concat(colors::paint(on, mark, r.severity.marker()).as_str()).concat(" ").concat(
        colors::paint(on, label, padded.as_str()).as_str(),
    ).concat("  ").concat(colors::paint(on, colors::CYAN, path.as_str()).as_str()).concat(
        status.as_str(),
    )
}

fn column_width(rows: &Vec<Row>) -> (r: usize)
    requires
        longest(rows@, rows@.len() as int) + 4 <= usize::MAX,
    ensures
        r == longest(rows@, rows@.len() as int) + 4,
{
    let mut w: usize = 0;
    let mut i: usize = 0;
    while i < rows.len()
        invariant
            i <= rows.len(),
            w == longest(rows@, i as int),
        decreases rows.len() - i,
    {
        let len = text::bytes_in(rows[i].path.as_str());
        if w < len {
            w = len;
        }
        i = i + 1;
    }
    w + 4
}

fn push_rows(out: &mut Vec<String>, rows: &Vec<Row>, width: usize, on: bool)
    ensures
        text::texts(final(out)@) == text::texts(old(out)@) + row_texts(
            rows@,
            width as nat,
            on,
            rows@.len() as int,
        ),
{
    let ghost head = text::texts(out@);
    let mut i: usize = 0;
    assert(head + row_texts(rows@, width as nat, on, 0) =~= head);
    while i < rows.len()
        invariant
            i <= rows.len(),
            text::texts(out@) == head + row_texts(rows@, width as nat, on, i as int),
        decreases rows.len() - i,
    {
        let ghost before = row_texts(rows@, width as nat, on, i as int);
        text::push_line(out, row_line(&rows[i], width, on));
        assert((head + before).push(row_text(rows@[i as int], width as nat, on)) =~= head
            + before.push(row_text(rows@[i as int], width as nat, on)));
        i = i + 1;
    }
}

/// The files to be warned of, the documented ones and the unknown ones.
pub fn tally(rows: &Vec<Row>) -> (r: (u64, u64, u64))
    ensures
        r.0 == tallied(rows@, warned(), rows@.len() as int),
        r.1 == tallied(rows@, documented(), rows@.len() as int),
        r.2 == tallied(rows@, unknown(), rows@.len() as int),
        r.0 + r.1 + r.2 == rows@.len(),
{
    let mut w: u64 = 0;
    let mut d: u64 = 0;
    let mut u: u64 = 0;
    let mut i: usize = 0;
    while i < rows.len()
        invariant
            i <= rows.len(),
            w == tallied(rows@, warned(), i as int),
            d == tallied(rows@, documented(), i as int),
            u == tallied(rows@, unknown(), i as int),
            w + d + u == i,
        decreases rows.len() - i,
    {
        match rows[i].severity {
            Severity::Critical | Severity::High => {
                w = w + 1;
            },
            Severity::Normal => {
                d = d + 1;
            },
            Severity::Unknown => {
                u = u + 1;
            },
        }
        i = i + 1;
    }
    (w, d, u)
}

/// The lines of the report.
pub fn diff_report(rows: &Vec<Row>, on: bool) -> (r: Vec<String>)
    requires
        longest(rows@, rows@.len() as int) + 4 <= usize::MAX,
    ensures
        text::texts(r@) == diff_text(rows@, on),
{
    let mut out: Vec<String> = Vec::new();
    let n = rows.len() as u64;
    text::push_line(&mut out, "".to_owned());
    let title = "PRE-MERGE CHECK \u{2014} ".to_owned().concat(text::decimal(n).as_str()).concat(
        " file",
    ).concat(plural_end(n)).concat(" changed");
    text::push_line(
        &mut out,
        "  ".to_owned().concat(colors::paint(on, colors::BLUE, title.as_str()).as_str()),
    );
    text::push_line(&mut out, "".to_owned());
    let ghost first = text::texts(out@);
    let width = column_width(rows);
    push_rows(&mut out, rows, width, on);
    let (w, d, u) = tally(rows);
    text::push_line(&mut out, "".to_owned());
    text::push_line(
        &mut out,
        "  ".to_owned().concat(colors::paint(on, colors::BLUE, "Summary:").as_str()).concat(
            " ",
        ).concat(text::decimal(w).as_str()).concat(" warned \u{b7} ").concat(
            text::decimal(d).as_str(),
        ).concat(" documented \u{b7} ").concat(text::decimal(u).as_str()).concat(" unknown"),
    );
    if u > 0 {
        text::push_line(
            &mut out,
            "  ".to_owned().concat(
                colors::paint(
                    on,
                    colors::GRAY,
                    "Run `mati explain <file>` for a full briefing on any file above.",
                ).as_str(),
            ),
        );
    }
    text::push_line(&mut out, "".to_owned());
    assert(text::texts(out@) =~= diff_text(rows@, on));
    out
}

// ---------------------------------------------------------------------------
// What a rating is for
// ---------------------------------------------------------------------------

proof fn lemma_counting_gotcha(v: Seq<DiffGotcha>)
    ensures
        confirmed(v).len() > 0 <==> exists|k: int|
            0 <= k < v.len() && (#[trigger] v[k]).active && v[k].confirmed,
        forall|i: int|
            0 <= i < confirmed(v).len() ==> exists|k: int|
                0 <= k < v.len() && #[trigger] v[k] == #[trigger] confirmed(v)[i] && v[k].active
                    && v[k].confirmed,
        forall|k: int|
            0 <= k < v.len() && (#[trigger] v[k]).active && v[k].confirmed ==> confirmed(
                v,
            ).contains(v[k]),
{
    let f = counts();
    let c = confirmed(v);
    assert forall|i: int| 0 <= i < c.len() implies exists|k: int|
        0 <= k < v.len() && #[trigger] v[k] == #[trigger] c[i] && v[k].active && v[k].confirmed by {
        v.lemma_filter_pred(f, i);
        assert(c.contains(c[i]));
        v.lemma_filter_contains_rev(f, c[i]);
        let k = choose|k: int| 0 <= k < v.len() && v[k] == c[i];
        assert(v[k].active && v[k].confirmed);
    }
    assert forall|k: int|
        0 <= k < v.len() && (#[trigger] v[k]).active && v[k].confirmed implies c.contains(v[k]) by {
        v.lemma_filter_contains(f, k);
    }
    if c.len() > 0 {
        let k = choose|k: int|
            0 <= k < v.len() && #[trigger] v[k] == c[0] && v[k].active && v[k].confirmed;
        assert(v[k].active && v[k].confirmed);
    }
}

/// A file is unknown exactly where the store has no record of it. A known file is
/// normal exactly where no active, confirmed gotcha is on it; else it is critical
/// exactly where one of those is, and high otherwise. Its count is the number of
/// those gotchas, so it is warned of exactly where that is above 0.
pub proof fn law_confirmed_gotchas_are_warned_of(
    row: Row,
    path: Seq<char>,
    known: Option<KnownFile>,
)
    requires
        rates(row, path, known),
    ensures
        row.path@ == path,
        row.severity == Severity::Unknown <==> known is None,
        row.severity == Severity::Critical || row.severity == Severity::High <==> row.gotcha_count
            > 0,
        warned()(row.severity) <==> row.gotcha_count > 0,
        documented()(row.severity) <==> known is Some && row.gotcha_count == 0,
        unknown()(row.severity) <==> known is None,
        known matches Some(k) ==> {
            let v = k.gotchas@;
            &&& row.gotcha_count == v.filter(|g: DiffGotcha| g.active && g.confirmed).len()
            &&& row.gotcha_count > 0 <==> exists|i: int|
                0 <= i < v.len() && (#[trigger] v[i]).active && v[i].confirmed
            &&& row.severity == Severity::Critical <==> exists|i: int|
                {
                    &&& 0 <= i < v.len()
                    &&& (#[trigger] v[i]).active
                    &&& v[i].confirmed
                    &&& v[i].priority == Priority::Critical
                }
        },
{
    if let Some(k) = known {
        let v = k.gotchas@;
        let c = confirmed(v);
        lemma_counting_gotcha(v);
        assert(counts() =~= (|g: DiffGotcha| g.active && g.confirmed));
        if has_priority(c, Priority::Critical) {
            let i = choose|i: int|
                0 <= i < c.len() && (#[trigger] c[i]).priority == Priority::Critical;
            let j = choose|j: int|
                0 <= j < v.len() && #[trigger] v[j] == c[i] && v[j].active && v[j].confirmed;
            assert(v[j].priority == Priority::Critical);
        }
        if exists|i: int|
            {
                &&& 0 <= i < v.len()
                &&& (#[trigger] v[i]).active
                &&& v[i].confirmed
                &&& v[i].priority == Priority::Critical
            } {
            let i = choose|i: int|
                {
                    &&& 0 <= i < v.len()
                    &&& (#[trigger] v[i]).active
                    &&& v[i].confirmed
                    &&& v[i].priority == Priority::Critical
                };
            assert(c.contains(v[i]));
            let j = choose|j: int| 0 <= j < c.len() && c[j] == v[i];
            assert(c[j].priority == Priority::Critical);
        }
    }
}

/// A file is marked stale by the worst of its confirmed gotchas: as a tombstone
/// where one of them is, else as a liability where one is, else as stale where one
/// is. Without confirmed gotchas its own record decides.
pub proof fn law_staleness_is_the_worst(row: Row, path: Seq<char>, k: KnownFile)
    requires
        rates(row, path, Some(k)),
    ensures
        ({
            let c = confirmed(k.gotchas@);
            let one = |t: StalenessTier|
                exists|i: int| 0 <= i < c.len() && (#[trigger] c[i]).tier == t;
            if row.gotcha_count == 0 {
                row.stale == (match k.tier {
                    StalenessTier::Stale | StalenessTier::Liability | StalenessTier::Tombstone =>
                    Some(k.tier),
                    StalenessTier::Fresh | StalenessTier::Aging => None,
                })
            } else if one(StalenessTier::Tombstone) {
                row.stale == Some(StalenessTier::Tombstone)
            } else if one(StalenessTier::Liability) {
                row.stale == Some(StalenessTier::Liability)
            } else if one(StalenessTier::Stale) {
                row.stale == Some(StalenessTier::Stale)
            } else {
                row.stale is None
            }
        }),
{
    let c = confirmed(k.gotchas@);
    law_worst_tier_is_worst(c, c.len() as int);
}

/// What is printed of a file says how it was rated: the mark, the label, the path
/// and, where it is warned of, how many gotchas it has. Only a file without
/// gotchas is called documented, only an unknown one is without a record.
pub proof fn law_row_tells_the_rating(r: Row, width: nat)
    ensures
        text::text_contains(row_text(r, width, false), r.path@),
        text::text_contains(
            row_text(r, width, false),
            match r.severity {
                Severity::Critical => "CRITICAL"@,
                Severity::High => "HIGH"@,
                Severity::Normal => "NORMAL"@,
                Severity::Unknown => "UNKNOWN"@,
            },
        ),
        text::text_contains(
            row_text(r, width, false),
            match r.severity {
                Severity::Critical | Severity::High => text::dec(r.gotcha_count as nat)
                    + " gotcha"@,
                Severity::Normal => "documented, no gotchas"@,
                Severity::Unknown => "no file record"@,
            },
        ),
        r.severity != Severity::Unknown ==> (r.stale matches Some(t) ==> text::text_contains(
            row_text(r, width, false),
            "(stale \u{2014} "@ + stale_word(t) + ")"@,
        )),
{
    let mark = colors::tinted(false, mark_shade(r.severity), severity_mark(r.severity));
    let name = severity_text(r.severity);
    let label = text::padded_right(name, 8);
    let path = text::padded_right(r.path@, width);
    colors::law_painting_keeps_the_text(label_shade(r.severity), label);
    colors::law_painting_keeps_the_text(colors::CYAN@, path);
    let head = "  "@ + mark + " "@;
    let status = status_text(r);
    let none = Seq::<char>::empty();
    let whole = row_text(r, width, false);
    assert(whole =~= head + label + ("  "@ + path + status));
    assert(label =~= none + name + text::spaces(text::missing(name.len(), 8)));
    text::lemma_part_occurs(none, name, text::spaces(text::missing(name.len(), 8)));
    text::lemma_contains_in_part(head, label, "  "@ + path + status, name);
    assert(whole =~= (head + label + "  "@) + path + status);
    assert(path =~= none + r.path@ + text::spaces(text::missing(r.path@.len(), width)));
    text::lemma_part_occurs(none, r.path@, text::spaces(text::missing(r.path@.len(), width)));
    text::lemma_contains_in_part(head + label + "  "@, path, status, r.path@);
    let note = match r.stale {
        Some(t) => " (stale \u{2014} "@ + stale_word(t) + ")"@,
        None => ""@,
    };
    let first = match r.severity {
        Severity::Critical | Severity::High => text::dec(r.gotcha_count as nat) + " gotcha"@,
        Severity::Normal => "documented, no gotchas"@,
        Severity::Unknown => "no file record"@,
    };
    let rest = match r.severity {
        Severity::Critical | Severity::High => plural(r.gotcha_count as nat) + note,
        Severity::Normal => note,
        Severity::Unknown => none,
    };
    assert(status =~= none + first + rest);
    text::lemma_part_occurs(none, first, rest);
    let before = head + label + "  "@ + path;
    assert(whole =~= before + status + none);
    text::lemma_contains_in_part(before, status, none, first);
    if r.severity != Severity::Unknown {
        if let Some(t) = r.stale {
            let said = "(stale \u{2014} "@ + stale_word(t) + ")"@;
            reveal_strlit(" (stale \u{2014} ");
            reveal_strlit("(stale \u{2014} ");
            assert(note =~= seq![' '] + said + none);
            text::lemma_part_occurs(seq![' '], said, none);
            let pre = if r.severity == Severity::Normal {
                first
            } else {
                first + plural(r.gotcha_count as nat)
            };
            assert(status =~= pre + note + none);
            text::lemma_contains_in_part(pre, note, none, said);
            text::lemma_contains_in_part(before, status, none, said);
        }
    }
}

/// The report has a line for every file, in order, and its last lines count the
/// warned, the documented and the unknown ones.
pub proof fn law_report_has_a_line_for_every_file(rows: Seq<Row>, on: bool, i: int)
    requires
        0 <= i < rows.len(),
    ensures
        diff_text(rows, on)[3 + i] == row_text(rows[i], longest(rows, rows.len() as int) + 4, on),
        diff_text(rows, false)[4 + rows.len() as int] == "  Summary: "@ + text::dec(
            tallied(rows, |s: Severity| s == Severity::Critical || s == Severity::High, rows.len() as int),
        ) + " warned \u{b7} "@ + text::dec(
            tallied(rows, |s: Severity| s == Severity::Normal, rows.len() as int),
        ) + " documented \u{b7} "@ + text::dec(
            tallied(rows, |s: Severity| s == Severity::Unknown, rows.len() as int),
        ) + " unknown"@,
{
    let n = rows.len() as int;
    let w = longest(rows, n) + 4;
    lemma_row_texts(rows, w, on, n);
    lemma_row_texts(rows, w, false, n);
    colors::law_painting_keeps_the_text(colors::BLUE@, "Summary:"@);
    reveal_strlit("  Summary: ");
    reveal_strlit("Summary:");
    reveal_strlit("  ");
    reveal_strlit(" ");
    assert("  "@ + "Summary:"@ + " "@ =~= "  Summary: "@);
    assert(warned() =~= (|s: Severity| s == Severity::Critical || s == Severity::High));
    assert(documented() =~= (|s: Severity| s == Severity::Normal));
    assert(unknown() =~= (|s: Severity| s == Severity::Unknown));
}

proof fn lemma_row_texts(rows: Seq<Row>, width: nat, on: bool, n: int)
    requires
        0 <= n <= rows.len(),
    ensures
        row_texts(rows, width, on, n).len() == n,
        forall|i: int|
            0 <= i < n ==> #[trigger] row_texts(rows, width, on, n)[i] == row_text(
                rows[i],
                width,
                on,
            ),
    decreases n,
{
    if n > 0 {
        lemma_row_texts(rows, width, on, n - 1);
    }
}

/// A tally counts the files of its group: adding a file adds one exactly where it
/// belongs to the group.
pub proof fn law_tally_counts_the_group(rows: Seq<Row>, group: spec_fn(Severity) -> bool)
    ensures
        tallied(rows, group, rows.len() as int) == rows.filter(
            |r: Row| group(r.severity),
        ).len(),
    decreases rows.len(),
{
    let f = |r: Row| group(r.severity);
    if rows.len() == 0 {
        reveal(Seq::filter);
        assert(rows.filter(f).len() == 0);
    } else {
        let t = rows.drop_last();
        law_tally_counts_the_group(t, group);
        assert(rows =~= t.push(rows.last()));
        t.lemma_filter_push(rows.last(), f);
        lemma_tallied_prefix(t, rows, group, t.len() as int);
    }
}

proof fn lemma_tallied_prefix(
    a: Seq<Row>,
    b: Seq<Row>,
    group: spec_fn(Severity) -> bool,
    n: int,
)
    requires
        0 <= n <= a.len() <= b.len(),
        forall|i: int| 0 <= i < n ==> a[i] == #[trigger] b[i],
    ensures
        tallied(a, group, n) == tallied(b, group, n),
    decreases n,
{
    if n > 0 {
        lemma_tallied_prefix(a, b, group, n - 1);
        assert(a[n - 1] == b[n - 1]);
    }
}

/// The changed files are the lines that are not empty, in their order.
pub proof fn law_empty_lines_name_no_file(lines: Seq<Seq<char>>, line: Seq<char>)
    ensures
        lines.push(line).filter(is_filled()) == (if line.len() == 0 {
            lines.filter(is_filled())
        } else {
            lines.filter(is_filled()).push(line)
        }),
{
    lines.lemma_filter_push(line, is_filled());
}

/// Counts are told in the singular exactly for one.
pub proof fn law_one_is_singular(n: nat)
    ensures
        plural(n).len() == 0 <==> n == 1,
        n != 1 ==> plural(n) == "s"@,
{
    reveal_strlit("s");
    reveal_strlit("");
}

/// A rating that warns has the full mark, a normal one the empty one, and an unknown
/// one a question mark; a stale record is told by the name of its tier.
pub proof fn law_marks_tell_the_rating(r: Severity, t: StalenessTier)
    ensures
        severity_mark(r) == "\u{25cf}"@ <==> r is Critical || r is High,
        severity_mark(r) == "\u{25cb}"@ <==> r is Normal,
        severity_mark(r) == "?"@ <==> r is Unknown,
        record::is_stale_tier(t) ==> stale_word(t) == record::tier_name(t),
        !record::is_stale_tier(t) ==> stale_word(t).len() == 0,
{
    reveal_strlit("\u{25cf}");
    reveal_strlit("\u{25cb}");
    reveal_strlit("?");
    reveal_strlit("");
    assert("\u{25cf}"@[0] == '\u{25cf}' && "\u{25cb}"@[0] == '\u{25cb}' && "?"@[0] == '?');
}

} // verus!
