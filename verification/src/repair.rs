//! `mati repair`: when the indexes may be repaired, and how drift is reported.
use vstd::prelude::*;
use crate::colors;
use crate::daemon::Ping;
use crate::json;
use crate::text;

verus! {

/// Arguments of `mati repair`.
#[derive(Debug, PartialEq, Eq)]
pub struct RepairArgs {
    /// Only check for drift.
    pub check: bool,
    /// Only drain what is queued.
    pub fast: bool,
    /// Print the report as JSON.
    pub json: bool,
}

pub open spec fn locked_text(command: Seq<char>) -> Seq<char> {
    command
        + " requires direct store access, which is unavailable while the daemon is running.\nRun `mati daemon stop` and retry."@
}

/// Whether `r` is why a repair may not run.
pub open spec fn is_refusal(ping: Ping, r: Option<Seq<char>>) -> bool {
    match ping {
        Ping::Answered | Ping::Unresponsive => r == Some(locked_text("mati repair"@)),
        _ => r is None,
    }
}

/// Why a repair may not run: a daemon may hold the store.
pub fn repair_refusal(ping: Ping) -> (r: Option<String>)
    ensures
        is_refusal(ping, json::opt_text(r)),
{
    match ping {
        Ping::Answered | Ping::Unresponsive => Some(
            "mati repair".to_owned().concat(
                " requires direct store access, which is unavailable while the daemon is running.\nRun `mati daemon stop` and retry.",
            ),
        ),
        _ => None,
    }
}

/// Why a check may not run: the store is not accessed directly.
pub fn check_refusal(is_direct: bool) -> (r: Option<String>)
    ensures
        json::opt_text(r) == (if is_direct {
            None
        } else {
            Some(locked_text("mati repair --check"@))
        }),
{
    if is_direct {
        None
    } else {
        Some(
            "mati repair --check".to_owned().concat(
                " requires direct store access, which is unavailable while the daemon is running.\nRun `mati daemon stop` and retry.",
            ),
        )
    }
}

/// What a full repair for people begins with.
#[derive(Debug, PartialEq, Eq)]
pub enum PreRepair {
    /// There is nothing to do.
    Stop(String),
    /// Only the marker is left to clear.
    Clear(String),
    /// The drift is shown.
    ShowDrift,
}

/// Whether a repair starts with `r`.
pub open spec fn starts_with(has_drift: bool, dirty: bool, r: PreRepair) -> bool {
    if has_drift {
        r is ShowDrift
    } else if dirty {
        r matches PreRepair::Clear(s) && s@
            == "No drift detected, but dirty marker is set. Clearing."@
    } else {
        r matches PreRepair::Stop(s) && s@ == "No drift detected. Indexes are consistent."@
    }
}

pub fn pre_repair(has_drift: bool, dirty: bool) -> (r: PreRepair)
    ensures
        starts_with(has_drift, dirty, r),
{
    if has_drift {
        PreRepair::ShowDrift
    } else if dirty {
        PreRepair::Clear("No drift detected, but dirty marker is set. Clearing.".to_owned())
    } else {
        PreRepair::Stop("No drift detected. Indexes are consistent.".to_owned())
    }
}

// ---------------------------------------------------------------------------
// Reports
// ---------------------------------------------------------------------------

/// A link that is missing or stale.
#[derive(Debug, PartialEq, Eq)]
pub struct DriftEntry {
    pub file_path: String,
    pub gotcha_key: String,
}

/// What was found and mended.
#[derive(Debug, PartialEq, Eq)]
pub struct RepairReport {
    pub scanned_gotchas: u64,
    pub scanned_files: u64,
    pub missing_file_links: Vec<DriftEntry>,
    pub stale_file_links: Vec<DriftEntry>,
    pub missing_edges: u64,
    pub stale_edges: u64,
    pub repaired_count: u64,
    pub verification_passed: bool,
    pub dirty_marker_cleared: bool,
}

pub open spec fn drift_of(r: RepairReport) -> nat {
    (r.missing_file_links@.len() + r.stale_file_links@.len() + r.missing_edges + r.stale_edges) as nat
}

impl RepairReport {
    /// Whether anything drifted.
    pub fn has_drift(&self) -> (r: bool)
        ensures
            r == (drift_of(*self) > 0),
    {
        self.missing_file_links.len() > 0 || self.stale_file_links.len() > 0 || self.missing_edges
            > 0 || self.stale_edges > 0
    }

    /// How much drifted.
    pub fn total_drift(&self) -> (r: u64)
        requires
            drift_of(*self) <= u64::MAX,
        ensures
            r == drift_of(*self),
    {
        self.missing_file_links.len() as u64 + self.stale_file_links.len() as u64
            + self.missing_edges + self.stale_edges
    }
}

pub open spec fn entry_text(e: DriftEntry) -> Seq<char> {
    e.file_path@ + " \u{2192} "@ + e.gotcha_key@
}

pub fn format_drift(e: &DriftEntry) -> (r: String)
    ensures
        r@ == entry_text(*e),
{
    e.file_path.clone().concat(" \u{2192} ").concat(e.gotcha_key.as_str())
}

pub open spec fn counted(title: Seq<char>, gap: Seq<char>, n: nat, on: bool) -> Seq<char> {
    "  "@ + colors::tinted(on, colors::YELLOW@, title) + gap + colors::tinted(
        on,
        colors::WHITE@,
        text::dec(n),
    )
}

fn counted_line(title: &str, gap: &str, n: u64, on: bool) -> (r: String)
    ensures
        r@ == counted(title@, gap@, n as nat, on),
{
    "  ".to_owned().concat(colors::paint(on, colors::YELLOW, title).as_str()).concat(gap).concat(
        colors::paint(on, colors::WHITE, text::decimal(n).as_str()).as_str(),
    )
}

pub open spec fn entry_lines(v: Seq<DriftEntry>) -> Seq<Seq<char>> {
    v.map_values(|e: DriftEntry| "    "@ + entry_text(e))
}

/// Links, at most five of them by name.
pub open spec fn links_text(title: Seq<char>, gap: Seq<char>, v: Seq<DriftEntry>, on: bool) -> Seq<
    Seq<char>,
> {
    if v.len() == 0 {
        Seq::empty()
    } else {
        seq![counted(title, gap, v.len(), on)] + entry_lines(
            if v.len() > 5 {
                v.take(5)
            } else {
                v
            },
        ) + (if v.len() > 5 {
            seq!["    ... and "@ + text::dec((v.len() - 5) as nat) + " more"@]
        } else {
            Seq::empty()
        })
    }
}

pub open spec fn edges_text(title: Seq<char>, gap: Seq<char>, n: u64, on: bool) -> Seq<Seq<char>> {
    if n == 0 {
        Seq::empty()
    } else {
        seq![counted(title, gap, n as nat, on)]
    }
}

/// The summary of the drift.
pub open spec fn drift_text(r: RepairReport, on: bool) -> Seq<Seq<char>> {
    links_text("Missing file links:"@, "  "@, r.missing_file_links@, on) + links_text(
        "Stale file links:"@,
        "    "@,
        r.stale_file_links@,
        on,
    ) + edges_text("Missing edges:"@, "       "@, r.missing_edges, on) + edges_text(
        "Stale edges:"@,
        "         "@,
        r.stale_edges,
        on,
    ) + seq![
        ""@,
        "  Total drift: "@ + colors::tinted(on, colors::YELLOW@, text::dec(drift_of(r)))
            + " items"@,
    ]
}

fn push_links(out: &mut Vec<String>, title: &str, gap: &str, v: &Vec<DriftEntry>, on: bool)
    ensures
        text::texts(final(out)@) == text::texts(old(out)@) + links_text(title@, gap@, v@, on),
{
    let ghost start = text::texts(out@);
    if v.is_empty() {
        assert(start + links_text(title@, gap@, v@, on) =~= start);
        return ;
    }
    text::push_line(out, counted_line(title, gap, v.len() as u64, on));
    let ghost head = text::texts(out@);
    let n: usize = if v.len() > 5 {
        5
    } else {
        v.len()
    };
    let mut i: usize = 0;
    assert(head + entry_lines(v@.take(0)) =~= head);
    while i < n
        invariant
            i <= n <= v.len(),
            text::texts(out@) == head + entry_lines(v@.take(i as int)),
        decreases n - i,
    {
        text::push_line(out, "    ".to_owned().concat(format_drift(&v[i]).as_str()));
        assert(text::texts(out@) =~= head + entry_lines(v@.take(i + 1)));
        i = i + 1;
    }
    if v.len() > 5 {
        text::push_line(
            out,
            "    ... and ".to_owned().concat(text::decimal((v.len() - 5) as u64).as_str()).concat(
                " more",
            ),
        );
    } else {
        assert(v@.take(i as int) =~= v@);
    }
    assert(text::texts(out@) =~= start + links_text(title@, gap@, v@, on));
}

fn push_edges(out: &mut Vec<String>, title: &str, gap: &str, n: u64, on: bool)
    ensures
        text::texts(final(out)@) == text::texts(old(out)@) + edges_text(title@, gap@, n, on),
{
    if n > 0 {
        text::push_line(out, counted_line(title, gap, n, on));
    }
    assert(text::texts(out@) =~= text::texts(old(out)@) + edges_text(title@, gap@, n, on));
}

fn push_drift(out: &mut Vec<String>, r: &RepairReport, on: bool)
    requires
        drift_of(*r) <= u64::MAX,
    ensures
        text::texts(final(out)@) == text::texts(old(out)@) + drift_text(*r, on),
{
    push_links(out, "Missing file links:", "  ", &r.missing_file_links, on);
    push_links(out, "Stale file links:", "    ", &r.stale_file_links, on);
    push_edges(out, "Missing edges:", "       ", r.missing_edges, on);
    push_edges(out, "Stale edges:", "         ", r.stale_edges, on);
    text::push_line(out, "".to_owned());
    text::push_line(
        out,
        "  Total drift: ".to_owned().concat(
            colors::paint(on, colors::YELLOW, text::decimal(r.total_drift()).as_str()).as_str(),
        ).concat(" items"),
    );
    assert(text::texts(out@) =~= text::texts(old(out)@) + drift_text(*r, on));
}

/// The lines on the drift.
pub fn drift_summary(r: &RepairReport, on: bool) -> (lines: Vec<String>)
    requires
        drift_of(*r) <= u64::MAX,
    ensures
        text::texts(lines@) == drift_text(*r, on),
{
    let mut out: Vec<String> = Vec::new();
    push_drift(&mut out, r, on);
    assert(text::texts(out@) =~= drift_text(*r, on));
    out
}

/// What a check prints.
pub open spec fn check_text(r: RepairReport, on: bool) -> Seq<Seq<char>> {
    let bold = colors::shade(on, colors::BOLD@);
    let reset = colors::shade(on, colors::RESET@);
    seq![
        ""@,
        bold + colors::tinted(on, colors::BLUE@, "mati repair --check"@) + "  "@ + colors::shade(
            on,
            colors::GRAY@,
        ) + "scanned "@ + colors::tinted(
            on,
            colors::WHITE@,
            text::dec(r.scanned_gotchas as nat),
        ) + " gotchas, "@ + colors::tinted(on, colors::WHITE@, text::dec(r.scanned_files as nat))
            + " files"@ + reset,
        ""@,
    ] + (if drift_of(r) == 0 {
        seq![
            "  "@ + colors::tinted(on, colors::GREEN@, "No drift detected."@)
                + " Indexes are consistent."@,
        ]
    } else {
        drift_text(r, on)
    }) + seq![""@]
}

pub fn check_report(r: &RepairReport, on: bool) -> (lines: Vec<String>)
    requires
        drift_of(*r) <= u64::MAX,
    ensures
        text::texts(lines@) == check_text(*r, on),
{
    let mut out: Vec<String> = Vec::new();
    let bold = colors::tint(on, colors::BOLD);
    let reset = colors::tint(on, colors::RESET);
    text::push_line(&mut out, "".to_owned());
    text::push_line(
        &mut out,
        bold.to_owned().concat(
            colors::paint(on, colors::BLUE, "mati repair --check").as_str(),
        ).concat("  ").concat(colors::tint(on, colors::GRAY)).concat("scanned ").concat(
            colors::paint(on, colors::WHITE, text::decimal(r.scanned_gotchas).as_str()).as_str(),
        ).concat(" gotchas, ").concat(
            colors::paint(on, colors::WHITE, text::decimal(r.scanned_files).as_str()).as_str(),
        ).concat(" files").concat(reset),
    );
    text::push_line(&mut out, "".to_owned());
    if !r.has_drift() {
        text::push_line(
            &mut out,
            "  ".to_owned().concat(
                colors::paint(on, colors::GREEN, "No drift detected.").as_str(),
            ).concat(" Indexes are consistent."),
        );
    } else {
        push_drift(&mut out, r, on);
    }
    text::push_line(&mut out, "".to_owned());
    assert(text::texts(out@) =~= check_text(*r, on));
    out
}

/// A check fails exactly where something drifted.
pub fn check_exit_code(r: &RepairReport) -> (code: i32)
    ensures
        code == (if drift_of(*r) > 0 {
            1i32
        } else {
            0i32
        }),
{
    if r.has_drift() {
        1
    } else {
        0
    }
}

/// What a repair prints.
pub open spec fn repair_text(r: RepairReport, on: bool) -> Seq<Seq<char>> {
    if r.repaired_count == 0 {
        seq![colors::tinted(on, colors::GREEN@, "Nothing to repair."@)]
    } else {
        seq![
            ""@,
            colors::shade(on, colors::BOLD@) + "Repaired "@ + colors::tinted(
                on,
                colors::WHITE@,
                text::dec(r.repaired_count as nat),
            ) + " items."@,
            if r.verification_passed {
                "  "@ + colors::tinted(on, colors::GREEN@, "Verification passed."@)
                    + " Indexes are now consistent."@
            } else {
                "  "@ + colors::tinted(on, colors::RED@, "Verification failed."@)
                    + " Some drift may remain \u{2014} run `mati repair` again."@
            },
        ] + (if r.dirty_marker_cleared {
            seq!["  Dirty marker cleared."@]
        } else {
            Seq::empty()
        }) + seq![""@]
    }
}

pub fn repair_report(r: &RepairReport, on: bool) -> (lines: Vec<String>)
    ensures
        text::texts(lines@) == repair_text(*r, on),
{
    let mut out: Vec<String> = Vec::new();
    if r.repaired_count == 0 {
        text::push_line(&mut out, colors::paint(on, colors::GREEN, "Nothing to repair."));
        assert(text::texts(out@) =~= repair_text(*r, on));
        return out;
    }
    text::push_line(&mut out, "".to_owned());
    text::push_line(
        &mut out,
        colors::tint(on, colors::BOLD).to_owned().concat("Repaired ").concat(
            colors::paint(on, colors::WHITE, text::decimal(r.repaired_count).as_str()).as_str(),
        ).concat(" items."),
    );
    let verdict = if r.verification_passed {
        "  ".to_owned().concat(
            colors::paint(on, colors::GREEN, "Verification passed.").as_str(),
        ).concat(" Indexes are now consistent.")
    } else {
        "  ".to_owned().concat(
            colors::paint(on, colors::RED, "Verification failed.").as_str(),
        ).concat(" Some drift may remain \u{2014} run `mati repair` again.")
    };
    text::push_line(&mut out, verdict);
    if r.dirty_marker_cleared {
        text::push_line(&mut out, "  Dirty marker cleared.".to_owned());
    }
    text::push_line(&mut out, "".to_owned());
    assert(text::texts(out@) =~= repair_text(*r, on));
    out
}

/// The text of the cluster index record.
pub fn cluster_value(total: u64, clustered: u64) -> (r: String)
    ensures
        r@ == text::dec(total as nat) + " clusters, "@ + text::dec(clustered as nat)
            + " clustered files"@,
{
    text::decimal(total).concat(" clusters, ").concat(text::decimal(clustered).as_str()).concat(
        " clustered files",
    )
}

/// What was recomputed after a full repair; the clusters are left alone where the
/// pairs they come from are not there.
pub open spec fn phases_text(blast: nat, clusters: Option<nat>, propagated: nat) -> Seq<Seq<char>> {
    seq![
        "  Blast radius recomputed for "@ + text::dec(blast) + " files."@,
        match clusters {
            Some(n) => "  Clusters recomputed: "@ + text::dec(n) + " found."@,
            None =>
            "  Clusters: skipped \u{2014} analytics:co_change_pairs not present (run `mati init` to populate it). Existing cluster:index left intact."@,
        },
    ] + (if propagated > 0 {
        seq!["  Staleness propagation recomputed for "@ + text::dec(propagated) + " files."@]
    } else {
        Seq::empty()
    })
}

pub fn phase_lines(blast: u32, clusters: Option<u64>, propagated: u32) -> (r: Vec<String>)
    ensures
        text::texts(r@) == phases_text(
            blast as nat,
            match clusters {
                Some(n) => Some(n as nat),
                None => None,
            },
            propagated as nat,
        ),
{
    let mut out: Vec<String> = Vec::new();
    text::push_line(
        &mut out,
        "  Blast radius recomputed for ".to_owned().concat(
            text::decimal(blast as u64).as_str(),
        ).concat(" files."),
    );
    let line = match clusters {
        Some(n) => "  Clusters recomputed: ".to_owned().concat(text::decimal(n).as_str()).concat(
            " found.",
        ),
        None =>
        "  Clusters: skipped \u{2014} analytics:co_change_pairs not present (run `mati init` to populate it). Existing cluster:index left intact.".to_owned(),
    };
    text::push_line(&mut out, line);
    if propagated > 0 {
        text::push_line(
            &mut out,
            "  Staleness propagation recomputed for ".to_owned().concat(
                text::decimal(propagated as u64).as_str(),
            ).concat(" files."),
        );
    }
    assert(text::texts(out@) =~= phases_text(
        blast as nat,
        match clusters {
            Some(n) => Some(n as nat),
            None => None,
        },
        propagated as nat,
    ));
    out
}

// ---------------------------------------------------------------------------
// What the reports are for
// ---------------------------------------------------------------------------

proof fn lemma_plain()
    ensures
        forall|c: Seq<char>, s: Seq<char>| #[trigger] colors::tinted(false, c, s) == s,
        forall|c: Seq<char>| #[trigger] colors::shade(false, c) == Seq::<char>::empty(),
{
    assert forall|c: Seq<char>, s: Seq<char>| #[trigger] colors::tinted(false, c, s) == s by {
        colors::law_painting_keeps_the_text(c, s);
    }
    assert forall|c: Seq<char>| #[trigger] colors::shade(false, c) == Seq::<char>::empty() by {
        colors::law_painting_keeps_the_text(c, c);
        assert(colors::shade(false, c) =~= Seq::<char>::empty());
    }
}

/// There is drift exactly where a link or an edge is missing or stale, and each of
/// them counts once.
pub proof fn law_drift_is_what_does_not_agree(r: RepairReport)
    ensures
        drift_of(r) == 0 <==> r.missing_file_links@.len() == 0 && r.stale_file_links@.len() == 0
            && r.missing_edges == 0 && r.stale_edges == 0,
        drift_of(r) >= r.missing_file_links@.len(),
        drift_of(r) >= r.stale_file_links@.len(),
        drift_of(r) - r.missing_edges - r.stale_edges == r.missing_file_links@.len()
            + r.stale_file_links@.len(),
{
}

/// Up to five links are shown with the file and the gotcha; the rest is counted.
pub proof fn law_links_are_shown_or_counted(
    title: Seq<char>,
    gap: Seq<char>,
    v: Seq<DriftEntry>,
    i: int,
)
    requires
        v.len() > 0,
    ensures
        ({
            let l = links_text(title, gap, v, false);
            &&& l[0] == "  "@ + title + gap + text::dec(v.len())
            &&& 0 <= i < v.len() && i < 5 ==> l[1 + i] == "    "@ + v[i].file_path@ + " \u{2192} "@
                + v[i].gotcha_key@
            &&& v.len() <= 5 ==> l.len() == 1 + v.len()
            &&& v.len() > 5 ==> l.len() == 7 && l[6] == "    ... and "@ + text::dec(
                (v.len() - 5) as nat,
            ) + " more"@
        }),
        links_text(title, gap, Seq::empty(), false).len() == 0,
{
    lemma_plain();
    let l = links_text(title, gap, v, false);
    assert(l[0] =~= "  "@ + title + gap + text::dec(v.len()));
    if 0 <= i < v.len() && i < 5 {
        let shown = if v.len() > 5 {
            v.take(5)
        } else {
            v
        };
        assert(l[1 + i] == entry_lines(shown)[i]);
        assert(l[1 + i] =~= "    "@ + v[i].file_path@ + " \u{2192} "@ + v[i].gotcha_key@);
    }
}

/// A check says that all agrees exactly where there is no drift, and how much there is
/// else.
pub proof fn law_check_tells_the_drift(r: RepairReport)
    ensures
        ({
            let l = check_text(r, false);
            &&& drift_of(r) == 0 ==> l[3] == "  No drift detected. Indexes are consistent."@
                && l.len() == 5
            &&& drift_of(r) > 0 ==> l[l.len() - 2] == "  Total drift: "@ + text::dec(drift_of(r))
                + " items"@
            &&& text::text_contains(l[1], text::dec(r.scanned_gotchas as nat) + " gotchas, "@)
            &&& text::text_contains(l[1], text::dec(r.scanned_files as nat) + " files"@)
        }),
{
    lemma_plain();
    let l = check_text(r, false);
    let g = text::dec(r.scanned_gotchas as nat) + " gotchas, "@;
    let f = text::dec(r.scanned_files as nat) + " files"@;
    let a = "mati repair --check"@ + "  "@ + "scanned "@;
    assert(l[1] =~= a + g + f);
    text::lemma_part_occurs(a, g, f);
    let none = Seq::<char>::empty();
    assert(l[1] =~= (a + g) + f + none);
    text::lemma_part_occurs(a + g, f, none);
    if drift_of(r) == 0 {
        reveal_strlit("  No drift detected. Indexes are consistent.");
        reveal_strlit("  ");
        reveal_strlit("No drift detected.");
        reveal_strlit(" Indexes are consistent.");
        assert(l[3] =~= "  No drift detected. Indexes are consistent."@);
    } else {
        let d = drift_text(r, false);
        assert(l[l.len() - 2] == d[d.len() - 1]);
        assert(d[d.len() - 1] =~= "  Total drift: "@ + text::dec(drift_of(r)) + " items"@);
    }
}

/// A repair tells what it mended, and whether all agrees afterwards; where nothing was
/// mended it says so.
pub proof fn law_repair_tells_what_it_mended(r: RepairReport)
    ensures
        ({
            let l = repair_text(r, false);
            &&& r.repaired_count == 0 <==> l.len() == 1
            &&& r.repaired_count == 0 ==> l[0] == "Nothing to repair."@
            &&& r.repaired_count > 0 ==> l[1] == "Repaired "@ + text::dec(r.repaired_count as nat)
                + " items."@
            &&& r.repaired_count > 0 ==> (r.verification_passed <==> "  Verification passed."@.is_prefix_of(
                l[2],
            ))
            &&& r.repaired_count > 0 ==> (r.dirty_marker_cleared <==> l.contains(
                "  Dirty marker cleared."@,
            ))
        }),
{
    lemma_plain();
    let l = repair_text(r, false);
    if r.repaired_count > 0 {
        assert(l[1] =~= "Repaired "@ + text::dec(r.repaired_count as nat) + " items."@);
        reveal_strlit("  Verification passed.");
        reveal_strlit("Verification passed.");
        reveal_strlit("Verification failed.");
        reveal_strlit("  ");
        let p = "  Verification passed."@;
        if r.verification_passed {
            assert(l[2].subrange(0, p.len() as int) =~= p);
        } else {
            assert(l[2][15] == 'f');
            if p.is_prefix_of(l[2]) {
                assert(l[2].subrange(0, p.len() as int)[15] == 'p');
            }
        }
        let x = "  Dirty marker cleared."@;
        reveal_strlit("  Dirty marker cleared.");
        reveal_strlit("");
        reveal_strlit("Repaired ");
        if r.dirty_marker_cleared {
            assert(l[3] == x);
        } else if l.contains(x) {
            let j = choose|j: int| 0 <= j < l.len() && l[j] == x;
            assert(l.len() == 4);
            assert(j == 0 || j == 1 || j == 2 || j == 3);
            assert(l[1][0] == 'R');
            assert(l[2][2] == 'V');
            assert(x[0] == ' ' && x[2] == 'D');
        }
    }
}

/// What was recomputed is told; clusters that could not be are told to be skipped.
pub proof fn law_phases_are_told(blast: nat, clusters: Option<nat>, propagated: nat)
    ensures
        ({
            let l = phases_text(blast, clusters, propagated);
            &&& l[0] == "  Blast radius recomputed for "@ + text::dec(blast) + " files."@
            &&& clusters matches Some(n) ==> l[1] == "  Clusters recomputed: "@ + text::dec(n)
                + " found."@
            &&& clusters is None ==> "  Clusters: skipped"@.is_prefix_of(l[1])
            &&& propagated > 0 <==> l.len() == 3
            &&& propagated > 0 ==> l[2] == "  Staleness propagation recomputed for "@ + text::dec(
                propagated,
            ) + " files."@
        }),
{
    let l = phases_text(blast, clusters, propagated);
    if clusters is None {
        reveal_strlit("  Clusters: skipped");
        reveal_strlit(
            "  Clusters: skipped \u{2014} analytics:co_change_pairs not present (run `mati init` to populate it). Existing cluster:index left intact.",
        );
        let p = "  Clusters: skipped"@;
        assert(l[1].subrange(0, p.len() as int) =~= p);
    }
}

/// A repair is refused exactly while a daemon may hold the store.
pub proof fn law_repair_waits_for_the_daemon(ping: Ping, r: Option<Seq<char>>)
    requires
        is_refusal(ping, r),
    ensures
        r is Some <==> ping == Ping::Answered || ping == Ping::Unresponsive,
        r matches Some(m) ==> "mati repair"@.is_prefix_of(m),
{
    if let Some(m) = r {
        let p = "mati repair"@;
        assert(m.subrange(0, p.len() as int) =~= p);
    }
}

/// Where nothing drifted there is nothing to repair, at most a marker to clear.
pub proof fn law_only_drift_is_repaired(has_drift: bool, dirty: bool, r: PreRepair)
    requires
        starts_with(has_drift, dirty, r),
    ensures
        r is ShowDrift <==> has_drift,
        r is Clear <==> !has_drift && dirty,
        r is Stop <==> !has_drift && !dirty,
{
}

} // verus!
