//! `mati explain`: everything that is known of a file.
use vstd::prelude::*;
use crate::colors;
use crate::json;
use crate::paths;
use crate::record;
use crate::record::{Priority, QualityTier, RecordSource, StalenessTier};
use crate::show::BlastTier;
use crate::text;

verus! {

/// Arguments of `mati explain`.
#[derive(Debug, PartialEq, Eq)]
pub struct ExplainArgs {
    /// The file's path, relative to the repository.
    pub path: String,
}

/// A path without leading `./`.
pub open spec fn plain_path(path: Seq<char>) -> Seq<char>
    decreases path.len(),
{
    if path.len() >= 2 && path[0] == '.' && path[1] == '/' {
        plain_path(path.skip(2))
    } else {
        path
    }
}

pub fn strip_dot_slash(path: &str) -> (r: String)
    ensures
        r@ == plain_path(path@),
{
    let v = text::chars(path);
    let mut i: usize = 0;
    assert(path@.skip(0) =~= path@);
    while v.len() - i >= 2 && v[i] == '.' && v[i + 1] == '/'
        invariant
            i <= v.len(),
            v@ == path@,
            plain_path(path@) == plain_path(path@.skip(i as int)),
        decreases v.len() - i,
    {
        assert(path@.skip(i as int).skip(2) =~= path@.skip(i + 2));
        i = i + 2;
    }
    assert(path@.subrange(i as int, path@.len() as int) =~= path@.skip(i as int));
    text::string_of(&v, i, v.len())
}

// ---------------------------------------------------------------------------
// Which gotchas are shown
// ---------------------------------------------------------------------------

/// A gotcha as far as it is linked to files: whether it is active, and the files
/// that it names, where its payload can be read.
#[derive(Debug, PartialEq, Eq)]
pub struct GotchaLink {
    pub active: bool,
    pub affected: Option<Vec<String>>,
}

/// Whether an active gotcha names a file.
pub open spec fn names(g: GotchaLink, path: Seq<char>) -> bool {
    g.active && (g.affected matches Some(files) && text::texts(files@).contains(path))
}

/// The positions, below `n`, of the active gotchas that name a file.
pub open spec fn naming_of(v: Seq<GotchaLink>, path: Seq<char>, n: int) -> Seq<int>
    decreases n,
{
    if n <= 0 {
        Seq::empty()
    } else if names(v[n - 1], path) {
        naming_of(v, path, n - 1).push(n - 1)
    } else {
        naming_of(v, path, n - 1)
    }
}

/// The gotchas that are shown among all of them, where the file links to none.
pub fn naming_gotchas(v: &Vec<GotchaLink>, path: &str) -> (r: Vec<usize>)
    ensures
        r@.map_values(|i: usize| i as int) == naming_of(v@, path@, v@.len() as int),
{
    let mut out: Vec<usize> = Vec::new();
    let mut i: usize = 0;
    assert(out@.map_values(|i: usize| i as int) =~= Seq::<int>::empty());
    while i < v.len()
        invariant
            i <= v.len(),
            out@.map_values(|i: usize| i as int) == naming_of(v@, path@, i as int),
        decreases v.len() - i,
    {
        let ghost before = out@;
        let hit = v[i].active && (match &v[i].affected {
            Some(files) => text::list_contains(files, path),
            None => false,
        });
        if hit {
            out.push(i);
            assert(out@.map_values(|i: usize| i as int) =~= before.map_values(
                |i: usize| i as int,
            ).push(i as int));
        }
        i = i + 1;
    }
    out
}

/// Which gotchas are shown of a file: nothing where it links to active ones, which
/// are then shown, else the positions of those among all that name it.
pub fn shown(linked_active: usize, all: &Vec<GotchaLink>, path: &str) -> (r: Option<Vec<usize>>)
    ensures
        match r {
            None => linked_active > 0,
            Some(v) => linked_active == 0 && v@.map_values(|i: usize| i as int) == naming_of(
                all@,
                path@,
                all@.len() as int,
            ),
        },
{
    if linked_active > 0 {
        None
    } else {
        Some(naming_gotchas(all, path))
    }
}

// ---------------------------------------------------------------------------
// What is known
// ---------------------------------------------------------------------------

/// How much of the code depends on the file.
#[derive(Debug, PartialEq, Eq)]
pub struct Blast {
    pub direct: u64,
    pub transitive: u64,
    pub tier: BlastTier,
    pub tier_label: String,
}

/// A gotcha of the file. `confirmed` is `None` where its payload cannot be read.
#[derive(Debug, PartialEq, Eq)]
pub struct ExplainGotcha {
    pub value: String,
    pub priority: Priority,
    pub confirmed: Option<bool>,
    pub source: RecordSource,
    /// The confidence with two decimals.
    pub confidence: String,
    pub tier: StalenessTier,
}

/// A record by its key and text.
#[derive(Debug, PartialEq, Eq)]
pub struct KeyValue {
    pub key: String,
    pub value: String,
}

#[derive(Debug, PartialEq, Eq)]
pub struct TodoItem {
    pub line: u64,
    pub text: String,
}

/// A file with all that is told of it.
#[derive(Debug, PartialEq, Eq)]
pub struct Briefing {
    pub path: String,
    pub purpose: String,
    pub is_hotspot: bool,
    /// The confidence with two decimals.
    pub confidence: String,
    pub quality: QualityTier,
    pub source: RecordSource,
    pub blast: Option<Blast>,
    pub tier: StalenessTier,
    pub gotchas: Vec<ExplainGotcha>,
    /// The file refers to decisions, whether or not they can be found.
    pub has_decisions: bool,
    pub decisions: Vec<KeyValue>,
    /// The co-change gotchas whose keys name the file as their source.
    pub cochanges: Vec<KeyValue>,
    pub revert: Option<String>,
    pub ownership: Option<String>,
    pub last_author: Option<String>,
    pub change_frequency: u64,
    pub todos: Vec<TodoItem>,
}

// ---------------------------------------------------------------------------
// The head
// ---------------------------------------------------------------------------

pub open spec fn quality_word(q: QualityTier) -> Seq<char> {
    match q {
        QualityTier::Suppressed => "Suppressed"@,
        QualityTier::Poor => "Poor"@,
        QualityTier::Acceptable => "Acceptable"@,
        QualityTier::Good => "Good"@,
        QualityTier::Excellent => "Excellent"@,
    }
}

fn quality_name(q: QualityTier) -> (r: &'static str)
    ensures
        r@ == quality_word(q),
{
    match q {
        QualityTier::Suppressed => "Suppressed",
        QualityTier::Poor => "Poor",
        QualityTier::Acceptable => "Acceptable",
        QualityTier::Good => "Good",
        QualityTier::Excellent => "Excellent",
    }
}

/// The name of the file, or the path where it has none.
pub open spec fn shown_name(path: Seq<char>) -> Seq<char> {
    match paths::file_name_of(path) {
        Some(n) => n,
        None => path,
    }
}

pub open spec fn shown_purpose(p: Seq<char>) -> Seq<char> {
    if p.len() == 0 {
        "(no purpose recorded)"@
    } else {
        p
    }
}

pub open spec fn head_text(b: Briefing, on: bool) -> Seq<Seq<char>> {
    seq![
        ""@,
        "  "@ + colors::tinted(on, colors::CYAN@, shown_name(b.path@)) + " \u{2014} "@
            + shown_purpose(b.purpose@),
        "  "@ + colors::tinted(
            on,
            colors::GRAY@,
            "confidence "@ + b.confidence@ + "  quality "@ + quality_word(b.quality)
                + "  source: "@ + record::source_cue(b.source) + (if b.is_hotspot {
                "  hotspot"@
            } else {
                ""@
            }),
        ),
    ]
}

pub open spec fn blast_shade(t: BlastTier) -> Seq<char> {
    match t {
        BlastTier::Critical => colors::RED@,
        BlastTier::High => colors::YELLOW@,
        _ => colors::GRAY@,
    }
}

pub open spec fn blast_text(b: Option<Blast>, on: bool) -> Seq<Seq<char>> {
    match b {
        Some(x) => seq![
            "  "@ + colors::shade(on, colors::GRAY@) + "blast radius: "@ + text::dec(
                x.direct as nat,
            ) + " direct, "@ + text::dec(x.transitive as nat) + " transitive ("@ + colors::tinted(
                on,
                blast_shade(x.tier),
                x.tier_label@,
            ) + colors::shade(on, colors::GRAY@) + ")"@ + colors::shade(on, colors::RESET@),
        ],
        None => Seq::empty(),
    }
}

pub open spec fn stale_text(t: StalenessTier, on: bool) -> Seq<Seq<char>> {
    match t {
        StalenessTier::Stale => seq![
            "  "@ + colors::tinted(on, colors::YELLOW@, "stale"@) + " "@ + colors::tinted(
                on,
                colors::GRAY@,
                "\u{2014} file changed since last review. Verify before relying on this briefing."@,
            ),
        ],
        StalenessTier::Liability | StalenessTier::Tombstone => seq![
            "  "@ + colors::tinted(on, colors::RED@, "outdated"@) + " "@ + colors::tinted(
                on,
                colors::GRAY@,
                "\u{2014} this briefing is unreliable. Record excluded from hook injection."@,
            ),
        ],
        _ => Seq::empty(),
    }
}

fn push_head(out: &mut Vec<String>, b: &Briefing, on: bool)
    ensures
        text::texts(final(out)@) == text::texts(old(out)@) + head_text(*b, on),
{
    let name = match paths::file_name(b.path.as_str()) {
        Some(n) => n,
        None => b.path.clone(),
    };
    let purpose = if b.purpose.as_str().is_empty() {
        "(no purpose recorded)"
    } else {
        b.purpose.as_str()
    };
    text::push_line(out, "".to_owned());
    text::push_line(
        out,
        "  ".to_owned().concat(colors::paint(on, colors::CYAN, name.as_str()).as_str()).concat(
            " \u{2014} ",
        ).concat(purpose),
    );
    let facts = "confidence ".to_owned().concat(b.confidence.as_str()).concat("  quality ").concat(
        quality_name(b.quality),
    ).concat("  source: ").concat(record::source_short(&b.source)).concat(
        if b.is_hotspot {
            "  hotspot"
        } else {
            ""
        },
    );
    text::push_line(
        out,
        "  ".to_owned().concat(colors::paint(on, colors::GRAY, facts.as_str()).as_str()),
    );
    assert(text::texts(out@) =~= text::texts(old(out)@) + head_text(*b, on));
}

fn push_blast(out: &mut Vec<String>, b: &Option<Blast>, on: bool)
    ensures
        text::texts(final(out)@) == text::texts(old(out)@) + blast_text(*b, on),
{
    if let Some(x) = b {
        let color = match x.tier {
            BlastTier::Critical => colors::RED,
            BlastTier::High => colors::YELLOW,
            _ => colors::GRAY,
        };
        text::push_line(
            out,
            "  ".to_owned().concat(colors::tint(on, colors::GRAY)).concat(
                "blast radius: ",
            ).concat(text::decimal(x.direct).as_str()).concat(" direct, ").concat(
                text::decimal(x.transitive).as_str(),
            ).concat(" transitive (").concat(
                colors::paint(on, color, x.tier_label.as_str()).as_str(),
            ).concat(colors::tint(on, colors::GRAY)).concat(")").concat(
                colors::tint(on, colors::RESET),
            ),
        );
    }
    assert(text::texts(out@) =~= text::texts(old(out)@) + blast_text(*b, on));
}

fn push_stale(out: &mut Vec<String>, t: StalenessTier, on: bool)
    ensures
        text::texts(final(out)@) == text::texts(old(out)@) + stale_text(t, on),
{
    match t {
        StalenessTier::Stale => {
            text::push_line(
                out,
                "  ".to_owned().concat(colors::paint(on, colors::YELLOW, "stale").as_str()).concat(
                    " ",
                ).concat(
                    colors::paint(
                        on,
                        colors::GRAY,
                        "\u{2014} file changed since last review. Verify before relying on this briefing.",
                    ).as_str(),
                ),
            );
        },
        StalenessTier::Liability | StalenessTier::Tombstone => {
            text::push_line(
                out,
                "  ".to_owned().concat(colors::paint(on, colors::RED, "outdated").as_str()).concat(
                    " ",
                ).concat(
                    colors::paint(
                        on,
                        colors::GRAY,
                        "\u{2014} this briefing is unreliable. Record excluded from hook injection.",
                    ).as_str(),
                ),
            );
        },
        _ => {},
    }
    assert(text::texts(out@) =~= text::texts(old(out)@) + stale_text(t, on));
}

// ---------------------------------------------------------------------------
// Gotchas and decisions
// ---------------------------------------------------------------------------

/// A severity, in colour where that is on.
pub open spec fn severity_tag(label: Seq<char>, color: Seq<char>, on: bool) -> Seq<char> {
    colors::tinted(on, color, label) + " "@
}

pub fn severity_label(label: &str, color: &'static str, use_color: bool) -> (r: String)
    ensures
        r@ == severity_tag(label@, color@, use_color),
{
    colors::paint(use_color, color, label).concat(" ")
}

pub open spec fn priority_tag(p: Priority, on: bool) -> Seq<char> {
    match p {
        Priority::Critical => severity_tag("CRITICAL"@, colors::RED@, on),
        Priority::High => severity_tag("HIGH"@, colors::YELLOW@, on),
        _ => ""@,
    }
}

/// Where a gotcha comes from and how far it can be trusted.
pub open spec fn provenance(g: ExplainGotcha, on: bool) -> Seq<char> {
    let gray = colors::shade(on, colors::GRAY@);
    let reset = colors::shade(on, colors::RESET@);
    let tail = gray + ", "@ + record::source_cue(g.source) + ", "@ + g.confidence@ + ")"@ + reset;
    if g.confirmed == Some(true) {
        gray + "("@ + colors::tinted(on, colors::GREEN@, "confirmed"@) + tail + (
        if record::is_stale_tier(g.tier) {
            " "@ + colors::tinted(on, colors::YELLOW@, "stale"@)
        } else {
            ""@
        })
    } else {
        gray + "("@ + colors::tinted(on, colors::YELLOW@, "unconfirmed"@) + tail
    }
}

pub fn format_gotcha_provenance(g: &ExplainGotcha, on: bool) -> (r: String)
    ensures
        r@ == provenance(*g, on),
{
    let gray = colors::tint(on, colors::GRAY);
    let reset = colors::tint(on, colors::RESET);
    let tail = gray.to_owned().concat(", ").concat(record::source_short(&g.source)).concat(
        ", ",
    ).concat(g.confidence.as_str()).concat(")").concat(reset);
    let confirmed = match g.confirmed {
        Some(c) => c,
        None => false,
    };
    if confirmed {
        let note = match g.tier {
            StalenessTier::Stale | StalenessTier::Liability | StalenessTier::Tombstone =>
            " ".to_owned().concat(colors::paint(on, colors::YELLOW, "stale").as_str()),
            _ => "".to_owned(),
        };
        gray.to_owned().concat("(").concat(
            colors::paint(on, colors::GREEN, "confirmed").as_str(),
        ).concat(tail.as_str()).concat(note.as_str())
    } else {
        gray.to_owned().concat("(").concat(
            colors::paint(on, colors::YELLOW, "unconfirmed").as_str(),
        ).concat(tail.as_str())
    }
}

/// The heading of a section, with an empty line above it.
pub open spec fn heading(label: Seq<char>, color: Seq<char>, on: bool) -> Seq<Seq<char>> {
    seq![""@, "  "@ + colors::tinted(on, color, label)]
}

fn push_heading(out: &mut Vec<String>, label: &str, color: &'static str, on: bool)
    ensures
        text::texts(final(out)@) == text::texts(old(out)@) + heading(label@, color@, on),
{
    text::push_line(out, "".to_owned());
    text::push_line(out, "  ".to_owned().concat(colors::paint(on, color, label).as_str()));
    assert(text::texts(out@) =~= text::texts(old(out)@) + heading(label@, color@, on));
}

pub open spec fn gotcha_line(g: ExplainGotcha, on: bool) -> Seq<char> {
    "  \u{25cf} "@ + priority_tag(g.priority, on) + record::first_line(g.value@) + "  "@
        + provenance(g, on)
}

pub open spec fn gotcha_lines(v: Seq<ExplainGotcha>, on: bool) -> Seq<Seq<char>> {
    v.map_values(|g: ExplainGotcha| gotcha_line(g, on))
}

pub open spec fn gotchas_text(v: Seq<ExplainGotcha>, on: bool) -> Seq<Seq<char>> {
    if v.len() == 0 {
        Seq::empty()
    } else {
        heading("Gotchas ("@ + text::dec(v.len()) + ")"@, colors::YELLOW@, on) + gotcha_lines(v, on)
    }
}

fn first_line_of(s: &str) -> (r: String)
    ensures
        r@ == record::first_line(s@),
{
    let mut lines = text::lines(s);
    let ghost all = text::lines_of(s@);
    assert(all.len() == lines@.len());
    if lines.len() > 0 {
        assert(all[0] == lines@[0]@);
        lines[0].clone()
    } else {
        s.to_owned()
    }
}

fn push_gotchas(out: &mut Vec<String>, v: &Vec<ExplainGotcha>, on: bool)
    ensures
        text::texts(final(out)@) == text::texts(old(out)@) + gotchas_text(v@, on),
{
    let ghost start = text::texts(out@);
    if v.is_empty() {
        assert(start + gotchas_text(v@, on) =~= start);
        return ;
    }
    let title = "Gotchas (".to_owned().concat(text::decimal(v.len() as u64).as_str()).concat(")");
    push_heading(out, title.as_str(), colors::YELLOW, on);
    let ghost head = text::texts(out@);
    let mut i: usize = 0;
    assert(head + gotcha_lines(v@.take(0), on) =~= head);
    while i < v.len()
        invariant
            i <= v.len(),
            text::texts(out@) == head + gotcha_lines(v@.take(i as int), on),
        decreases v.len() - i,
    {
        let g = &v[i];
        let tag = match g.priority {
            Priority::Critical => severity_label("CRITICAL", colors::RED, on),
            Priority::High => severity_label("HIGH", colors::YELLOW, on),
            _ => "".to_owned(),
        };
        text::push_line(
            out,
            "  \u{25cf} ".to_owned().concat(tag.as_str()).concat(
                first_line_of(g.value.as_str()).as_str(),
            ).concat("  ").concat(format_gotcha_provenance(g, on).as_str()),
        );
        assert(text::texts(out@) =~= head + gotcha_lines(v@.take(i + 1), on));
        i = i + 1;
    }
    assert(v@.take(i as int) =~= v@);
    assert(text::texts(out@) =~= start + gotchas_text(v@, on));
}

pub open spec fn decision_lines(v: Seq<KeyValue>) -> Seq<Seq<char>> {
    v.map_values(|d: KeyValue| "  \u{25cf} "@ + d.key@ + " \u{2014} "@ + d.value@)
}

pub open spec fn decisions_text(b: Briefing, on: bool) -> Seq<Seq<char>> {
    if b.has_decisions {
        heading("Decisions linked"@, colors::PURPLE@, on) + decision_lines(b.decisions@)
    } else {
        Seq::empty()
    }
}

fn push_decisions(out: &mut Vec<String>, b: &Briefing, on: bool)
    ensures
        text::texts(final(out)@) == text::texts(old(out)@) + decisions_text(*b, on),
{
    let ghost start = text::texts(out@);
    if !b.has_decisions {
        assert(start + decisions_text(*b, on) =~= start);
        return ;
    }
    push_heading(out, "Decisions linked", colors::PURPLE, on);
    let ghost head = text::texts(out@);
    let v = &b.decisions;
    let mut i: usize = 0;
    assert(head + decision_lines(v@.take(0)) =~= head);
    while i < v.len()
        invariant
            i <= v.len(),
            text::texts(out@) == head + decision_lines(v@.take(i as int)),
        decreases v.len() - i,
    {
        text::push_line(
            out,
            "  \u{25cf} ".to_owned().concat(v[i].key.as_str()).concat(" \u{2014} ").concat(
                v[i].value.as_str(),
            ),
        );
        assert(text::texts(out@) =~= head + decision_lines(v@.take(i + 1)));
        i = i + 1;
    }
    assert(v@.take(i as int) =~= v@);
    assert(text::texts(out@) =~= start + decisions_text(*b, on));
}

// ---------------------------------------------------------------------------
// Co-changes
// ---------------------------------------------------------------------------

/// The position of the first occurrence of `needle` from `from` on; the length of
/// the text where there is none.
pub open spec fn position(s: Seq<char>, needle: Seq<char>, from: int) -> int
    decreases s.len() - from,
{
    if from >= s.len() {
        s.len() as int
    } else if text::occurs_at(s, needle, from) {
        from
    } else {
        position(s, needle, from + 1)
    }
}

/// `s` up to the first occurrence of `needle`.
pub open spec fn before_first(s: Seq<char>, needle: Seq<char>) -> Seq<char> {
    s.take(position(s, needle, 0))
}

/// What stands behind the first `commits (`, up to the next one or to a closing
/// bracket.
pub open spec fn share_in(value: Seq<char>) -> Option<Seq<char>> {
    let needle = "commits ("@;
    let p = position(value, needle, 0);
    if p >= value.len() {
        None
    } else {
        Some(before_first(before_first(value.skip(p + needle.len()), needle), ")"@))
    }
}

proof fn lemma_position(s: Seq<char>, needle: Seq<char>, from: int, p: int)
    requires
        0 <= from <= p < s.len(),
        text::occurs_at(s, needle, p),
        forall|j: int| from <= j < p ==> !text::occurs_at(s, needle, j),
    ensures
        position(s, needle, from) == p,
    decreases p - from,
{
    if from < p {
        lemma_position(s, needle, from + 1, p);
    }
}

proof fn lemma_no_position(s: Seq<char>, needle: Seq<char>, from: int)
    requires
        0 <= from,
        forall|j: int| from <= j ==> !text::occurs_at(s, needle, j),
    ensures
        position(s, needle, from) == s.len(),
    decreases s.len() - from,
{
    if from < s.len() {
        lemma_no_position(s, needle, from + 1);
    }
}

fn locate(v: &Vec<char>, needle: &str) -> (r: usize)
    requires
        needle@.len() > 0,
    ensures
        r == position(v@, needle@, 0),
        r <= v.len(),
        r < v.len() ==> r + needle@.len() <= v.len(),
{
    let w = text::chars(needle);
    match text::find_from(v, &w, 0) {
        Some(p) => {
            proof {
                assert(text::occurs_at(v@, needle@, p as int));
                lemma_position(v@, needle@, 0, p as int);
            }
            p
        },
        None => {
            proof {
                lemma_no_position(v@, needle@, 0);
            }
            v.len()
        },
    }
}

fn cut_at(s: &str, needle: &str) -> (r: String)
    requires
        needle@.len() > 0,
    ensures
        r@ == before_first(s@, needle@),
{
    let v = text::chars(s);
    let p = locate(&v, needle);
    assert(v@.subrange(0, p as int) =~= s@.take(p as int));
    text::string_of(&v, 0, p)
}

/// The share of commits that a co-change rule states.
pub fn share_of(value: &str) -> (r: Option<String>)
    ensures
        json::opt_text(r) == share_in(value@),
{
    proof {
        reveal_strlit("commits (");
        reveal_strlit(")");
    }
    let v = text::chars(value);
    let p = locate(&v, "commits (");
    if p >= v.len() {
        return None;
    }
    let rest = text::string_of(&v, p + 9, v.len());
    assert(rest@ =~= value@.skip(p + 9));
    let piece = cut_at(rest.as_str(), "commits (");
    Some(cut_at(piece.as_str(), ")"))
}

/// The line on a co-change: the other file and the share.
pub open spec fn cochange_line(prefix: Seq<char>, c: KeyValue, on: bool) -> Seq<Seq<char>> {
    if prefix.is_prefix_of(c.key@) {
        seq![
            "  \u{25cf} "@ + colors::tinted(on, colors::CYAN@, c.key@.skip(prefix.len() as int)) + (
            match share_in(c.value@) {
                Some(p) => "  ("@ + p + ")"@,
                None => ""@,
            }),
        ]
    } else {
        Seq::empty()
    }
}

pub open spec fn cochange_lines(prefix: Seq<char>, v: Seq<KeyValue>, on: bool, n: int) -> Seq<
    Seq<char>,
>
    decreases n,
{
    if n <= 0 {
        Seq::empty()
    } else {
        cochange_lines(prefix, v, on, n - 1) + cochange_line(prefix, v[n - 1], on)
    }
}

/// The keys of the co-change gotchas of a file begin with this.
pub open spec fn cochange_prefix(path: Seq<char>) -> Seq<char> {
    "gotcha:cochange:"@ + path + "|"@
}

pub fn cochange_key_prefix(path: &str) -> (r: String)
    ensures
        r@ == cochange_prefix(path@),
{
    "gotcha:cochange:".to_owned().concat(path).concat("|")
}

pub open spec fn cochanges_text(b: Briefing, on: bool) -> Seq<Seq<char>> {
    if b.cochanges@.len() == 0 {
        Seq::empty()
    } else {
        heading("Co-changes with"@, colors::BLUE@, on) + cochange_lines(
            cochange_prefix(b.path@),
            b.cochanges@,
            on,
            b.cochanges@.len() as int,
        )
    }
}

fn push_cochange(out: &mut Vec<String>, prefix: &str, c: &KeyValue, on: bool)
    ensures
        text::texts(final(out)@) == text::texts(old(out)@) + cochange_line(prefix@, *c, on),
{
    if let Some(target) = text::strip_prefix(c.key.as_str(), prefix) {
        let share = match share_of(c.value.as_str()) {
            Some(p) => "  (".to_owned().concat(p.as_str()).concat(")"),
            None => "".to_owned(),
        };
        text::push_line(
            out,
            "  \u{25cf} ".to_owned().concat(colors::paint(on, colors::CYAN, target).as_str()).concat(
                share.as_str(),
            ),
        );
    }
    assert(text::texts(out@) =~= text::texts(old(out)@) + cochange_line(prefix@, *c, on));
}

fn push_cochanges(out: &mut Vec<String>, b: &Briefing, on: bool)
    ensures
        text::texts(final(out)@) == text::texts(old(out)@) + cochanges_text(*b, on),
{
    let ghost start = text::texts(out@);
    let v = &b.cochanges;
    if v.is_empty() {
        assert(start + cochanges_text(*b, on) =~= start);
        return ;
    }
    push_heading(out, "Co-changes with", colors::BLUE, on);
    let ghost head = text::texts(out@);
    let prefix = cochange_key_prefix(b.path.as_str());
    let mut i: usize = 0;
    assert(head + cochange_lines(prefix@, v@, on, 0) =~= head);
    while i < v.len()
        invariant
            i <= v.len(),
            text::texts(out@) == head + cochange_lines(prefix@, v@, on, i as int),
        decreases v.len() - i,
    {
        push_cochange(out, prefix.as_str(), &v[i], on);
        proof {
            text::lemma_append_two(
                head,
                cochange_lines(prefix@, v@, on, i as int),
                cochange_line(prefix@, v@[i as int], on),
                Seq::empty(),
            );
        }
        i = i + 1;
    }
    assert(text::texts(out@) =~= start + cochanges_text(*b, on));
}

// ---------------------------------------------------------------------------
// Stability, open tasks and hints
// ---------------------------------------------------------------------------

pub open spec fn bullet(s: Option<String>) -> Seq<Seq<char>> {
    match s {
        Some(t) => seq!["  \u{25cf} "@ + t@],
        None => Seq::empty(),
    }
}

pub open spec fn stability_text(b: Briefing, on: bool) -> Seq<Seq<char>> {
    if b.revert is None && b.ownership is None && b.last_author is None {
        Seq::empty()
    } else {
        heading("Stability"@, colors::GRAY@, on) + bullet(b.revert) + bullet(b.ownership) + (
        match b.last_author {
            Some(a) => seq![
                "  \u{25cf} Last author: "@ + a@ + "  ("@ + text::dec(b.change_frequency as nat)
                    + " commits)"@,
            ],
            None => Seq::empty(),
        })
    }
}

fn push_stability(out: &mut Vec<String>, b: &Briefing, on: bool)
    ensures
        text::texts(final(out)@) == text::texts(old(out)@) + stability_text(*b, on),
{
    let ghost start = text::texts(out@);
    if b.revert.is_none() && b.ownership.is_none() && b.last_author.is_none() {
        assert(start + stability_text(*b, on) =~= start);
        return ;
    }
    push_heading(out, "Stability", colors::GRAY, on);
    if let Some(t) = &b.revert {
        text::push_line(out, "  \u{25cf} ".to_owned().concat(t.as_str()));
    }
    if let Some(t) = &b.ownership {
        text::push_line(out, "  \u{25cf} ".to_owned().concat(t.as_str()));
    }
    if let Some(a) = &b.last_author {
        text::push_line(
            out,
            "  \u{25cf} Last author: ".to_owned().concat(a.as_str()).concat("  (").concat(
                text::decimal(b.change_frequency).as_str(),
            ).concat(" commits)"),
        );
    }
    assert(text::texts(out@) =~= start + stability_text(*b, on));
}

pub open spec fn todo_lines(v: Seq<TodoItem>) -> Seq<Seq<char>> {
    v.map_values(|t: TodoItem| "  \u{25cf} line "@ + text::dec(t.line as nat) + ": "@ + t.text@)
}

/// At most five of the open tasks are listed.
pub open spec fn todos_text(v: Seq<TodoItem>, on: bool) -> Seq<Seq<char>> {
    if v.len() == 0 {
        Seq::empty()
    } else {
        heading("TODOs ("@ + text::dec(v.len()) + ")"@, colors::GRAY@, on) + todo_lines(
            if v.len() > 5 {
                v.take(5)
            } else {
                v
            },
        ) + (if v.len() > 5 {
            seq!["  \u{2026} and "@ + text::dec((v.len() - 5) as nat) + " more"@]
        } else {
            Seq::empty()
        })
    }
}

fn push_todos(out: &mut Vec<String>, v: &Vec<TodoItem>, on: bool)
    ensures
        text::texts(final(out)@) == text::texts(old(out)@) + todos_text(v@, on),
{
    let ghost start = text::texts(out@);
    if v.is_empty() {
        assert(start + todos_text(v@, on) =~= start);
        return ;
    }
    let title = "TODOs (".to_owned().concat(text::decimal(v.len() as u64).as_str()).concat(")");
    push_heading(out, title.as_str(), colors::GRAY, on);
    let ghost head = text::texts(out@);
    let n: usize = if v.len() > 5 {
        5
    } else {
        v.len()
    };
    let mut i: usize = 0;
    assert(head + todo_lines(v@.take(0)) =~= head);
    while i < n
        invariant
            i <= n <= v.len(),
            text::texts(out@) == head + todo_lines(v@.take(i as int)),
        decreases n - i,
    {
        text::push_line(
            out,
            "  \u{25cf} line ".to_owned().concat(text::decimal(v[i].line).as_str()).concat(
                ": ",
            ).concat(v[i].text.as_str()),
        );
        assert(text::texts(out@) =~= head + todo_lines(v@.take(i + 1)));
        i = i + 1;
    }
    if v.len() > 5 {
        text::push_line(
            out,
            "  \u{2026} and ".to_owned().concat(text::decimal((v.len() - 5) as u64).as_str()).concat(
                " more",
            ),
        );
    } else {
        assert(v@.take(i as int) =~= v@);
    }
    assert(text::texts(out@) =~= start + todos_text(v@, on));
}

/// How many of the first `n` gotchas await confirmation.
pub open spec fn unconfirmed(v: Seq<ExplainGotcha>, n: int) -> nat
    decreases n,
{
    if n <= 0 {
        0
    } else {
        unconfirmed(v, n - 1) + (if v[n - 1].confirmed == Some(false) {
            1nat
        } else {
            0
        })
    }
}

/// What could be done next.
pub open spec fn hint_text(b: Briefing, on: bool) -> Seq<Seq<char>> {
    let n = unconfirmed(b.gotchas@, b.gotchas@.len() as int);
    if n > 0 {
        seq![
            ""@,
            "  "@ + colors::tinted(on, colors::YELLOW@, text::dec(n) + " unconfirmed"@) + " "@
                + colors::tinted(
                on,
                colors::GRAY@,
                "\u{2014} run `mati review "@ + b.path@ + "` to confirm for hook enforcement"@,
            ),
        ]
    } else if b.gotchas@.len() == 0 && b.is_hotspot {
        seq![
            ""@,
            "  "@ + colors::tinted(on, colors::GRAY@, "Hotspot with no gotchas. Add one:"@),
            "  "@ + colors::tinted(
                on,
                colors::GRAY@,
                "  mati gotcha add "@ + b.path@ + " -r \"rule text\""@,
            ),
        ]
    } else if b.gotchas@.len() == 0 {
        seq![
            ""@,
            "  "@ + colors::tinted(
                on,
                colors::GRAY@,
                "No gotchas for this file. Add one: mati gotcha add "@ + b.path@
                    + " -r \"rule text\""@,
            ),
        ]
    } else {
        Seq::empty()
    }
}

fn count_unconfirmed(v: &Vec<ExplainGotcha>) -> (r: u64)
    ensures
        r == unconfirmed(v@, v@.len() as int),
{
    let mut n: u64 = 0;
    let mut i: usize = 0;
    while i < v.len()
        invariant
            i <= v.len(),
            n <= i,
            n == unconfirmed(v@, i as int),
        decreases v.len() - i,
    {
        if let Some(c) = v[i].confirmed {
            if !c {
                n = n + 1;
            }
        }
        i = i + 1;
    }
    n
}

fn push_hint(out: &mut Vec<String>, b: &Briefing, on: bool)
    ensures
        text::texts(final(out)@) == text::texts(old(out)@) + hint_text(*b, on),
{
    let n = count_unconfirmed(&b.gotchas);
    if n > 0 {
        text::push_line(out, "".to_owned());
        let count = text::decimal(n).concat(" unconfirmed");
        let what = "\u{2014} run `mati review ".to_owned().concat(b.path.as_str()).concat(
            "` to confirm for hook enforcement",
        );
        text::push_line(
            out,
            "  ".to_owned().concat(
                colors::paint(on, colors::YELLOW, count.as_str()).as_str(),
            ).concat(" ").concat(colors::paint(on, colors::GRAY, what.as_str()).as_str()),
        );
    } else if b.gotchas.is_empty() && b.is_hotspot {
        text::push_line(out, "".to_owned());
        text::push_line(
            out,
            "  ".to_owned().concat(
                colors::paint(on, colors::GRAY, "Hotspot with no gotchas. Add one:").as_str(),
            ),
        );
        let what = "  mati gotcha add ".to_owned().concat(b.path.as_str()).concat(
            " -r \"rule text\"",
        );
        text::push_line(
            out,
            "  ".to_owned().concat(colors::paint(on, colors::GRAY, what.as_str()).as_str()),
        );
    } else if b.gotchas.is_empty() {
        text::push_line(out, "".to_owned());
        let what = "No gotchas for this file. Add one: mati gotcha add ".to_owned().concat(
            b.path.as_str(),
        ).concat(" -r \"rule text\"");
        text::push_line(
            out,
            "  ".to_owned().concat(colors::paint(on, colors::GRAY, what.as_str()).as_str()),
        );
    }
    assert(text::texts(out@) =~= text::texts(old(out)@) + hint_text(*b, on));
}

// ---------------------------------------------------------------------------
// The briefing
// ---------------------------------------------------------------------------

pub open spec fn first_half(b: Briefing, on: bool) -> Seq<Seq<char>> {
    head_text(b, on) + blast_text(b.blast, on) + stale_text(b.tier, on) + gotchas_text(
        b.gotchas@,
        on,
    ) + decisions_text(b, on)
}

/// What `mati explain` prints.
pub open spec fn briefing_text(b: Briefing, on: bool) -> Seq<Seq<char>> {
    first_half(b, on) + cochanges_text(b, on) + stability_text(b, on) + todos_text(b.todos@, on)
        + hint_text(b, on) + seq![""@]
}

/// The lines of the briefing.
pub fn briefing(b: &Briefing, on: bool) -> (r: Vec<String>)
    ensures
        text::texts(r@) == briefing_text(*b, on),
{
    let mut out: Vec<String> = Vec::new();
    assert(text::texts(out@) + head_text(*b, on) =~= head_text(*b, on));
    push_head(&mut out, b, on);
    push_blast(&mut out, &b.blast, on);
    push_stale(&mut out, b.tier, on);
    push_gotchas(&mut out, &b.gotchas, on);
    push_decisions(&mut out, b, on);
    push_cochanges(&mut out, b, on);
    push_stability(&mut out, b, on);
    push_todos(&mut out, &b.todos, on);
    push_hint(&mut out, b, on);
    let ghost before = text::texts(out@);
    text::push_line(&mut out, "".to_owned());
    assert(text::texts(out@) =~= before + seq![""@]);
    out
}

/// The answer where nothing is known of a file.
pub fn no_record(path: &str) -> (r: String)
    ensures
        r@ == "No record for '"@ + path@ + "'. Run `mati init` first."@,
{
    "No record for '".to_owned().concat(path).concat("'. Run `mati init` first.")
}

// ---------------------------------------------------------------------------
// What a briefing is for
// ---------------------------------------------------------------------------

/// Without colours a gotcha is called confirmed exactly where its payload says so
/// and unconfirmed otherwise. Its source and its confidence are told, and a
/// confirmed one is marked where it is stale.
pub proof fn law_provenance_tells_confirmation(g: ExplainGotcha)
    ensures
        ({
            let p = provenance(g, false);
            let facts = record::source_cue(g.source) + ", "@ + g.confidence@ + ")"@;
            &&& g.confirmed == Some(true) <==> "(confirmed, "@.is_prefix_of(p)
            &&& g.confirmed != Some(true) <==> "(unconfirmed, "@.is_prefix_of(p)
            &&& text::text_contains(p, facts)
            &&& g.confirmed == Some(true) && (g.tier == StalenessTier::Stale || g.tier
                == StalenessTier::Liability || g.tier == StalenessTier::Tombstone) ==> " stale"@.is_suffix_of(
                p,
            )
            &&& g.confirmed != Some(true) || g.tier == StalenessTier::Fresh || g.tier
                == StalenessTier::Aging ==> facts.is_suffix_of(p)
        }),
{
    let p = provenance(g, false);
    let facts = record::source_cue(g.source) + ", "@ + g.confidence@ + ")"@;
    let none = Seq::<char>::empty();
    reveal_strlit("");
    reveal_strlit("(");
    reveal_strlit(", ");
    reveal_strlit("confirmed");
    reveal_strlit("unconfirmed");
    reveal_strlit("(confirmed, ");
    reveal_strlit("(unconfirmed, ");
    reveal_strlit("stale");
    reveal_strlit(" ");
    reveal_strlit(" stale");
    colors::law_painting_keeps_the_text(colors::GREEN@, "confirmed"@);
    colors::law_painting_keeps_the_text(colors::YELLOW@, "unconfirmed"@);
    colors::law_painting_keeps_the_text(colors::YELLOW@, "stale"@);
    colors::law_painting_keeps_the_text(colors::GRAY@, none);
    colors::law_painting_keeps_the_text(colors::RESET@, none);
    let yes = "(confirmed, "@;
    let no = "(unconfirmed, "@;
    assert("("@ + "confirmed"@ + ", "@ =~= yes);
    assert("("@ + "unconfirmed"@ + ", "@ =~= no);
    let stale = record::is_stale_tier(g.tier);
    if g.confirmed == Some(true) {
        let tail = if stale {
            " stale"@
        } else {
            none
        };
        assert(" "@ + "stale"@ =~= " stale"@);
        assert(p =~= yes + facts + tail);
        text::lemma_part_occurs(yes, facts, tail);
        assert(p.subrange(0, yes.len() as int) =~= yes);
        assert(p[1] == 'c' && no[1] == 'u');
        if no.is_prefix_of(p) {
            assert(p.subrange(0, no.len() as int)[1] == no[1]);
        }
        if stale {
            assert(p.subrange(p.len() - 6, p.len() as int) =~= " stale"@);
        } else {
            assert(p.subrange(p.len() - facts.len(), p.len() as int) =~= facts);
        }
    } else {
        assert(p =~= no + facts + none);
        text::lemma_part_occurs(no, facts, none);
        assert(p.subrange(0, no.len() as int) =~= no);
        assert(p[1] == 'u' && yes[1] == 'c');
        if yes.is_prefix_of(p) {
            assert(p.subrange(0, yes.len() as int)[1] == yes[1]);
        }
        assert(p.subrange(p.len() - facts.len(), p.len() as int) =~= facts);
    }
}

/// A gotcha's line names its severity where that is critical or high, and holds the
/// first line of its text and its provenance.
pub proof fn law_gotcha_line_tells_severity(g: ExplainGotcha)
    ensures
        ({
            let rest = record::first_line(g.value@) + "  "@ + provenance(g, false);
            gotcha_line(g, false) == (match g.priority {
                Priority::Critical => "  \u{25cf} CRITICAL "@,
                Priority::High => "  \u{25cf} HIGH "@,
                Priority::Normal | Priority::Low => "  \u{25cf} "@,
            }) + rest
        }),
{
    reveal_strlit("");
    reveal_strlit(" ");
    reveal_strlit("  \u{25cf} ");
    reveal_strlit("CRITICAL");
    reveal_strlit("HIGH");
    reveal_strlit("  \u{25cf} CRITICAL ");
    reveal_strlit("  \u{25cf} HIGH ");
    colors::law_painting_keeps_the_text(colors::RED@, "CRITICAL"@);
    colors::law_painting_keeps_the_text(colors::YELLOW@, "HIGH"@);
    assert("  \u{25cf} "@ + ("CRITICAL"@ + " "@) =~= "  \u{25cf} CRITICAL "@);
    assert("  \u{25cf} "@ + ("HIGH"@ + " "@) =~= "  \u{25cf} HIGH "@);
    let rest = record::first_line(g.value@) + "  "@ + provenance(g, false);
    let tag = priority_tag(g.priority, false);
    assert(gotcha_line(g, false) =~= ("  \u{25cf} "@ + tag) + rest);
    assert("  \u{25cf} "@ + ""@ =~= "  \u{25cf} "@);
}

/// The number in the hint to review is that of the gotchas that are known to be
/// unconfirmed. No more lines than that can be missing the mark of confirmation:
/// each of them is marked unconfirmed.
pub proof fn law_review_hint_counts_the_unconfirmed(v: Seq<ExplainGotcha>)
    ensures
        unconfirmed(v, v.len() as int) == v.filter(
            |g: ExplainGotcha| g.confirmed == Some(false),
        ).len(),
        unconfirmed(v, v.len() as int) <= v.filter(
            |g: ExplainGotcha| "(unconfirmed, "@.is_prefix_of(provenance(g, false)),
        ).len(),
    decreases v.len(),
{
    let f = |g: ExplainGotcha| g.confirmed == Some(false);
    let h = |g: ExplainGotcha| "(unconfirmed, "@.is_prefix_of(provenance(g, false));
    if v.len() == 0 {
        reveal(Seq::filter);
        assert(v.filter(f).len() == 0);
    } else {
        let t = v.drop_last();
        law_review_hint_counts_the_unconfirmed(t);
        assert(v =~= t.push(v.last()));
        t.lemma_filter_push(v.last(), f);
        t.lemma_filter_push(v.last(), h);
        law_provenance_tells_confirmation(v.last());
        lemma_unconfirmed_prefix(t, v, t.len() as int);
    }
}

proof fn lemma_unconfirmed_prefix(a: Seq<ExplainGotcha>, b: Seq<ExplainGotcha>, n: int)
    requires
        0 <= n <= a.len() <= b.len(),
        forall|i: int| 0 <= i < n ==> a[i] == #[trigger] b[i],
    ensures
        unconfirmed(a, n) == unconfirmed(b, n),
    decreases n,
{
    if n > 0 {
        lemma_unconfirmed_prefix(a, b, n - 1);
        assert(a[n - 1] == b[n - 1]);
    }
}

/// Where a gotcha is unconfirmed the briefing ends with the hint to review it, with
/// the number of such gotchas; where there is no gotcha at all it says how to add
/// one; else there is no hint.
pub proof fn law_hint_fits_the_gotchas(b: Briefing)
    ensures
        ({
            let h = hint_text(b, false);
            let n = b.gotchas@.filter(|g: ExplainGotcha| g.confirmed == Some(false)).len();
            if n > 0 {
                h == seq![
                    ""@,
                    "  "@ + text::dec(n) + " unconfirmed \u{2014} run `mati review "@ + b.path@
                        + "` to confirm for hook enforcement"@,
                ]
            } else if b.gotchas@.len() == 0 {
                &&& h.len() > 0
                &&& text::text_contains(h.last(), "mati gotcha add "@ + b.path@ + " -r"@)
            } else {
                h.len() == 0
            }
        }),
{
    law_review_hint_counts_the_unconfirmed(b.gotchas@);
    let n = unconfirmed(b.gotchas@, b.gotchas@.len() as int);
    let h = hint_text(b, false);
    let what = "\u{2014} run `mati review "@ + b.path@ + "` to confirm for hook enforcement"@;
    colors::law_painting_keeps_the_text(colors::YELLOW@, text::dec(n) + " unconfirmed"@);
    colors::law_painting_keeps_the_text(colors::GRAY@, what);
    reveal_strlit(" unconfirmed");
    reveal_strlit(" ");
    reveal_strlit("\u{2014} run `mati review ");
    reveal_strlit(" unconfirmed \u{2014} run `mati review ");
    assert(" unconfirmed"@ + " "@ + "\u{2014} run `mati review "@
        =~= " unconfirmed \u{2014} run `mati review "@);
    if n > 0 {
        assert(h[1] =~= "  "@ + text::dec(n) + " unconfirmed \u{2014} run `mati review "@ + b.path@
            + "` to confirm for hook enforcement"@);
    } else if b.gotchas@.len() == 0 {
        let call = "mati gotcha add "@ + b.path@ + " -r"@;
        reveal_strlit("mati gotcha add ");
        reveal_strlit("  mati gotcha add ");
        reveal_strlit(" -r");
        reveal_strlit(" -r \"rule text\"");
        reveal_strlit("No gotchas for this file. Add one: mati gotcha add ");
        let one = "  mati gotcha add "@ + b.path@ + " -r \"rule text\""@;
        let other = "No gotchas for this file. Add one: mati gotcha add "@ + b.path@
            + " -r \"rule text\""@;
        colors::law_painting_keeps_the_text(colors::GRAY@, one);
        colors::law_painting_keeps_the_text(colors::GRAY@, other);
        let whole = h.last();
        if b.is_hotspot {
            let rest = " -r \"rule text\""@.skip(3);
            assert(whole =~= ("  "@ + "  mati gotcha add "@.take(2)) + call + rest);
            text::lemma_part_occurs("  "@ + "  mati gotcha add "@.take(2), call, rest);
        } else {
            let rest = " -r \"rule text\""@.skip(3);
            let lead = "No gotchas for this file. Add one: mati gotcha add "@.take(35);
            assert(whole =~= ("  "@ + lead) + call + rest);
            text::lemma_part_occurs("  "@ + lead, call, rest);
        }
    }
}

/// A record that is stale is told so, and one that is a liability or a tombstone is
/// called outdated; others are not warned of.
pub proof fn law_stale_records_are_told(t: StalenessTier)
    ensures
        stale_text(t, false).len() == (match t {
            StalenessTier::Fresh | StalenessTier::Aging => 0nat,
            _ => 1,
        }),
        t == StalenessTier::Stale ==> "  stale "@.is_prefix_of(stale_text(t, false)[0]),
        t == StalenessTier::Liability || t == StalenessTier::Tombstone ==> "  outdated "@.is_prefix_of(
            stale_text(t, false)[0],
        ),
{
    reveal_strlit("  ");
    reveal_strlit(" ");
    reveal_strlit("stale");
    reveal_strlit("outdated");
    reveal_strlit("  stale ");
    reveal_strlit("  outdated ");
    colors::law_painting_keeps_the_text(colors::YELLOW@, "stale"@);
    colors::law_painting_keeps_the_text(colors::RED@, "outdated"@);
    assert("  "@ + "stale"@ + " "@ =~= "  stale "@);
    assert("  "@ + "outdated"@ + " "@ =~= "  outdated "@);
    let l = stale_text(t, false);
    if t == StalenessTier::Stale {
        assert(l[0].subrange(0, "  stale "@.len() as int) =~= "  stale "@);
    }
    if t == StalenessTier::Liability || t == StalenessTier::Tombstone {
        assert(l[0].subrange(0, "  outdated "@.len() as int) =~= "  outdated "@);
    }
}

/// Every gotcha, every linked decision, the revert and ownership notes and the
/// first five open tasks have their line in the briefing.
pub proof fn law_briefing_shows_all(b: Briefing, on: bool)
    ensures
        forall|i: int|
            0 <= i < b.gotchas@.len() ==> briefing_text(b, on).contains(
                gotcha_line(#[trigger] b.gotchas@[i], on),
            ),
        forall|i: int|
            0 <= i < b.decisions@.len() && b.has_decisions ==> briefing_text(b, on).contains(
                "  \u{25cf} "@ + (#[trigger] b.decisions@[i]).key@ + " \u{2014} "@
                    + b.decisions@[i].value@,
            ),
        b.revert matches Some(t) ==> briefing_text(b, on).contains("  \u{25cf} "@ + t@),
        b.ownership matches Some(t) ==> briefing_text(b, on).contains("  \u{25cf} "@ + t@),
        forall|i: int|
            0 <= i < b.todos@.len() && i < 5 ==> briefing_text(b, on).contains(
                "  \u{25cf} line "@ + text::dec((#[trigger] b.todos@[i]).line as nat) + ": "@
                    + b.todos@[i].text@,
            ),
        forall|i: int|
            0 <= i < b.cochanges@.len() && cochange_prefix(b.path@).is_prefix_of(
                (#[trigger] b.cochanges@[i]).key@,
            ) ==> briefing_text(b, on).contains(
                cochange_line(cochange_prefix(b.path@), b.cochanges@[i], on)[0],
            ),
        forall|i: int|
            0 <= i < stale_text(b.tier, on).len() ==> briefing_text(b, on).contains(
                #[trigger] stale_text(b.tier, on)[i],
            ),
        forall|i: int|
            0 <= i < hint_text(b, on).len() ==> briefing_text(b, on).contains(
                #[trigger] hint_text(b, on)[i],
            ),
{
    let whole = briefing_text(b, on);
    let gs = gotchas_text(b.gotchas@, on);
    let ds = decisions_text(b, on);
    let cs = cochanges_text(b, on);
    let st = stability_text(b, on);
    let ts = todos_text(b.todos@, on);
    assert forall|i: int| 0 <= i < b.gotchas@.len() implies whole.contains(
        gotcha_line(#[trigger] b.gotchas@[i], on),
    ) by {
        assert(gs[2 + i] == gotcha_line(b.gotchas@[i], on));
        lemma_line_of_the_briefing(b, on, gs[2 + i]);
    }
    assert forall|i: int| 0 <= i < b.decisions@.len() && b.has_decisions implies whole.contains(
        "  \u{25cf} "@ + (#[trigger] b.decisions@[i]).key@ + " \u{2014} "@ + b.decisions@[i].value@,
    ) by {
        assert(ds[2 + i] == decision_lines(b.decisions@)[i]);
        lemma_line_of_the_briefing(b, on, ds[2 + i]);
    }
    if b.revert is Some {
        assert(st[2] == bullet(b.revert)[0]);
        lemma_line_of_the_briefing(b, on, st[2]);
    }
    if b.ownership is Some {
        let k = 2 + bullet(b.revert).len() as int;
        assert(st[k] == bullet(b.ownership)[0]);
        lemma_line_of_the_briefing(b, on, st[k]);
    }
    assert forall|i: int| 0 <= i < b.todos@.len() && i < 5 implies whole.contains(
        "  \u{25cf} line "@ + text::dec((#[trigger] b.todos@[i]).line as nat) + ": "@
            + b.todos@[i].text@,
    ) by {
        let few = if b.todos@.len() > 5 {
            b.todos@.take(5)
        } else {
            b.todos@
        };
        assert(few[i] == b.todos@[i]);
        assert(ts[2 + i] == todo_lines(few)[i]);
        lemma_line_of_the_briefing(b, on, ts[2 + i]);
    }
    assert forall|i: int|
        0 <= i < b.cochanges@.len() && cochange_prefix(b.path@).is_prefix_of(
            (#[trigger] b.cochanges@[i]).key@,
        ) implies whole.contains(
        cochange_line(cochange_prefix(b.path@), b.cochanges@[i], on)[0],
    ) by {
        let p = cochange_prefix(b.path@);
        let n = b.cochanges@.len() as int;
        let k = lemma_cochange_line_is_there(p, b.cochanges@, on, n, i);
        assert(cs[2 + k] == cochange_lines(p, b.cochanges@, on, n)[k]);
        lemma_line_of_the_briefing(b, on, cs[2 + k]);
    }
    assert forall|i: int| 0 <= i < stale_text(b.tier, on).len() implies whole.contains(
        #[trigger] stale_text(b.tier, on)[i],
    ) by {
        lemma_line_of_the_briefing(b, on, stale_text(b.tier, on)[i]);
    }
    assert forall|i: int| 0 <= i < hint_text(b, on).len() implies whole.contains(
        #[trigger] hint_text(b, on)[i],
    ) by {
        lemma_line_of_the_briefing(b, on, hint_text(b, on)[i]);
    }
}

proof fn lemma_line_of_the_briefing(b: Briefing, on: bool, x: Seq<char>)
    requires
        stale_text(b.tier, on).contains(x) || gotchas_text(b.gotchas@, on).contains(x)
            || decisions_text(b, on).contains(x) || cochanges_text(b, on).contains(x)
            || stability_text(b, on).contains(x) || todos_text(b.todos@, on).contains(x)
            || hint_text(b, on).contains(x),
    ensures
        briefing_text(b, on).contains(x),
{
    let a1 = head_text(b, on) + blast_text(b.blast, on);
    let a2 = a1 + stale_text(b.tier, on);
    let a3 = a2 + gotchas_text(b.gotchas@, on);
    let a4 = a3 + decisions_text(b, on);
    let a5 = a4 + cochanges_text(b, on);
    let a6 = a5 + stability_text(b, on);
    let a7 = a6 + todos_text(b.todos@, on);
    let a8 = a7 + hint_text(b, on);
    text::lemma_line_of_either(a1, stale_text(b.tier, on), x);
    text::lemma_line_of_either(a2, gotchas_text(b.gotchas@, on), x);
    text::lemma_line_of_either(a3, decisions_text(b, on), x);
    text::lemma_line_of_either(a4, cochanges_text(b, on), x);
    text::lemma_line_of_either(a5, stability_text(b, on), x);
    text::lemma_line_of_either(a6, todos_text(b.todos@, on), x);
    text::lemma_line_of_either(a7, hint_text(b, on), x);
    text::lemma_line_of_either(a8, seq![""@], x);
}

proof fn lemma_cochange_line_is_there(
    prefix: Seq<char>,
    v: Seq<KeyValue>,
    on: bool,
    n: int,
    i: int,
) -> (k: int)
    requires
        0 <= i < n <= v.len(),
        prefix.is_prefix_of(v[i].key@),
    ensures
        0 <= k < cochange_lines(prefix, v, on, n).len(),
        cochange_lines(prefix, v, on, n)[k] == cochange_line(prefix, v[i], on)[0],
    decreases n,
{
    if i < n - 1 {
        lemma_cochange_line_is_there(prefix, v, on, n - 1, i)
    } else {
        cochange_lines(prefix, v, on, n - 1).len() as int
    }
}

/// A co-change is shown by the other file, and the keys that are looked up are
/// those under which the gotchas were stored.
pub proof fn law_cochange_line_names_the_partner(
    path: Seq<char>,
    target: Seq<char>,
    c: KeyValue,
)
    requires
        c.key@ == crate::signals::cochange_key(path, target),
    ensures
        cochange_prefix(path).is_prefix_of(c.key@),
        ({
            let l = cochange_line(cochange_prefix(path), c, false);
            l.len() == 1 && ("  \u{25cf} "@ + target).is_prefix_of(l[0])
        }),
{
    let p = cochange_prefix(path);
    assert(c.key@ =~= p + target);
    assert(c.key@.subrange(0, p.len() as int) =~= p);
    assert(c.key@.skip(p.len() as int) =~= target);
    colors::law_painting_keeps_the_text(colors::CYAN@, target);
    let l = cochange_line(p, c, false);
    let h = "  \u{25cf} "@ + target;
    assert(l[0].subrange(0, h.len() as int) =~= h);
}

/// The share that a rule states is what stands between `commits (` and the next
/// closing bracket.
pub proof fn law_share_is_read_from_the_rule(
    head: Seq<char>,
    share: Seq<char>,
    rest: Seq<char>,
)
    requires
        forall|j: int|
            0 <= j < head.len() ==> !#[trigger] text::occurs_at(
                head + "commits ("@ + share + ")"@ + rest,
                "commits ("@,
                j,
            ),
        !share.contains(')'),
        forall|j: int| 0 <= j ==> !#[trigger] text::occurs_at(share + ")"@ + rest, "commits ("@, j),
    ensures
        share_in(head + "commits ("@ + share + ")"@ + rest) == Some(share),
{
    let needle = "commits ("@;
    reveal_strlit("commits (");
    reveal_strlit(")");
    let value = head + needle + share + ")"@ + rest;
    let tail = share + ")"@ + rest;
    assert(value =~= head + needle + tail);
    text::lemma_part_occurs(head, needle, tail);
    lemma_position(value, needle, 0, head.len() as int);
    assert(value.skip(head.len() + needle.len() as int) =~= tail);
    lemma_no_position(tail, needle, 0);
    assert(tail.take(tail.len() as int) =~= tail);
    text::lemma_part_occurs(share, ")"@, rest);
    assert forall|j: int| 0 <= j < share.len() implies !text::occurs_at(tail, ")"@, j) by {
        if text::occurs_at(tail, ")"@, j) {
            assert(tail.subrange(j, j + 1)[0] == tail[j]);
            assert(share[j] == ')');
        }
    }
    lemma_position(tail, ")"@, 0, share.len() as int);
    assert(tail.take(share.len() as int) =~= share);
}

/// Among all gotchas those are shown that are active and name the file, in order.
pub proof fn law_naming_gotchas_name_the_file(v: Seq<GotchaLink>, path: Seq<char>, n: int)
    requires
        0 <= n <= v.len(),
    ensures
        forall|k: int|
            #[trigger] naming_of(v, path, n).contains(k) <==> 0 <= k < n && v[k].active && (
            v[k].affected matches Some(files) && text::texts(files@).contains(path)),
        forall|a: int, b: int|
            0 <= a < b < naming_of(v, path, n).len() ==> #[trigger] naming_of(v, path, n)[a]
                < #[trigger] naming_of(v, path, n)[b],
    decreases n,
{
    if n > 0 {
        law_naming_gotchas_name_the_file(v, path, n - 1);
        let before = naming_of(v, path, n - 1);
        let all = naming_of(v, path, n);
        assert forall|k: int|
            #[trigger] all.contains(k) <==> 0 <= k < n && v[k].active && (v[k].affected matches Some(
                files,
            ) && text::texts(files@).contains(path)) by {
            if all.contains(k) {
                let j = choose|j: int| 0 <= j < all.len() && all[j] == k;
                if j < before.len() {
                    assert(before[j] == k);
                    assert(before.contains(k));
                }
            }
            if before.contains(k) {
                let j = choose|j: int| 0 <= j < before.len() && before[j] == k;
                assert(all[j] == k);
            }
            if k == n - 1 && names(v[k], path) {
                assert(all[before.len() as int] == k);
            }
        }
        assert forall|a: int, b: int| 0 <= a < b < all.len() implies #[trigger] all[a]
            < #[trigger] all[b] by {
            if b < before.len() {
                assert(before[a] < before[b]);
            } else {
                assert(before.contains(before[a]));
            }
        }
    }
}

/// A lead of `./` does not matter, however often it stands there; other paths stay.
pub proof fn law_dot_slash_is_ignored(path: Seq<char>)
    ensures
        plain_path(seq!['.', '/'] + path) == plain_path(path),
        !(path.len() >= 2 && path[0] == '.' && path[1] == '/') ==> plain_path(path) == path,
{
    assert((seq!['.', '/'] + path).skip(2) =~= path);
}

/// The head names the file and its purpose, the confidence, the quality and the
/// source, and a hotspot is called one.
pub proof fn law_head_tells_the_file(b: Briefing)
    ensures
        ({
            let h = head_text(b, false);
            &&& h.len() == 3
            &&& b.purpose@.len() > 0 ==> b.purpose@.is_suffix_of(h[1])
            &&& b.purpose@.len() == 0 ==> "(no purpose recorded)"@.is_suffix_of(h[1])
            &&& ("  "@ + shown_name(b.path@)).is_prefix_of(h[1])
            &&& text::text_contains(h[2], "confidence "@ + b.confidence@)
            &&& text::text_contains(h[2], "source: "@ + record::source_cue(b.source))
            &&& b.is_hotspot ==> "  hotspot"@.is_suffix_of(h[2])
            &&& !b.is_hotspot ==> record::source_cue(b.source).is_suffix_of(h[2])
        }),
{
    let h = head_text(b, false);
    let name = shown_name(b.path@);
    colors::law_painting_keeps_the_text(colors::CYAN@, name);
    let hot = if b.is_hotspot {
        "  hotspot"@
    } else {
        ""@
    };
    let cue = record::source_cue(b.source);
    let facts = "confidence "@ + b.confidence@ + "  quality "@ + quality_word(b.quality)
        + "  source: "@ + cue + hot;
    colors::law_painting_keeps_the_text(colors::GRAY@, facts);
    reveal_strlit("");
    reveal_strlit("  source: ");
    reveal_strlit("source: ");
    let lead = "  "@ + name;
    assert(h[1].subrange(0, lead.len() as int) =~= lead);
    let p = shown_purpose(b.purpose@);
    assert(h[1].subrange(h[1].len() - p.len(), h[1].len() as int) =~= p);
    let conf = "confidence "@ + b.confidence@;
    let after = "  quality "@ + quality_word(b.quality) + "  source: "@ + cue + hot;
    assert(h[2] =~= "  "@ + conf + after);
    text::lemma_part_occurs("  "@, conf, after);
    let src = "source: "@ + cue;
    let before = "  "@ + conf + "  quality "@ + quality_word(b.quality) + "  source: "@.take(2);
    assert(h[2] =~= before + src + hot);
    text::lemma_part_occurs(before, src, hot);
    assert(h[2].subrange(h[2].len() - hot.len(), h[2].len() as int) =~= hot);
    if !b.is_hotspot {
        assert(h[2].subrange(h[2].len() - cue.len(), h[2].len() as int) =~= cue);
    }
}

} // verus!
