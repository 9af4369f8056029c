//! `mati show`: one record in full.
use vstd::prelude::*;
use vstd::utf8::*;
use crate::civil;
use crate::colors;
use crate::record;
use crate::record::{Category, Priority, QualitySignal, QualityTier, RecordLifecycle, RecordSource, Score, StalenessTier};
use crate::search;
use crate::text;

verus! {

/// Arguments of `mati show`.
#[derive(Debug, PartialEq, Eq)]
pub struct ShowArgs {
    pub key: String,
}

#[derive(Debug, Clone, Copy, PartialEq, Eq, Structural)]
pub enum BlastTier {
    Critical,
    High,
    Lower,
}

/// How much of the code depends on a file.
#[derive(Debug, PartialEq, Eq)]
pub struct BlastRadius {
    pub direct: u64,
    pub transitive: u64,
    /// The score with one decimal.
    pub score: String,
    pub tier: BlastTier,
    pub tier_label: String,
}

/// A record with all that `mati show` prints.
#[derive(Debug, PartialEq, Eq)]
pub struct ShownRecord {
    pub key: String,
    pub value: String,
    pub category: Category,
    pub lifecycle: RecordLifecycle,
    pub confidence: Score,
    /// The confidence that the source alone gives, with two decimals.
    pub base_confidence: String,
    pub confirmations: u64,
    pub contributors: u64,
    pub challenges: u64,
    pub last_challenged: Option<u64>,
    pub quality: Score,
    pub quality_tier: QualityTier,
    pub quality_signals: Vec<QualitySignal>,
    pub staleness: Score,
    pub staleness_tier: StalenessTier,
    pub last_record_sha: String,
    pub blast_radius: Option<BlastRadius>,
    pub priority: Priority,
    pub source: RecordSource,
    pub created_at: u64,
    pub updated_at: u64,
    pub last_accessed: u64,
    pub access_count: u64,
    pub ref_url: Option<String>,
    pub tags: Vec<String>,
    /// The gap score with three decimals, where it is above 0.
    pub gap_score: Option<String>,
    pub device_id: String,
    pub logical_clock: u64,
    pub wall_clock: u64,
}

// ---------------------------------------------------------------------------
// Bare namespaces
// ---------------------------------------------------------------------------

/// What `mati show` does with its argument.
#[derive(Debug, Clone, Copy, PartialEq, Eq, Structural)]
pub enum ShowTarget {
    /// Show the record.
    Record,
    /// The argument is a bare namespace: list it, or everything where it is not
    /// one that can be listed.
    ListGotchas,
    ListFiles,
    ListDecisions,
    ListAll,
}

pub open spec fn show_target_of(key: Seq<char>) -> ShowTarget {
    if !":"@.is_suffix_of(key) {
        ShowTarget::Record
    } else {
        let name = search::trim_colons(key);
        if name == "gotcha"@ || name == "gotchas"@ {
            ShowTarget::ListGotchas
        } else if name == "file"@ || name == "files"@ {
            ShowTarget::ListFiles
        } else if name == "decision"@ || name == "decisions"@ {
            ShowTarget::ListDecisions
        } else {
            ShowTarget::ListAll
        }
    }
}

pub fn show_target(key: &str) -> (r: ShowTarget)
    ensures
        r == show_target_of(key@),
{
    if !text::ends_with(key, ":") {
        return ShowTarget::Record;
    }
    let name = search::without_colons(key);
    if text::same(name, "gotcha") || text::same(name, "gotchas") {
        ShowTarget::ListGotchas
    } else if text::same(name, "file") || text::same(name, "files") {
        ShowTarget::ListFiles
    } else if text::same(name, "decision") || text::same(name, "decisions") {
        ShowTarget::ListDecisions
    } else {
        ShowTarget::ListAll
    }
}

/// The message for a key without a record.
pub fn not_found(key: &str) -> (r: String)
    ensures
        r@ == "no record found for key '"@ + key@
            + "'.\nRun `mati ls` to see available records, or check key spelling."@,
{
    "no record found for key '".to_owned().concat(key).concat(
        "'.\nRun `mati ls` to see available records, or check key spelling.",
    )
}

// ---------------------------------------------------------------------------
// Byte prefixes
// ---------------------------------------------------------------------------

/// The characters of the first `n` bytes.
pub open spec fn byte_head(s: Seq<char>, n: int) -> Seq<char> {
    decode_utf8(encode_utf8(s).subrange(0, n))
}

/// The first `n` bytes of a text. They must end between two characters.
pub fn byte_prefix(s: &str, n: usize) -> (r: &str)
    requires
        is_char_boundary(encode_utf8(s@), n as int),
    ensures
        r@ == byte_head(s@, n as int),
{
    let (head, _) = s.split_at(n);
    proof {
        encode_utf8_decode_utf8(head@);
    }
    head
}

/// How many bytes of a commit hash are shown.
pub open spec fn sha_len(sha: Seq<char>) -> nat {
    if text::byte_len(sha) < 12 {
        text::byte_len(sha)
    } else {
        12
    }
}

// ---------------------------------------------------------------------------
// Sections
// ---------------------------------------------------------------------------

/// The title of a section.
pub open spec fn title(on: bool, name: Seq<char>) -> Seq<char> {
    colors::tinted(on, colors::BLUE@, name)
}

pub open spec fn lifecycle_lines(l: RecordLifecycle, on: bool) -> Seq<Seq<char>> {
    match l {
        RecordLifecycle::Active => Seq::empty(),
        RecordLifecycle::Tombstoned { reason } => seq![
            "  "@ + colors::tinted(on, colors::RED@, "[TOMBSTONED]"@) + " "@ + colors::tinted(
                on,
                colors::GRAY@,
                reason@,
            ),
        ],
        RecordLifecycle::Superseded { by_key } => seq![
            "  "@ + colors::tinted(on, colors::YELLOW@, "[SUPERSEDED]"@) + " "@ + colors::tinted(
                on,
                colors::GRAY@,
                "by "@ + by_key@,
            ),
        ],
    }
}

pub open spec fn header_lines(r: ShownRecord, on: bool) -> Seq<Seq<char>> {
    let bold = colors::shade(on, colors::BOLD@);
    let reset = colors::shade(on, colors::RESET@);
    seq![
        ""@,
        bold + colors::shade(on, record::category_shade(r.category)) + record::category_name(
            r.category,
        ) + reset + "  "@ + bold + colors::shade(on, colors::WHITE@) + r.key@ + reset,
    ] + lifecycle_lines(r.lifecycle, on) + seq![""@]
}

fn push_header(out: &mut Vec<String>, r: &ShownRecord, on: bool)
    ensures
        text::texts(final(out)@) == text::texts(old(out)@) + header_lines(*r, on),
{
    let ghost head = text::texts(out@);
    let bold = colors::tint(on, colors::BOLD);
    let reset = colors::tint(on, colors::RESET);
    text::push_line(out, "".to_owned());
    text::push_line(
        out,
        bold.to_owned().concat(colors::tint(on, record::category_color(&r.category))).concat(
            record::category_label(&r.category),
        ).concat(reset).concat("  ").concat(bold).concat(colors::tint(on, colors::WHITE)).concat(
            r.key.as_str(),
        ).concat(reset),
    );
    match &r.lifecycle {
        RecordLifecycle::Active => {},
        RecordLifecycle::Tombstoned { reason } => {
            text::push_line(
                out,
                "  ".to_owned().concat(
                    colors::paint(on, colors::RED, "[TOMBSTONED]").as_str(),
                ).concat(" ").concat(colors::paint(on, colors::GRAY, reason.as_str()).as_str()),
            );
        },
        RecordLifecycle::Superseded { by_key } => {
            let by = "by ".to_owned().concat(by_key.as_str());
            text::push_line(
                out,
                "  ".to_owned().concat(
                    colors::paint(on, colors::YELLOW, "[SUPERSEDED]").as_str(),
                ).concat(" ").concat(colors::paint(on, colors::GRAY, by.as_str()).as_str()),
            );
        },
    }
    text::push_line(out, "".to_owned());
    assert(text::texts(out@) =~= head + header_lines(*r, on));
}

/// The lines of a text, indented and in white.
pub open spec fn body_lines(lines: Seq<Seq<char>>, on: bool) -> Seq<Seq<char>> {
    lines.map_values(|l: Seq<char>| "    "@ + colors::tinted(on, colors::WHITE@, l))
}

pub open spec fn value_lines(value: Seq<char>, on: bool) -> Seq<Seq<char>> {
    seq![title(on, "  value"@)] + body_lines(text::lines_of(value), on) + seq![""@]
}

fn push_value(out: &mut Vec<String>, value: &str, on: bool)
    ensures
        text::texts(final(out)@) == text::texts(old(out)@) + value_lines(value@, on),
{
    let ghost start = text::texts(out@);
    text::push_line(out, colors::paint(on, colors::BLUE, "  value"));
    let ls = text::lines(value);
    let ghost all = text::texts(ls@);
    let ghost head = text::texts(out@);
    let mut i: usize = 0;
    assert(head + body_lines(all.take(0), on) =~= head);
    while i < ls.len()
        invariant
            i <= ls.len(),
            all == text::texts(ls@),
            text::texts(out@) =~= head + body_lines(all.take(i as int), on),
        decreases ls.len() - i,
    {
        assert(all.take(i + 1) =~= all.take(i as int).push(all[i as int]));
        text::push_line(
            out,
            "    ".to_owned().concat(colors::paint(on, colors::WHITE, ls[i].as_str()).as_str()),
        );
        i = i + 1;
    }
    assert(all.take(i as int) =~= all);
    text::push_line(out, "".to_owned());
    assert(text::texts(out@) =~= start + value_lines(value@, on));
}

pub open spec fn confidence_lines(r: ShownRecord, on: bool) -> Seq<Seq<char>> {
    seq![
        title(on, "  confidence"@),
        "    value          "@ + colors::tinted(
            on,
            record::score_shade(r.confidence.bits),
            r.confidence.shown@,
        ) + "  "@ + colors::tinted(
            on,
            colors::GRAY@,
            "("@ + record::hook_tier_text(r.confidence.bits) + ")"@,
        ),
        "    base (source)  "@ + colors::tinted(on, colors::GRAY@, r.base_confidence@) + "  "@
            + colors::tinted(on, colors::GRAY@, "\u{2014} "@ + record::source_text(r.source)),
        "    confirmations  "@ + colors::tinted(
            on,
            colors::WHITE@,
            text::dec(r.confirmations as nat),
        ),
        "    contributors   "@ + colors::tinted(
            on,
            colors::WHITE@,
            text::dec(r.contributors as nat),
        ),
    ] + (if r.challenges > 0 {
        seq![
            "    challenges     "@ + colors::tinted(
                on,
                colors::YELLOW@,
                text::dec(r.challenges as nat),
            ),
        ]
    } else {
        Seq::<Seq<char>>::empty()
    }) + (match r.last_challenged {
        Some(ts) => seq![
            "    last challenged  "@ + colors::tinted(
                on,
                colors::GRAY@,
                civil::ts_second(ts as nat),
            ),
        ],
        None => Seq::<Seq<char>>::empty(),
    }) + seq![""@]
}

fn push_confidence(out: &mut Vec<String>, r: &ShownRecord, on: bool)
    ensures
        text::texts(final(out)@) == text::texts(old(out)@) + confidence_lines(*r, on),
{
    let ghost head = text::texts(out@);
    let tier = "(".to_owned().concat(record::hook_tier_label(&r.confidence)).concat(")");
    let source = "\u{2014} ".to_owned().concat(record::source_label(&r.source));
    text::push_line(out, colors::paint(on, colors::BLUE, "  confidence"));
    text::push_line(
        out,
        "    value          ".to_owned().concat(
            colors::paint(
                on,
                record::score_color(&r.confidence),
                r.confidence.shown.as_str(),
            ).as_str(),
        ).concat("  ").concat(colors::paint(on, colors::GRAY, tier.as_str()).as_str()),
    );
    text::push_line(
        out,
        "    base (source)  ".to_owned().concat(
            colors::paint(on, colors::GRAY, r.base_confidence.as_str()).as_str(),
        ).concat("  ").concat(colors::paint(on, colors::GRAY, source.as_str()).as_str()),
    );
    text::push_line(
        out,
        "    confirmations  ".to_owned().concat(
            colors::paint(on, colors::WHITE, text::decimal(r.confirmations).as_str()).as_str(),
        ),
    );
    text::push_line(
        out,
        "    contributors   ".to_owned().concat(
            colors::paint(on, colors::WHITE, text::decimal(r.contributors).as_str()).as_str(),
        ),
    );
    if r.challenges > 0 {
        text::push_line(
            out,
            "    challenges     ".to_owned().concat(
                colors::paint(on, colors::YELLOW, text::decimal(r.challenges).as_str()).as_str(),
            ),
        );
    }
    if let Some(ts) = r.last_challenged {
        text::push_line(
            out,
            "    last challenged  ".to_owned().concat(
                colors::paint(on, colors::GRAY, civil::format_ts(ts).as_str()).as_str(),
            ),
        );
    }
    text::push_line(out, "".to_owned());
    assert(text::texts(out@) =~= head + confidence_lines(*r, on));
}

/// The labels of quality signals.
pub open spec fn quality_signal_texts(s: Seq<QualitySignal>) -> Seq<Seq<char>> {
    s.map_values(|x: QualitySignal| record::signal_text(x))
}

pub open spec fn quality_lines(r: ShownRecord, on: bool) -> Seq<Seq<char>> {
    seq![
        title(on, "  quality"@),
        "    value    "@ + colors::tinted(
            on,
            record::score_shade(r.quality.bits),
            r.quality.shown@,
        ) + "  "@ + colors::tinted(
            on,
            colors::GRAY@,
            "("@ + record::quality_text(r.quality_tier) + ")"@,
        ),
    ] + (if r.quality_signals@.len() > 0 {
        seq![
            "    signals  "@ + colors::tinted(
                on,
                colors::GRAY@,
                text::joined(quality_signal_texts(r.quality_signals@), ", "@),
            ),
        ]
    } else {
        Seq::<Seq<char>>::empty()
    }) + seq![""@]
}

fn signal_list(signals: &Vec<QualitySignal>) -> (r: String)
    ensures
        r@ == text::joined(quality_signal_texts(signals@), ", "@),
{
    let mut labels: Vec<String> = Vec::new();
    let mut i: usize = 0;
    while i < signals.len()
        invariant
            i <= signals.len(),
            text::texts(labels@) =~= quality_signal_texts(signals@.take(i as int)),
        decreases signals.len() - i,
    {
        assert(signals@.take(i + 1) =~= signals@.take(i as int).push(signals@[i as int]));
        text::push_line(&mut labels, record::signal_label(&signals[i]).to_owned());
        i = i + 1;
    }
    assert(signals@.take(i as int) =~= signals@);
    text::join(&labels, ", ")
}

fn push_quality(out: &mut Vec<String>, r: &ShownRecord, on: bool)
    ensures
        text::texts(final(out)@) == text::texts(old(out)@) + quality_lines(*r, on),
{
    let ghost head = text::texts(out@);
    let tier = "(".to_owned().concat(record::quality_tier_label(&r.quality_tier)).concat(")");
    text::push_line(out, colors::paint(on, colors::BLUE, "  quality"));
    text::push_line(
        out,
        "    value    ".to_owned().concat(
            colors::paint(on, record::score_color(&r.quality), r.quality.shown.as_str()).as_str(),
        ).concat("  ").concat(colors::paint(on, colors::GRAY, tier.as_str()).as_str()),
    );
    if !r.quality_signals.is_empty() {
        let list = signal_list(&r.quality_signals);
        text::push_line(
            out,
            "    signals  ".to_owned().concat(
                colors::paint(on, colors::GRAY, list.as_str()).as_str(),
            ),
        );
    }
    text::push_line(out, "".to_owned());
    assert(text::texts(out@) =~= head + quality_lines(*r, on));
}

pub open spec fn staleness_lines(r: ShownRecord, on: bool) -> Seq<Seq<char>> {
    seq![
        title(on, "  staleness"@),
        "    value  "@ + colors::tinted(
            on,
            record::staleness_shade(r.staleness_tier),
            r.staleness.shown@,
        ) + "  "@ + colors::tinted(
            on,
            colors::GRAY@,
            "("@ + record::staleness_text(r.staleness_tier) + ")"@,
        ),
    ] + (if r.last_record_sha@.len() > 0 {
        seq![
            "    last sha  "@ + colors::tinted(
                on,
                colors::GRAY@,
                byte_head(r.last_record_sha@, sha_len(r.last_record_sha@) as int),
            ),
        ]
    } else {
        Seq::<Seq<char>>::empty()
    }) + seq![""@]
}

/// The hash can be cut where `mati show` cuts it. A hash in hexadecimal digits
/// can be cut anywhere.
pub open spec fn sha_is_plain(sha: Seq<char>) -> bool {
    is_char_boundary(encode_utf8(sha), sha_len(sha) as int)
}

fn push_staleness(out: &mut Vec<String>, r: &ShownRecord, on: bool)
    requires
        sha_is_plain(r.last_record_sha@),
    ensures
        text::texts(final(out)@) == text::texts(old(out)@) + staleness_lines(*r, on),
{
    let ghost head = text::texts(out@);
    let tier = "(".to_owned().concat(record::staleness_tier_label(&r.staleness_tier)).concat(")");
    text::push_line(out, colors::paint(on, colors::BLUE, "  staleness"));
    text::push_line(
        out,
        "    value  ".to_owned().concat(
            colors::paint(
                on,
                record::staleness_color(&r.staleness_tier),
                r.staleness.shown.as_str(),
            ).as_str(),
        ).concat("  ").concat(colors::paint(on, colors::GRAY, tier.as_str()).as_str()),
    );
    let sha = r.last_record_sha.as_str();
    if !sha.is_empty() {
        let len = text::bytes_in(sha);
        let n: usize = if len < 12 {
            len
        } else {
            12
        };
        text::push_line(
            out,
            "    last sha  ".to_owned().concat(
                colors::paint(on, colors::GRAY, byte_prefix(sha, n)).as_str(),
            ),
        );
    }
    text::push_line(out, "".to_owned());
    assert(text::texts(out@) =~= head + staleness_lines(*r, on));
}

pub open spec fn blast_shade(t: BlastTier) -> Seq<char> {
    match t {
        BlastTier::Critical => colors::RED@,
        BlastTier::High => colors::YELLOW@,
        BlastTier::Lower => colors::GRAY@,
    }
}

/// The blast radius, for file records that have one.
pub open spec fn blast_lines(r: ShownRecord, on: bool) -> Seq<Seq<char>> {
    match r.blast_radius {
        Some(b) => if r.category is File {
            seq![
                title(on, "  blast radius"@),
                "    direct         "@ + colors::tinted(
                    on,
                    colors::WHITE@,
                    text::dec(b.direct as nat),
                ),
                "    transitive     "@ + colors::tinted(
                    on,
                    colors::WHITE@,
                    text::dec(b.transitive as nat),
                ),
                "    score          "@ + colors::tinted(on, colors::WHITE@, b.score@),
                "    tier           "@ + colors::tinted(on, blast_shade(b.tier), b.tier_label@),
                ""@,
            ]
        } else {
            Seq::empty()
        },
        None => Seq::empty(),
    }
}

fn push_blast(out: &mut Vec<String>, r: &ShownRecord, on: bool)
    ensures
        text::texts(final(out)@) == text::texts(old(out)@) + blast_lines(*r, on),
{
    let ghost head = text::texts(out@);
    if let Some(b) = &r.blast_radius {
        if r.category == Category::File {
            let color = match b.tier {
                BlastTier::Critical => colors::RED,
                BlastTier::High => colors::YELLOW,
                BlastTier::Lower => colors::GRAY,
            };
            text::push_line(out, colors::paint(on, colors::BLUE, "  blast radius"));
            text::push_line(
                out,
                "    direct         ".to_owned().concat(
                    colors::paint(on, colors::WHITE, text::decimal(b.direct).as_str()).as_str(),
                ),
            );
            text::push_line(
                out,
                "    transitive     ".to_owned().concat(
                    colors::paint(on, colors::WHITE, text::decimal(b.transitive).as_str()).as_str(),
                ),
            );
            text::push_line(
                out,
                "    score          ".to_owned().concat(
                    colors::paint(on, colors::WHITE, b.score.as_str()).as_str(),
                ),
            );
            text::push_line(
                out,
                "    tier           ".to_owned().concat(
                    colors::paint(on, color, b.tier_label.as_str()).as_str(),
                ),
            );
            text::push_line(out, "".to_owned());
        }
    }
    assert(text::texts(out@) =~= head + blast_lines(*r, on));
}

/// The first half of the metadata: priority, source and times.
pub open spec fn origin_lines(r: ShownRecord, on: bool) -> Seq<Seq<char>> {
    seq![
        title(on, "  metadata"@),
        "    priority    "@ + colors::tinted(
            on,
            record::priority_shade(r.priority),
            record::priority_text(r.priority),
        ),
        "    source      "@ + colors::tinted(on, colors::GRAY@, record::source_text(r.source)),
        "    created     "@ + colors::tinted(
            on,
            colors::GRAY@,
            civil::ts_second(r.created_at as nat),
        ),
        "    updated     "@ + colors::tinted(
            on,
            colors::GRAY@,
            civil::ts_second(r.updated_at as nat),
        ),
    ] + (if r.last_accessed > 0 {
        seq![
            "    accessed    "@ + colors::tinted(
                on,
                colors::GRAY@,
                civil::ts_second(r.last_accessed as nat),
            ) + "  "@ + colors::tinted(
                on,
                colors::GRAY@,
                "(x"@ + text::dec(r.access_count as nat) + ")"@,
            ),
        ]
    } else {
        Seq::<Seq<char>>::empty()
    })
}

fn push_origin(out: &mut Vec<String>, r: &ShownRecord, on: bool)
    ensures
        text::texts(final(out)@) == text::texts(old(out)@) + origin_lines(*r, on),
{
    let ghost head = text::texts(out@);
    text::push_line(out, colors::paint(on, colors::BLUE, "  metadata"));
    text::push_line(
        out,
        "    priority    ".to_owned().concat(
            colors::paint(
                on,
                record::priority_color(&r.priority),
                record::priority_name(&r.priority),
            ).as_str(),
        ),
    );
    text::push_line(
        out,
        "    source      ".to_owned().concat(
            colors::paint(on, colors::GRAY, record::source_label(&r.source)).as_str(),
        ),
    );
    text::push_line(
        out,
        "    created     ".to_owned().concat(
            colors::paint(on, colors::GRAY, civil::format_ts(r.created_at).as_str()).as_str(),
        ),
    );
    text::push_line(
        out,
        "    updated     ".to_owned().concat(
            colors::paint(on, colors::GRAY, civil::format_ts(r.updated_at).as_str()).as_str(),
        ),
    );
    if r.last_accessed > 0 {
        let times = "(x".to_owned().concat(text::decimal(r.access_count).as_str()).concat(")");
        text::push_line(
            out,
            "    accessed    ".to_owned().concat(
                colors::paint(on, colors::GRAY, civil::format_ts(r.last_accessed).as_str()).as_str(),
            ).concat("  ").concat(colors::paint(on, colors::GRAY, times.as_str()).as_str()),
        );
    }
    assert(text::texts(out@) =~= head + origin_lines(*r, on));
}

/// The second half of the metadata: reference, tags, gap score, device and clock.
pub open spec fn extra_lines(r: ShownRecord, on: bool) -> Seq<Seq<char>> {
    (match r.ref_url {
        Some(url) => seq!["    ref         "@ + colors::tinted(on, colors::CYAN@, url@)],
        None => Seq::<Seq<char>>::empty(),
    }) + (if r.tags@.len() > 0 {
        seq![
            "    tags        "@ + colors::tinted(
                on,
                colors::GRAY@,
                text::joined(text::texts(r.tags@), ", "@),
            ),
        ]
    } else {
        Seq::<Seq<char>>::empty()
    }) + (match r.gap_score {
        Some(g) => seq!["    gap score   "@ + colors::tinted(on, colors::YELLOW@, g@)],
        None => Seq::<Seq<char>>::empty(),
    }) + seq![
        "    device      "@ + colors::tinted(on, colors::GRAY@, r.device_id@),
        "    clock       "@ + colors::tinted(
            on,
            colors::GRAY@,
            "logical="@ + text::dec(r.logical_clock as nat) + " wall="@ + civil::ts_second(
                r.wall_clock as nat,
            ),
        ),
        ""@,
    ]
}

fn push_extra(out: &mut Vec<String>, r: &ShownRecord, on: bool)
    ensures
        text::texts(final(out)@) == text::texts(old(out)@) + extra_lines(*r, on),
{
    let ghost head = text::texts(out@);
    if let Some(url) = &r.ref_url {
        text::push_line(
            out,
            "    ref         ".to_owned().concat(
                colors::paint(on, colors::CYAN, url.as_str()).as_str(),
            ),
        );
    }
    if !r.tags.is_empty() {
        let tags = text::join(&r.tags, ", ");
        text::push_line(
            out,
            "    tags        ".to_owned().concat(
                colors::paint(on, colors::GRAY, tags.as_str()).as_str(),
            ),
        );
    }
    if let Some(g) = &r.gap_score {
        text::push_line(
            out,
            "    gap score   ".to_owned().concat(
                colors::paint(on, colors::YELLOW, g.as_str()).as_str(),
            ),
        );
    }
    text::push_line(
        out,
        "    device      ".to_owned().concat(
            colors::paint(on, colors::GRAY, r.device_id.as_str()).as_str(),
        ),
    );
    let clock = "logical=".to_owned().concat(text::decimal(r.logical_clock).as_str()).concat(
        " wall=",
    ).concat(civil::format_ts(r.wall_clock).as_str());
    text::push_line(
        out,
        "    clock       ".to_owned().concat(
            colors::paint(on, colors::GRAY, clock.as_str()).as_str(),
        ),
    );
    text::push_line(out, "".to_owned());
    assert(text::texts(out@) =~= head + extra_lines(*r, on));
}

/// All lines of a record.
pub open spec fn record_lines(r: ShownRecord, on: bool) -> Seq<Seq<char>> {
    header_lines(r, on) + value_lines(r.value@, on) + confidence_lines(r, on) + quality_lines(
        r,
        on,
    ) + staleness_lines(r, on) + blast_lines(r, on) + origin_lines(r, on) + extra_lines(r, on)
}

/// Shows a record; `on` says whether colours are used.
pub fn print_record(r: &ShownRecord, on: bool) -> (lines: Vec<String>)
    requires
        sha_is_plain(r.last_record_sha@),
    ensures
        text::texts(lines@) == record_lines(*r, on),
{
    let mut out: Vec<String> = Vec::new();
    push_header(&mut out, r, on);
    assert(text::texts(out@) =~= header_lines(*r, on));
    push_value(&mut out, r.value.as_str(), on);
    push_confidence(&mut out, r, on);
    push_quality(&mut out, r, on);
    push_staleness(&mut out, r, on);
    push_blast(&mut out, r, on);
    push_origin(&mut out, r, on);
    push_extra(&mut out, r, on);
    out
}

// ---------------------------------------------------------------------------
// What is shown
// ---------------------------------------------------------------------------

/// A key that does not end in a colon names a record; one that does names a list,
/// by the singular or the plural of the category, and all records where it names no
/// category.
pub proof fn law_bare_namespaces_are_lists(name: Seq<char>)
    requires
        name.len() == 0 || name.last() != ':',
    ensures
        show_target_of(name) is Record,
        !(show_target_of(name + seq![':']) is Record),
        show_target_of(name + seq![':']) is ListGotchas <==> name == "gotcha"@ || name
            == "gotchas"@,
        show_target_of(name + seq![':']) is ListFiles <==> name == "file"@ || name == "files"@,
        show_target_of(name + seq![':']) is ListDecisions <==> name == "decision"@ || name
            == "decisions"@,
        show_target_of(name + seq![':', ':']) == show_target_of(name + seq![':']),
{
    reveal_strlit(":");
    reveal_strlit("gotcha");
    reveal_strlit("gotchas");
    reveal_strlit("file");
    reveal_strlit("files");
    reveal_strlit("decision");
    reveal_strlit("decisions");
    let c = ":"@;
    let one = name + seq![':'];
    let two = name + seq![':', ':'];
    assert(one.subrange(one.len() - 1, one.len() as int) =~= c);
    assert(two.subrange(two.len() - 1, two.len() as int) =~= c);
    if c.is_suffix_of(name) {
        assert(name.subrange(name.len() - 1, name.len() as int)[0] == c[0]);
    }
    assert(one.drop_last() =~= name);
    assert(two.drop_last() =~= one);
    reveal_with_fuel(search::trim_colons, 3);
    assert("gotcha"@[0] == 'g' && "gotchas"@[0] == 'g' && "file"@[0] == 'f' && "files"@[0] == 'f'
        && "decision"@[0] == 'd' && "decisions"@[0] == 'd');
}

proof fn lemma_sections(r: ShownRecord, on: bool, x: Seq<char>)
    ensures
        record_lines(r, on).contains(x) <==> {
            ||| header_lines(r, on).contains(x)
            ||| value_lines(r.value@, on).contains(x)
            ||| confidence_lines(r, on).contains(x)
            ||| quality_lines(r, on).contains(x)
            ||| staleness_lines(r, on).contains(x)
            ||| blast_lines(r, on).contains(x)
            ||| origin_lines(r, on).contains(x)
            ||| extra_lines(r, on).contains(x)
        },
{
    let a = header_lines(r, on);
    let b = a + value_lines(r.value@, on);
    let c = b + confidence_lines(r, on);
    let d = c + quality_lines(r, on);
    let e = d + staleness_lines(r, on);
    let f = e + blast_lines(r, on);
    let g = f + origin_lines(r, on);
    text::lemma_line_of_either(a, value_lines(r.value@, on), x);
    text::lemma_line_of_either(b, confidence_lines(r, on), x);
    text::lemma_line_of_either(c, quality_lines(r, on), x);
    text::lemma_line_of_either(d, staleness_lines(r, on), x);
    text::lemma_line_of_either(e, blast_lines(r, on), x);
    text::lemma_line_of_either(f, origin_lines(r, on), x);
    text::lemma_line_of_either(g, extra_lines(r, on), x);
}

proof fn lemma_plain()
    ensures
        forall|c: Seq<char>, s: Seq<char>| #[trigger] colors::tinted(false, c, s) == s,
        forall|c: Seq<char>| #[trigger] colors::shade(false, c) == Seq::<char>::empty(),
{
    assert forall|c: Seq<char>, s: Seq<char>| #[trigger] colors::tinted(false, c, s) == s by {
        colors::law_painting_keeps_the_text(c, s);
    }
    assert forall|c: Seq<char>| #[trigger] colors::shade(false, c) == Seq::<char>::empty() by {
        colors::law_painting_keeps_the_text(c, c);
        assert(colors::shade(false, c) =~= Seq::<char>::empty());
    }
}

/// The head tells the category and the key, and that a record was deleted or
/// superseded, with the reason or its successor.
pub proof fn law_head_tells_what_became_of_the_record(r: ShownRecord)
    ensures
        record_lines(r, false).contains(record::category_name(r.category) + "  "@ + r.key@),
        r.lifecycle matches RecordLifecycle::Tombstoned { reason } ==> record_lines(
            r,
            false,
        ).contains("  "@ + "[TOMBSTONED]"@ + " "@ + reason@),
        r.lifecycle matches RecordLifecycle::Superseded { by_key } ==> record_lines(
            r,
            false,
        ).contains("  "@ + "[SUPERSEDED]"@ + " "@ + ("by "@ + by_key@)),
        r.lifecycle is Active ==> header_lines(r, false).len() == 3,
{
    lemma_plain();
    let h = header_lines(r, false);
    let x = record::category_name(r.category) + "  "@ + r.key@;
    assert(h[1] =~= x);
    assert(h.contains(x));
    lemma_sections(r, false, x);
    if !(r.lifecycle is Active) {
        let y = lifecycle_lines(r.lifecycle, false)[0];
        assert(h[2] == y);
        assert(h.contains(y));
        lemma_sections(r, false, y);
    }
}

/// Every line of the text is shown.
pub proof fn law_text_is_shown_line_by_line(r: ShownRecord, i: int)
    requires
        0 <= i < text::lines_of(r.value@).len(),
    ensures
        record_lines(r, false).contains("    "@ + text::lines_of(r.value@)[i]),
{
    lemma_plain();
    let v = value_lines(r.value@, false);
    let b = body_lines(text::lines_of(r.value@), false);
    let x = "    "@ + text::lines_of(r.value@)[i];
    assert(v[i + 1] == b[i]);
    assert(b[i] == x);
    assert(v.contains(x));
    lemma_sections(r, false, x);
}

/// The counts are those of the record; challenges, the tags, a reference and the
/// signals of quality are shown exactly where there are any.
pub proof fn law_facts_are_those_of_the_record(r: ShownRecord)
    ensures
        ({
            let lines = record_lines(r, false);
            &&& lines.contains("    confirmations  "@ + text::dec(r.confirmations as nat))
            &&& lines.contains("    contributors   "@ + text::dec(r.contributors as nat))
            &&& r.challenges > 0 ==> lines.contains(
                "    challenges     "@ + text::dec(r.challenges as nat),
            )
            &&& r.challenges == 0 && r.last_challenged is None ==> confidence_lines(r, false).len()
                == 6
            &&& lines.contains("    priority    "@ + record::priority_text(r.priority))
            &&& lines.contains("    source      "@ + record::source_text(r.source))
            &&& lines.contains("    created     "@ + civil::ts_second(r.created_at as nat))
            &&& lines.contains("    updated     "@ + civil::ts_second(r.updated_at as nat))
            &&& r.ref_url matches Some(u) ==> lines.contains("    ref         "@ + u@)
            &&& r.tags@.len() > 0 ==> lines.contains(
                "    tags        "@ + text::joined(text::texts(r.tags@), ", "@),
            )
            &&& r.ref_url is None && r.tags@.len() == 0 && r.gap_score is None ==> extra_lines(
                r,
                false,
            ).len() == 3
            &&& lines.contains("    device      "@ + r.device_id@)
            &&& r.quality_signals@.len() > 0 <==> quality_lines(r, false).len() == 4
            &&& r.last_accessed > 0 <==> origin_lines(r, false).len() == 6
        }),
{
    lemma_plain();
    let c = confidence_lines(r, false);
    let o = origin_lines(r, false);
    let e = extra_lines(r, false);
    let x1 = "    confirmations  "@ + text::dec(r.confirmations as nat);
    assert(c[3] =~= x1);
    assert(c.contains(x1));
    lemma_sections(r, false, x1);
    let x2 = "    contributors   "@ + text::dec(r.contributors as nat);
    assert(c[4] =~= x2);
    assert(c.contains(x2));
    lemma_sections(r, false, x2);
    if r.challenges > 0 {
        let x = "    challenges     "@ + text::dec(r.challenges as nat);
        assert(c[5] =~= x);
        assert(c.contains(x));
        lemma_sections(r, false, x);
    }
    let x3 = "    priority    "@ + record::priority_text(r.priority);
    assert(o[1] =~= x3);
    assert(o.contains(x3));
    lemma_sections(r, false, x3);
    let x4 = "    source      "@ + record::source_text(r.source);
    assert(o[2] =~= x4);
    assert(o.contains(x4));
    lemma_sections(r, false, x4);
    let x5 = "    created     "@ + civil::ts_second(r.created_at as nat);
    assert(o[3] =~= x5);
    assert(o.contains(x5));
    lemma_sections(r, false, x5);
    let x6 = "    updated     "@ + civil::ts_second(r.updated_at as nat);
    assert(o[4] =~= x6);
    assert(o.contains(x6));
    lemma_sections(r, false, x6);
    if let Some(u) = r.ref_url {
        let x = "    ref         "@ + u@;
        assert(e[0] =~= x);
        assert(e.contains(x));
        lemma_sections(r, false, x);
    }
    if r.tags@.len() > 0 {
        let x = "    tags        "@ + text::joined(text::texts(r.tags@), ", "@);
        let k: int = if r.ref_url is Some {
            1
        } else {
            0
        };
        assert(e[k] =~= x);
        assert(e.contains(x));
        lemma_sections(r, false, x);
    }
    let x7 = "    device      "@ + r.device_id@;
    assert(e[e.len() - 3] =~= x7);
    assert(e.contains(x7));
    lemma_sections(r, false, x7);
}

/// The scores are shown with what they bring about, and the blast radius exactly for
/// a file that has one.
pub proof fn law_scores_are_shown_with_their_effect(r: ShownRecord)
    ensures
        ({
            let lines = record_lines(r, false);
            &&& lines.contains(
                "    value          "@ + r.confidence.shown@ + "  "@ + ("("@
                    + record::hook_tier_text(r.confidence.bits) + ")"@),
            )
            &&& lines.contains(
                "    value    "@ + r.quality.shown@ + "  "@ + ("("@ + record::quality_text(
                    r.quality_tier,
                ) + ")"@),
            )
            &&& lines.contains(
                "    value  "@ + r.staleness.shown@ + "  "@ + ("("@ + record::staleness_text(
                    r.staleness_tier,
                ) + ")"@),
            )
            &&& blast_lines(r, false).len() > 0 <==> r.category is File && r.blast_radius is Some
            &&& r.category is File ==> (r.blast_radius matches Some(b) ==> lines.contains(
                "    direct         "@ + text::dec(b.direct as nat),
            ) && lines.contains("    transitive     "@ + text::dec(b.transitive as nat))
                && lines.contains("    tier           "@ + b.tier_label@))
        }),
{
    lemma_plain();
    let c = confidence_lines(r, false);
    let q = quality_lines(r, false);
    let s = staleness_lines(r, false);
    let x1 = "    value          "@ + r.confidence.shown@ + "  "@ + ("("@ + record::hook_tier_text(
        r.confidence.bits,
    ) + ")"@);
    assert(c[1] =~= x1);
    assert(c.contains(x1));
    lemma_sections(r, false, x1);
    let x2 = "    value    "@ + r.quality.shown@ + "  "@ + ("("@ + record::quality_text(
        r.quality_tier,
    ) + ")"@);
    assert(q[1] =~= x2);
    assert(q.contains(x2));
    lemma_sections(r, false, x2);
    let x3 = "    value  "@ + r.staleness.shown@ + "  "@ + ("("@ + record::staleness_text(
        r.staleness_tier,
    ) + ")"@);
    assert(s[1] =~= x3);
    assert(s.contains(x3));
    lemma_sections(r, false, x3);
    if r.category is File {
        if let Some(b) = r.blast_radius {
            let l = blast_lines(r, false);
            let y1 = "    direct         "@ + text::dec(b.direct as nat);
            let y2 = "    transitive     "@ + text::dec(b.transitive as nat);
            let y3 = "    tier           "@ + b.tier_label@;
            assert(l[1] =~= y1);
            assert(l.contains(y1));
            lemma_sections(r, false, y1);
            assert(l[2] =~= y2);
            assert(l.contains(y2));
            lemma_sections(r, false, y2);
            assert(l[4] =~= y3);
            assert(l.contains(y3));
            lemma_sections(r, false, y3);
        }
    }
}

} // verus!
