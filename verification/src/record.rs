//! Records of the knowledge base, as far as the commands read them, and the
//! labels and colours they are shown with.
use vstd::prelude::*;
use crate::colors;
use crate::text;

verus! {

#[derive(Debug, Clone, Copy, PartialEq, Eq, Structural)]
pub enum Category {
    Gotcha,
    File,
    Decision,
    Stage,
    Dependency,
    DevNote,
    Session,
    Analytics,
}

#[derive(Debug, Clone, Copy, PartialEq, Eq, Structural)]
pub enum Priority {
    Low,
    Normal,
    High,
    Critical,
}

#[derive(Debug, Clone, Copy, PartialEq, Eq, Structural)]
pub enum RecordSource {
    StaticAnalysis,
    ClaudeEnrich,
    SessionHook,
    DeveloperManual,
    Import,
}

#[derive(Debug, Clone, Copy, PartialEq, Eq, Structural)]
pub enum StalenessTier {
    Fresh,
    Aging,
    Stale,
    Liability,
    Tombstone,
}

#[derive(Debug, Clone, Copy, PartialEq, Eq, Structural)]
pub enum QualityTier {
    Suppressed,
    Poor,
    Acceptable,
    Good,
    Excellent,
}

#[derive(Debug, Clone, Copy, PartialEq, Eq, Structural)]
pub enum QualitySignal {
    HasImperativeVerb,
    HasCausality,
    HasSeveritySet,
    HasReference,
    RuleLengthAdequate,
    ReasonLengthAdequate,
    AffectedFilesSpecified,
    HasSpecificIdentifier,
    VaguePhrasing,
    NoActionableRule,
    NoReason,
    TooShort,
    DuplicatesFilePurpose,
}

/// A sign that a record no longer fits the code.
#[derive(Debug, PartialEq, Eq)]
pub enum StalenessSignal {
    NotAccessedDays(u32),
    EntryPointsChanged(u32),
    ImportsChanged(u32),
    FileDeleted,
    FileRenamed { new_path: String },
    LinkedFileChanged { path: String },
    TodosChanged,
    UnsafeCountChanged(i32),
    UnwrapCountChanged(i32),
    DependencyBumped { dep: String, old_ver: String, new_ver: String },
    /// The changed share of the lines in percent, rounded to a whole number.
    LinesChangedPct(String),
    CascadeFromDecision(String),
    GitCommitsSince(u32),
}

#[derive(Debug, PartialEq, Eq)]
pub enum RecordLifecycle {
    Active,
    Tombstoned { reason: String },
    Superseded { by_key: String },
}

/// A score from 0 to 1. `bits` is the bit pattern of its single-precision value,
/// which orders as the value does; `shown` is the value with two decimals.
#[derive(Debug, PartialEq, Eq)]
pub struct Score {
    pub bits: u32,
    pub shown: String,
}

/// The bit pattern of 0.6.
pub const SCORE_06: u32 = 0x3F19_999A;

/// The bit pattern of 0.3.
pub const SCORE_03: u32 = 0x3E99_999A;

/// The name of a category.
pub open spec fn category_name(x: Category) -> Seq<char> {
    match x {
        Category::Gotcha => "gotcha"@,
        Category::File => "file"@,
        Category::Decision => "decision"@,
        Category::Stage => "stage"@,
        Category::Dependency => "dependency"@,
        Category::DevNote => "dev_note"@,
        Category::Session => "session"@,
        Category::Analytics => "analytics"@,
    }
}

pub fn category_label(x: &Category) -> (r: &'static str)
    ensures
        r@ == category_name(*x),
{
    match x {
        Category::Gotcha => "gotcha",
        Category::File => "file",
        Category::Decision => "decision",
        Category::Stage => "stage",
        Category::Dependency => "dependency",
        Category::DevNote => "dev_note",
        Category::Session => "session",
        Category::Analytics => "analytics",
    }
}

/// The colour of a category.
pub open spec fn category_shade(x: Category) -> Seq<char> {
    match x {
        Category::Gotcha => colors::RED@,
        Category::File => colors::CYAN@,
        Category::Decision => colors::PURPLE@,
        Category::Stage => colors::BLUE@,
        Category::Dependency => colors::YELLOW@,
        Category::DevNote => colors::WHITE@,
        Category::Session | Category::Analytics => colors::GRAY@,
    }
}

pub fn category_color(x: &Category) -> (r: &'static str)
    ensures
        r@ == category_shade(*x),
{
    match x {
        Category::Gotcha => colors::RED,
        Category::File => colors::CYAN,
        Category::Decision => colors::PURPLE,
        Category::Stage => colors::BLUE,
        Category::Dependency => colors::YELLOW,
        Category::DevNote => colors::WHITE,
        Category::Session | Category::Analytics => colors::GRAY,
    }
}

/// The colour of a priority.
pub open spec fn priority_shade(x: Priority) -> Seq<char> {
    match x {
        Priority::Critical => colors::RED@,
        Priority::High => colors::YELLOW@,
        Priority::Normal => colors::WHITE@,
        Priority::Low => colors::GRAY@,
    }
}

pub fn priority_color(x: &Priority) -> (r: &'static str)
    ensures
        r@ == priority_shade(*x),
{
    match x {
        Priority::Critical => colors::RED,
        Priority::High => colors::YELLOW,
        Priority::Normal => colors::WHITE,
        Priority::Low => colors::GRAY,
    }
}

/// The name of a priority.
pub open spec fn priority_text(x: Priority) -> Seq<char> {
    match x {
        Priority::Low => "Low"@,
        Priority::Normal => "Normal"@,
        Priority::High => "High"@,
        Priority::Critical => "Critical"@,
    }
}

pub fn priority_name(x: &Priority) -> (r: &'static str)
    ensures
        r@ == priority_text(*x),
{
    match x {
        Priority::Low => "Low",
        Priority::Normal => "Normal",
        Priority::High => "High",
        Priority::Critical => "Critical",
    }
}

/// The short name of a priority.
pub open spec fn priority_abbreviation(x: Priority) -> Seq<char> {
    match x {
        Priority::Low => "Low"@,
        Priority::Normal => "Norm"@,
        Priority::High => "High"@,
        Priority::Critical => "Crit"@,
    }
}

pub fn priority_short(x: &Priority) -> (r: &'static str)
    ensures
        r@ == priority_abbreviation(*x),
{
    match x {
        Priority::Low => "Low",
        Priority::Normal => "Norm",
        Priority::High => "High",
        Priority::Critical => "Crit",
    }
}

/// Where a record comes from, in full.
pub open spec fn source_text(x: RecordSource) -> Seq<char> {
    match x {
        RecordSource::StaticAnalysis => "StaticAnalysis (Layer 0)"@,
        RecordSource::ClaudeEnrich => "ClaudeEnrich (Layer 1)"@,
        RecordSource::SessionHook => "SessionHook (Layer 2)"@,
        RecordSource::DeveloperManual => "DeveloperManual"@,
        RecordSource::Import => "Import"@,
    }
}

pub fn source_label(x: &RecordSource) -> (r: &'static str)
    ensures
        r@ == source_text(*x),
{
    match x {
        RecordSource::StaticAnalysis => "StaticAnalysis (Layer 0)",
        RecordSource::ClaudeEnrich => "ClaudeEnrich (Layer 1)",
        RecordSource::SessionHook => "SessionHook (Layer 2)",
        RecordSource::DeveloperManual => "DeveloperManual",
        RecordSource::Import => "Import",
    }
}

/// Where a record comes from, as a trust cue.
pub open spec fn source_cue(x: RecordSource) -> Seq<char> {
    match x {
        RecordSource::DeveloperManual => "developer"@,
        RecordSource::Import => "imported"@,
        RecordSource::ClaudeEnrich => "enriched"@,
        RecordSource::SessionHook => "session"@,
        RecordSource::StaticAnalysis => "auto-detected"@,
    }
}

pub fn source_short(x: &RecordSource) -> (r: &'static str)
    ensures
        r@ == source_cue(*x),
{
    match x {
        RecordSource::DeveloperManual => "developer",
        RecordSource::Import => "imported",
        RecordSource::ClaudeEnrich => "enriched",
        RecordSource::SessionHook => "session",
        RecordSource::StaticAnalysis => "auto-detected",
    }
}

/// Where a record comes from, as a layer.
pub open spec fn source_layer(x: RecordSource) -> Seq<char> {
    match x {
        RecordSource::StaticAnalysis => "L0"@,
        RecordSource::ClaudeEnrich => "L1"@,
        RecordSource::SessionHook => "L2"@,
        RecordSource::DeveloperManual => "manual"@,
        RecordSource::Import => "import"@,
    }
}

pub fn source_short_label(x: &RecordSource) -> (r: &'static str)
    ensures
        r@ == source_layer(*x),
{
    match x {
        RecordSource::StaticAnalysis => "L0",
        RecordSource::ClaudeEnrich => "L1",
        RecordSource::SessionHook => "L2",
        RecordSource::DeveloperManual => "manual",
        RecordSource::Import => "import",
    }
}

/// The variant name of a source.
pub open spec fn source_variant(x: RecordSource) -> Seq<char> {
    match x {
        RecordSource::StaticAnalysis => "StaticAnalysis"@,
        RecordSource::ClaudeEnrich => "ClaudeEnrich"@,
        RecordSource::SessionHook => "SessionHook"@,
        RecordSource::DeveloperManual => "DeveloperManual"@,
        RecordSource::Import => "Import"@,
    }
}

pub fn source_name(x: &RecordSource) -> (r: &'static str)
    ensures
        r@ == source_variant(*x),
{
    match x {
        RecordSource::StaticAnalysis => "StaticAnalysis",
        RecordSource::ClaudeEnrich => "ClaudeEnrich",
        RecordSource::SessionHook => "SessionHook",
        RecordSource::DeveloperManual => "DeveloperManual",
        RecordSource::Import => "Import",
    }
}

/// The colour of a staleness tier.
pub open spec fn staleness_shade(x: StalenessTier) -> Seq<char> {
    match x {
        StalenessTier::Fresh | StalenessTier::Aging => colors::GREEN@,
        StalenessTier::Stale => colors::YELLOW@,
        StalenessTier::Liability | StalenessTier::Tombstone => colors::RED@,
    }
}

pub fn staleness_color(x: &StalenessTier) -> (r: &'static str)
    ensures
        r@ == staleness_shade(*x),
{
    match x {
        StalenessTier::Fresh | StalenessTier::Aging => colors::GREEN,
        StalenessTier::Stale => colors::YELLOW,
        StalenessTier::Liability | StalenessTier::Tombstone => colors::RED,
    }
}

/// A staleness tier and what it entails.
pub open spec fn staleness_text(x: StalenessTier) -> Seq<char> {
    match x {
        StalenessTier::Fresh => "Fresh"@,
        StalenessTier::Aging => "Aging"@,
        StalenessTier::Stale => "Stale"@,
        StalenessTier::Liability => "Liability \u{2014} blocks injection"@,
        StalenessTier::Tombstone => "Tombstone \u{2014} excluded entirely"@,
    }
}

pub fn staleness_tier_label(x: &StalenessTier) -> (r: &'static str)
    ensures
        r@ == staleness_text(*x),
{
    match x {
        StalenessTier::Fresh => "Fresh",
        StalenessTier::Aging => "Aging",
        StalenessTier::Stale => "Stale",
        StalenessTier::Liability => "Liability \u{2014} blocks injection",
        StalenessTier::Tombstone => "Tombstone \u{2014} excluded entirely",
    }
}

/// The name of a staleness tier.
pub open spec fn tier_name(x: StalenessTier) -> Seq<char> {
    match x {
        StalenessTier::Fresh => "Fresh"@,
        StalenessTier::Aging => "Aging"@,
        StalenessTier::Stale => "Stale"@,
        StalenessTier::Liability => "Liability"@,
        StalenessTier::Tombstone => "Tombstone"@,
    }
}

pub fn tier_short_label(x: &StalenessTier) -> (r: &'static str)
    ensures
        r@ == tier_name(*x),
{
    match x {
        StalenessTier::Fresh => "Fresh",
        StalenessTier::Aging => "Aging",
        StalenessTier::Stale => "Stale",
        StalenessTier::Liability => "Liability",
        StalenessTier::Tombstone => "Tombstone",
    }
}

/// The name of a staleness tier in capitals.
pub open spec fn tier_capitals(x: StalenessTier) -> Seq<char> {
    match x {
        StalenessTier::Fresh => "FRESH"@,
        StalenessTier::Aging => "AGING"@,
        StalenessTier::Stale => "STALE"@,
        StalenessTier::Liability => "LIABILITY"@,
        StalenessTier::Tombstone => "TOMBSTONE"@,
    }
}

pub fn tier_upper(x: &StalenessTier) -> (r: &'static str)
    ensures
        r@ == tier_capitals(*x),
{
    match x {
        StalenessTier::Fresh => "FRESH",
        StalenessTier::Aging => "AGING",
        StalenessTier::Stale => "STALE",
        StalenessTier::Liability => "LIABILITY",
        StalenessTier::Tombstone => "TOMBSTONE",
    }
}

/// What a staleness tier does to a record.
pub open spec fn impact_text(x: StalenessTier) -> Seq<char> {
    match x {
        StalenessTier::Stale => "warn in bootstrap"@,
        StalenessTier::Liability => "blocks injection"@,
        StalenessTier::Tombstone => "excluded entirely"@,
        StalenessTier::Fresh | StalenessTier::Aging => ""@,
    }
}

pub fn impact_label(x: &StalenessTier) -> (r: &'static str)
    ensures
        r@ == impact_text(*x),
{
    match x {
        StalenessTier::Stale => "warn in bootstrap",
        StalenessTier::Liability => "blocks injection",
        StalenessTier::Tombstone => "excluded entirely",
        StalenessTier::Fresh | StalenessTier::Aging => "",
    }
}

/// A quality tier and what it entails.
pub open spec fn quality_text(x: QualityTier) -> Seq<char> {
    match x {
        QualityTier::Suppressed => "Suppressed \u{2014} never injected"@,
        QualityTier::Poor => "Poor \u{2014} injected with caveat"@,
        QualityTier::Acceptable => "Acceptable"@,
        QualityTier::Good => "Good \u{2014} prioritised in bootstrap"@,
        QualityTier::Excellent => "Excellent"@,
    }
}

pub fn quality_tier_label(x: &QualityTier) -> (r: &'static str)
    ensures
        r@ == quality_text(*x),
{
    match x {
        QualityTier::Suppressed => "Suppressed \u{2014} never injected",
        QualityTier::Poor => "Poor \u{2014} injected with caveat",
        QualityTier::Acceptable => "Acceptable",
        QualityTier::Good => "Good \u{2014} prioritised in bootstrap",
        QualityTier::Excellent => "Excellent",
    }
}

/// What a quality signal stands for.
pub open spec fn signal_text(x: QualitySignal) -> Seq<char> {
    match x {
        QualitySignal::HasImperativeVerb => "imperative verb"@,
        QualitySignal::HasCausality => "causality"@,
        QualitySignal::HasSeveritySet => "severity set"@,
        QualitySignal::HasReference => "reference"@,
        QualitySignal::RuleLengthAdequate => "rule length ok"@,
        QualitySignal::ReasonLengthAdequate => "reason length ok"@,
        QualitySignal::AffectedFilesSpecified => "affected files"@,
        QualitySignal::HasSpecificIdentifier => "specific identifier"@,
        QualitySignal::VaguePhrasing => "vague phrasing [penalty]"@,
        QualitySignal::NoActionableRule => "no actionable rule [penalty]"@,
        QualitySignal::NoReason => "no reason [penalty]"@,
        QualitySignal::TooShort => "too short [penalty]"@,
        QualitySignal::DuplicatesFilePurpose => "duplicates file purpose [penalty]"@,
    }
}

pub fn signal_label(x: &QualitySignal) -> (r: &'static str)
    ensures
        r@ == signal_text(*x),
{
    match x {
        QualitySignal::HasImperativeVerb => "imperative verb",
        QualitySignal::HasCausality => "causality",
        QualitySignal::HasSeveritySet => "severity set",
        QualitySignal::HasReference => "reference",
        QualitySignal::RuleLengthAdequate => "rule length ok",
        QualitySignal::ReasonLengthAdequate => "reason length ok",
        QualitySignal::AffectedFilesSpecified => "affected files",
        QualitySignal::HasSpecificIdentifier => "specific identifier",
        QualitySignal::VaguePhrasing => "vague phrasing [penalty]",
        QualitySignal::NoActionableRule => "no actionable rule [penalty]",
        QualitySignal::NoReason => "no reason [penalty]",
        QualitySignal::TooShort => "too short [penalty]",
        QualitySignal::DuplicatesFilePurpose => "duplicates file purpose [penalty]",
    }
}

/// What a hook does with a record of this confidence.
pub open spec fn hook_tier_text(bits: u32) -> Seq<char> {
    if bits >= SCORE_06 {
        "injects \u{2014} deny file read (gotcha: also needs confirmed + quality>=0.4)"@
    } else if bits >= SCORE_03 {
        "attaches as additionalContext"@
    } else {
        "allows read, no injection"@
    }
}

pub fn hook_tier_label(value: &Score) -> (r: &'static str)
    ensures
        r@ == hook_tier_text(value.bits),
{
    if value.bits >= SCORE_06 {
        "injects \u{2014} deny file read (gotcha: also needs confirmed + quality>=0.4)"
    } else if value.bits >= SCORE_03 {
        "attaches as additionalContext"
    } else {
        "allows read, no injection"
    }
}

/// The colour of a score: green from 0.6, yellow from 0.3, else red.
pub open spec fn score_shade(bits: u32) -> Seq<char> {
    if bits >= SCORE_06 {
        colors::GREEN@
    } else if bits >= SCORE_03 {
        colors::YELLOW@
    } else {
        colors::RED@
    }
}

pub fn score_color(value: &Score) -> (r: &'static str)
    ensures
        r@ == score_shade(value.bits),
{
    if value.bits >= SCORE_06 {
        colors::GREEN
    } else if value.bits >= SCORE_03 {
        colors::YELLOW
    } else {
        colors::RED
    }
}

/// The tiers that the stale list shows.
pub open spec fn is_stale_tier(tier: StalenessTier) -> bool {
    tier is Stale || tier is Liability || tier is Tombstone
}

/// A staleness signal in a few words.
pub open spec fn staleness_signal_text(s: StalenessSignal) -> Seq<char> {
    match s {
        StalenessSignal::NotAccessedDays(n) => "unused "@ + text::dec(n as nat) + "d"@,
        StalenessSignal::EntryPointsChanged(n) => text::dec(n as nat) + " EP changed"@,
        StalenessSignal::ImportsChanged(n) => "imports \u{00b1}"@ + text::dec(n as nat),
        StalenessSignal::FileDeleted => "file deleted"@,
        StalenessSignal::FileRenamed { .. } => "renamed"@,
        StalenessSignal::LinkedFileChanged { .. } => "linked file changed"@,
        StalenessSignal::TodosChanged => "TODOs changed"@,
        StalenessSignal::UnsafeCountChanged(n) => "unsafe \u{00b1}"@ + text::dec(magnitude(n)),
        StalenessSignal::UnwrapCountChanged(n) => "unwrap \u{00b1}"@ + text::dec(magnitude(n)),
        StalenessSignal::DependencyBumped { dep, .. } => "dep:"@ + dep@ + " bumped"@,
        StalenessSignal::LinesChangedPct(p) => p@ + "% changed"@,
        StalenessSignal::CascadeFromDecision(_) => "cascade"@,
        StalenessSignal::GitCommitsSince(n) => text::dec(n as nat) + " commits"@,
    }
}

/// The absolute value of a number.
pub open spec fn magnitude(n: i32) -> nat {
    if n < 0 {
        (-n) as nat
    } else {
        n as nat
    }
}

fn size_of(n: i32) -> (r: u64)
    ensures
        r as nat == magnitude(n),
{
    let wide: i64 = n as i64;
    if wide < 0 {
        (-wide) as u64
    } else {
        wide as u64
    }
}

pub fn signal_short_label(signal: &StalenessSignal) -> (r: String)
    ensures
        r@ == staleness_signal_text(*signal),
{
    match signal {
        StalenessSignal::NotAccessedDays(n) => "unused ".to_owned().concat(
            text::decimal(*n as u64).as_str(),
        ).concat("d"),
        StalenessSignal::EntryPointsChanged(n) => text::decimal(*n as u64).concat(" EP changed"),
        StalenessSignal::ImportsChanged(n) => "imports \u{00b1}".to_owned().concat(
            text::decimal(*n as u64).as_str(),
        ),
        StalenessSignal::FileDeleted => "file deleted".to_owned(),
        StalenessSignal::FileRenamed { .. } => "renamed".to_owned(),
        StalenessSignal::LinkedFileChanged { .. } => "linked file changed".to_owned(),
        StalenessSignal::TodosChanged => "TODOs changed".to_owned(),
        StalenessSignal::UnsafeCountChanged(n) => "unsafe \u{00b1}".to_owned().concat(
            text::decimal(size_of(*n)).as_str(),
        ),
        StalenessSignal::UnwrapCountChanged(n) => "unwrap \u{00b1}".to_owned().concat(
            text::decimal(size_of(*n)).as_str(),
        ),
        StalenessSignal::DependencyBumped { dep, .. } => "dep:".to_owned().concat(
            dep.as_str(),
        ).concat(" bumped"),
        StalenessSignal::LinesChangedPct(p) => p.clone().concat("% changed"),
        StalenessSignal::CascadeFromDecision(_) => "cascade".to_owned(),
        StalenessSignal::GitCommitsSince(n) => text::decimal(*n as u64).concat(" commits"),
    }
}

/// A record key without the prefix of its namespace.
pub open spec fn short_key(key: Seq<char>, prefix: Seq<char>) -> Seq<char> {
    if prefix.is_prefix_of(key) {
        key.skip(prefix.len() as int)
    } else {
        key
    }
}

pub fn strip_key<'a>(key: &'a str, prefix: &str) -> (r: &'a str)
    ensures
        r@ == short_key(key@, prefix@),
{
    match text::strip_prefix(key, prefix) {
        Some(rest) => rest,
        None => key,
    }
}

// ---------------------------------------------------------------------------
// Shortening
// ---------------------------------------------------------------------------

/// The first line of a text.
pub open spec fn first_line(s: Seq<char>) -> Seq<char> {
    if text::lines_of(s).len() > 0 {
        text::lines_of(s)[0]
    } else {
        s
    }
}

/// The first line in at most `max` characters; what is cut ends in `...`, unless
/// `max` leaves no room for that.
pub open spec fn truncated(s: Seq<char>, max: nat) -> Seq<char> {
    let l = first_line(s);
    if l.len() <= max {
        l
    } else if max < 4 {
        l.take(max as int)
    } else {
        l.take(max - 3) + "..."@
    }
}

/// Shortens a text for a table cell.
pub fn truncate(s: &str, max: usize) -> (r: String)
    ensures
        r@ == truncated(s@, max as nat),
        r@.len() <= max,
{
    let ls = text::lines(s);
    let ghost all = text::texts(ls@);
    let line = if ls.len() > 0 {
        assert(all[0] == ls@[0]@);
        ls[0].as_str()
    } else {
        s
    };
    assert(line@ == first_line(s@));
    let n = line.unicode_len();
    proof {
        reveal_strlit("...");
    }
    if n <= max {
        return line.to_owned();
    }
    if max < 4 {
        assert(line@.subrange(0, max as int) =~= line@.take(max as int));
        return line.substring_char(0, max).to_owned();
    }
    assert(line@.subrange(0, max - 3) =~= line@.take(max - 3));
    line.substring_char(0, max - 3).to_owned().concat("...")
}

/// The positions, below `n`, of the records that are active.
pub open spec fn active_below(v: Seq<RecordLifecycle>, n: int) -> Seq<int>
    decreases n,
{
    if n <= 0 {
        Seq::empty()
    } else if v[n - 1] is Active {
        active_below(v, n - 1).push(n - 1)
    } else {
        active_below(v, n - 1)
    }
}

/// The records that are listed: neither deleted nor superseded, in their order.
pub fn active_records(v: &Vec<RecordLifecycle>) -> (r: Vec<usize>)
    ensures
        r@.map_values(|i: usize| i as int) == active_below(v@, v@.len() as int),
{
    let mut out: Vec<usize> = Vec::new();
    let mut i: usize = 0;
    assert(out@.map_values(|i: usize| i as int) =~= Seq::<int>::empty());
    while i < v.len()
        invariant
            i <= v.len(),
            out@.map_values(|i: usize| i as int) == active_below(v@, i as int),
        decreases v.len() - i,
    {
        let ghost before = out@;
        if let RecordLifecycle::Active = &v[i] {
            out.push(i);
            assert(out@.map_values(|i: usize| i as int) =~= before.map_values(
                |i: usize| i as int,
            ).push(i as int));
        }
        i = i + 1;
    }
    out
}

// ---------------------------------------------------------------------------
// What the labels and the shortening are for
// ---------------------------------------------------------------------------

/// The short and the long label of a priority begin alike, and no two priorities
/// share one.
pub proof fn law_priorities_keep_their_names(a: Priority, b: Priority)
    ensures
        priority_abbreviation(a).is_prefix_of(priority_text(a)),
        priority_abbreviation(a).len() == (if priority_text(a).len() < 4 {
            priority_text(a).len()
        } else {
            4
        }),
        priority_text(a) == priority_text(b) ==> a == b,
        priority_text(Priority::Critical).len() > priority_text(Priority::Normal).len()
            > priority_text(Priority::High).len() > priority_text(Priority::Low).len(),
{
    reveal_strlit("Low");
    reveal_strlit("Normal");
    reveal_strlit("High");
    reveal_strlit("Critical");
    reveal_strlit("Norm");
    reveal_strlit("Crit");
    let x = priority_text(a);
    let y = priority_abbreviation(a);
    assert(x.subrange(0, y.len() as int) =~= y);
}

/// The names of a tier agree: the long one begins with the short one, the one in
/// capitals differs in nothing else, and what a tier brings about ends the long
/// name of the tiers that keep a record out.
pub proof fn law_tiers_keep_their_names(a: StalenessTier, b: StalenessTier)
    ensures
        tier_name(a).is_prefix_of(staleness_text(a)),
        text::ascii_lowered(tier_capitals(a)) == text::ascii_lowered(tier_name(a)),
        tier_name(a) == tier_name(b) ==> a == b,
        a is Liability || a is Tombstone <==> impact_text(a).is_suffix_of(staleness_text(a))
            && impact_text(a).len() > 0,
        impact_text(a).len() > 0 <==> a is Stale || a is Liability || a is Tombstone,
        a is Liability || a is Tombstone ==> staleness_shade(a) == colors::RED@,
        a is Stale ==> staleness_shade(a) == colors::YELLOW@,
        a is Fresh || a is Aging ==> staleness_shade(a) == colors::GREEN@,
{
    reveal_strlit("Fresh");
    reveal_strlit("Aging");
    reveal_strlit("Stale");
    reveal_strlit("Liability");
    reveal_strlit("Tombstone");
    reveal_strlit("FRESH");
    reveal_strlit("AGING");
    reveal_strlit("STALE");
    reveal_strlit("LIABILITY");
    reveal_strlit("TOMBSTONE");
    reveal_strlit("Liability \u{2014} blocks injection");
    reveal_strlit("Tombstone \u{2014} excluded entirely");
    reveal_strlit("warn in bootstrap");
    reveal_strlit("blocks injection");
    reveal_strlit("excluded entirely");
    reveal_strlit("");
    let x = staleness_text(a);
    let y = tier_name(a);
    assert(x.subrange(0, y.len() as int) =~= y);
    assert(text::ascii_lowered(tier_capitals(a)) =~= text::ascii_lowered(tier_name(a)));
    let z = impact_text(a);
    if a is Liability || a is Tombstone {
        assert(x.subrange(x.len() - z.len(), x.len() as int) =~= z);
    }
    if a is Stale {
        assert(x.len() < z.len());
    }
    assert(tier_name(StalenessTier::Fresh)[0] == 'F');
    assert(tier_name(StalenessTier::Aging)[0] == 'A');
    assert(tier_name(StalenessTier::Stale)[0] == 'S');
    assert(tier_name(StalenessTier::Liability)[0] == 'L');
    assert(tier_name(StalenessTier::Tombstone)[0] == 'T');
}

/// The label of a source begins with its name, which is its own; those that are
/// layers say which, from the analysis up, and the short label says the same.
pub proof fn law_sources_keep_their_names(a: RecordSource, b: RecordSource)
    ensures
        source_variant(a).is_prefix_of(source_text(a)),
        source_variant(a) == source_variant(b) ==> a == b,
        source_layer(a) == "L0"@ <==> a is StaticAnalysis,
        source_layer(a) == "L1"@ <==> a is ClaudeEnrich,
        source_layer(a) == "L2"@ <==> a is SessionHook,
        a is StaticAnalysis ==> " (Layer 0)"@.is_suffix_of(source_text(a)),
        a is ClaudeEnrich ==> " (Layer 1)"@.is_suffix_of(source_text(a)),
        a is SessionHook ==> " (Layer 2)"@.is_suffix_of(source_text(a)),
        a is DeveloperManual || a is Import ==> source_text(a) == source_variant(a),
        source_cue(a) == source_cue(b) ==> a == b,
        source_cue(a) == "developer"@ <==> a is DeveloperManual,
        source_cue(a) == "auto-detected"@ <==> a is StaticAnalysis,
{
    reveal_strlit("StaticAnalysis");
    reveal_strlit("ClaudeEnrich");
    reveal_strlit("SessionHook");
    reveal_strlit("DeveloperManual");
    reveal_strlit("Import");
    reveal_strlit("StaticAnalysis (Layer 0)");
    reveal_strlit("ClaudeEnrich (Layer 1)");
    reveal_strlit("SessionHook (Layer 2)");
    reveal_strlit(" (Layer 0)");
    reveal_strlit(" (Layer 1)");
    reveal_strlit(" (Layer 2)");
    reveal_strlit("L0");
    reveal_strlit("L1");
    reveal_strlit("L2");
    reveal_strlit("manual");
    reveal_strlit("import");
    reveal_strlit("developer");
    reveal_strlit("imported");
    reveal_strlit("enriched");
    reveal_strlit("session");
    reveal_strlit("auto-detected");
    let x = source_text(a);
    let y = source_variant(a);
    assert(x.subrange(0, y.len() as int) =~= y);
    if x.len() > y.len() {
        let z = " (Layer 0)"@;
        assert(x.subrange(x.len() - 10, x.len() as int) =~= (match a {
            RecordSource::StaticAnalysis => " (Layer 0)"@,
            RecordSource::ClaudeEnrich => " (Layer 1)"@,
            _ => " (Layer 2)"@,
        }));
    }
    assert("L0"@[1] == '0' && "L1"@[1] == '1' && "L2"@[1] == '2');
    assert(source_variant(a)[0] == 'S' ==> source_variant(a).len() == 14 || source_variant(a).len()
        == 11);
    assert("developer"@[0] == 'd' && "imported"@[0] == 'i' && "enriched"@[0] == 'e'
        && "session"@[0] == 's' && "auto-detected"@[0] == 'a');
    assert("ClaudeEnrich"@[0] == 'C' && "DeveloperManual"@[0] == 'D' && "Import"@[0] == 'I');
}

/// A signal of quality that counts against a record is marked as a penalty, and only
/// such a one.
pub proof fn law_penalties_are_marked(x: QualitySignal)
    ensures
        " [penalty]"@.is_suffix_of(signal_text(x)) <==> {
            ||| x is VaguePhrasing
            ||| x is NoActionableRule
            ||| x is NoReason
            ||| x is TooShort
            ||| x is DuplicatesFilePurpose
        },
{
    reveal_strlit(" [penalty]");
    reveal_strlit("imperative verb");
    reveal_strlit("causality");
    reveal_strlit("severity set");
    reveal_strlit("reference");
    reveal_strlit("rule length ok");
    reveal_strlit("reason length ok");
    reveal_strlit("affected files");
    reveal_strlit("specific identifier");
    reveal_strlit("vague phrasing [penalty]");
    reveal_strlit("no actionable rule [penalty]");
    reveal_strlit("no reason [penalty]");
    reveal_strlit("too short [penalty]");
    reveal_strlit("duplicates file purpose [penalty]");
    let t = signal_text(x);
    let p = " [penalty]"@;
    if t.last() == ']' {
        assert(t.subrange(t.len() - p.len(), t.len() as int) =~= p);
    }
    if p.is_suffix_of(t) {
        assert(t.last() == t.subrange(t.len() - p.len(), t.len() as int).last());
    }
}

/// A score of at least 0.6 refuses the read, one of at least 0.3 attaches context,
/// and a smaller one does neither; the better the score, the greener.
pub proof fn law_scores_decide_what_is_done(bits: u32)
    ensures
        bits >= SCORE_06 <==> "injects"@.is_prefix_of(hook_tier_text(bits)),
        SCORE_03 <= bits < SCORE_06 <==> "attaches"@.is_prefix_of(hook_tier_text(bits)),
        bits < SCORE_03 <==> "allows read"@.is_prefix_of(hook_tier_text(bits)),
        bits >= SCORE_06 ==> score_shade(bits) == colors::GREEN@,
        SCORE_03 <= bits < SCORE_06 ==> score_shade(bits) == colors::YELLOW@,
        bits < SCORE_03 ==> score_shade(bits) == colors::RED@,
{
    reveal_strlit("injects");
    reveal_strlit("attaches");
    reveal_strlit("allows read");
    reveal_strlit("injects \u{2014} deny file read (gotcha: also needs confirmed + quality>=0.4)");
    reveal_strlit("attaches as additionalContext");
    reveal_strlit("allows read, no injection");
    let t = hook_tier_text(bits);
    let a = "injects"@;
    let b = "attaches"@;
    let c = "allows read"@;
    if a.is_prefix_of(t) {
        assert(t[0] == t.subrange(0, a.len() as int)[0]);
    }
    if b.is_prefix_of(t) {
        assert(t[1] == t.subrange(0, b.len() as int)[1]);
    }
    if c.is_prefix_of(t) {
        assert(t[1] == t.subrange(0, c.len() as int)[1]);
    }
    if bits >= SCORE_06 {
        assert(t.subrange(0, a.len() as int) =~= a);
    } else if bits >= SCORE_03 {
        assert(t.subrange(0, b.len() as int) =~= b);
    } else {
        assert(t.subrange(0, c.len() as int) =~= c);
    }
}

/// A sign of change is told with its size, whichever way it went.
pub proof fn law_changes_are_told_by_size(n: i32)
    requires
        n > i32::MIN,
    ensures
        staleness_signal_text(StalenessSignal::UnsafeCountChanged(n)) == staleness_signal_text(
            StalenessSignal::UnsafeCountChanged((-n) as i32),
        ),
        staleness_signal_text(StalenessSignal::UnwrapCountChanged(n)) == staleness_signal_text(
            StalenessSignal::UnwrapCountChanged((-n) as i32),
        ),
        n >= 0 ==> text::dec(n as nat).is_suffix_of(
            staleness_signal_text(StalenessSignal::UnsafeCountChanged(n)),
        ) && text::dec(n as nat).is_suffix_of(
            staleness_signal_text(StalenessSignal::UnwrapCountChanged(n)),
        ) && text::dec(n as nat).is_prefix_of(
            staleness_signal_text(StalenessSignal::EntryPointsChanged(n as u32)),
        ) && text::dec(n as nat).is_prefix_of(
            staleness_signal_text(StalenessSignal::GitCommitsSince(n as u32)),
        ) && text::dec(n as nat).is_suffix_of(
            staleness_signal_text(StalenessSignal::ImportsChanged(n as u32)),
        ),
{
    if n >= 0 {
        let d = text::dec(n as nat);
        let a = staleness_signal_text(StalenessSignal::UnsafeCountChanged(n));
        let b = staleness_signal_text(StalenessSignal::UnwrapCountChanged(n));
        let c = staleness_signal_text(StalenessSignal::EntryPointsChanged(n as u32));
        let e = staleness_signal_text(StalenessSignal::GitCommitsSince(n as u32));
        let f = staleness_signal_text(StalenessSignal::ImportsChanged(n as u32));
        assert(a.subrange(a.len() - d.len(), a.len() as int) =~= d);
        assert(b.subrange(b.len() - d.len(), b.len() as int) =~= d);
        assert(c.subrange(0, d.len() as int) =~= d);
        assert(e.subrange(0, d.len() as int) =~= d);
        assert(f.subrange(f.len() - d.len(), f.len() as int) =~= d);
    }
}

/// A key is shown without its namespace, once; a key of another namespace is shown
/// whole.
pub proof fn law_short_keys_drop_the_namespace(prefix: Seq<char>, slug: Seq<char>)
    ensures
        short_key(prefix + slug, prefix) == slug,
        !prefix.is_prefix_of(slug) ==> short_key(slug, prefix) == slug,
{
    assert((prefix + slug).subrange(0, prefix.len() as int) =~= prefix);
    assert((prefix + slug).skip(prefix.len() as int) =~= slug);
}

/// A text is shortened to its first line, whole where it fits; else it is cut to the
/// width, with three dots at the end where there is room for them.
pub proof fn law_truncation_keeps_the_start(line: Seq<char>, rest: Seq<char>, max: nat)
    requires
        !line.contains('\n'),
        line.len() == 0 || line.last() != '\r',
    ensures
        line.len() <= max ==> truncated(line, max) == line && truncated(
            line + seq!['\n'] + rest,
            max,
        ) == line,
        line.len() > max ==> truncated(line, max).len() == max && truncated(
            line + seq!['\n'] + rest,
            max,
        ) == truncated(line, max),
        line.len() > max >= 4 ==> truncated(line, max).take(max - 3) == line.take(max - 3)
            && "..."@.is_suffix_of(truncated(line, max)),
        line.len() > max && max < 4 ==> truncated(line, max) == line.take(max as int),
{
    reveal_strlit("...");
    text::law_lines_end_at_line_feeds(line, rest);
    if line.len() > max && max >= 4 {
        let t = truncated(line, max);
        assert(t.take(max - 3) =~= line.take(max - 3));
        assert(t.subrange(t.len() - 3, t.len() as int) =~= "..."@);
    }
}

/// The active records are all that are neither deleted nor superseded, in order.
pub proof fn law_active_records_are_all_there(v: Seq<RecordLifecycle>, n: int)
    requires
        0 <= n <= v.len(),
    ensures
        forall|k: int| #[trigger]
            active_below(v, n).contains(k) <==> 0 <= k < n && !(v[k] is Tombstoned) && !(
            v[k] is Superseded),
        forall|a: int, b: int|
            0 <= a < b < active_below(v, n).len() ==> #[trigger] active_below(v, n)[a]
                < #[trigger] active_below(v, n)[b],
    decreases n,
{
    if n > 0 {
        law_active_records_are_all_there(v, n - 1);
        let before = active_below(v, n - 1);
        let all = active_below(v, n);
        assert forall|k: int| #[trigger]
            all.contains(k) <==> 0 <= k < n && !(v[k] is Tombstoned) && !(v[k] is Superseded) by {
            if all.contains(k) {
                let j = choose|j: int| 0 <= j < all.len() && all[j] == k;
                if j < before.len() {
                    assert(before[j] == k);
                    assert(before.contains(k));
                }
            }
            if before.contains(k) {
                let j = choose|j: int| 0 <= j < before.len() && before[j] == k;
                assert(all[j] == k);
            }
            if k == n - 1 && v[k] is Active {
                assert(all[before.len() as int] == k);
            }
        }
        assert forall|a: int, b: int| 0 <= a < b < all.len() implies #[trigger] all[a]
            < #[trigger] all[b] by {
            if b < before.len() {
                assert(before[a] < before[b]);
            } else {
                assert(before.contains(before[a]));
            }
        }
    }
}

/// Each category goes by its own name.
pub proof fn law_categories_keep_their_names(a: Category, b: Category)
    ensures
        category_name(a) == category_name(b) ==> a == b,
        category_name(a) == "gotcha"@ <==> a is Gotcha,
        category_name(a) == "file"@ <==> a is File,
        category_name(a) == "decision"@ <==> a is Decision,
        category_name(a) == "stage"@ <==> a is Stage,
        category_name(a) == "dev_note"@ <==> a is DevNote,
        category_name(a) == "dependency"@ <==> a is Dependency,
        category_name(a) == "session"@ <==> a is Session,
{
    reveal_strlit("gotcha");
    reveal_strlit("file");
    reveal_strlit("decision");
    reveal_strlit("stage");
    reveal_strlit("dependency");
    reveal_strlit("dev_note");
    reveal_strlit("session");
    reveal_strlit("analytics");
    assert("gotcha"@.len() == 6 && "file"@.len() == 4 && "decision"@.len() == 8 && "stage"@.len()
        == 5 && "dependency"@.len() == 10 && "dev_note"@.len() == 8 && "session"@.len() == 7
        && "analytics"@.len() == 9);
    assert("decision"@[2] == 'c' && "dev_note"@[2] == 'v');
}

/// The quality of a record is told with what it brings about, each tier its own.
pub proof fn law_quality_is_told_by_tier(x: QualityTier)
    ensures
        "never injected"@.is_suffix_of(quality_text(x)) <==> x is Suppressed,
        "injected with caveat"@.is_suffix_of(quality_text(x)) <==> x is Poor,
        quality_text(x) == "Acceptable"@ <==> x is Acceptable,
        quality_text(x) == "Excellent"@ <==> x is Excellent,
{
    reveal_strlit("never injected");
    reveal_strlit("injected with caveat");
    reveal_strlit("Suppressed \u{2014} never injected");
    reveal_strlit("Poor \u{2014} injected with caveat");
    reveal_strlit("Acceptable");
    reveal_strlit("Good \u{2014} prioritised in bootstrap");
    reveal_strlit("Excellent");
    let t = quality_text(x);
    let a = "never injected"@;
    let b = "injected with caveat"@;
    if x is Suppressed {
        assert(t.subrange(t.len() - a.len(), t.len() as int) =~= a);
    }
    if x is Poor {
        assert(t.subrange(t.len() - b.len(), t.len() as int) =~= b);
    }
    if a.is_suffix_of(t) {
        assert(t.subrange(t.len() - a.len(), t.len() as int).last() == 'd');
    }
    if b.is_suffix_of(t) {
        assert(t.subrange(t.len() - b.len(), t.len() as int).last() == 't');
    }
    assert("Acceptable"@.len() == 10 && "Excellent"@.len() == 9);
}

} // verus!
