//! `mati ls`, `mati export` and `mati import`: which records are listed, in which
//! order, and what each line says.
use vstd::prelude::*;
use crate::civil;
use crate::history;
use crate::ranking;
use crate::ranking::Ranked;
use crate::record;
use crate::record::{Priority, RecordSource, Score};
use crate::text;

verus! {

/// Arguments of `mati ls`.
#[derive(Debug, PartialEq, Eq)]
pub struct LsArgs {
    pub category: Option<String>,
    pub limit: usize,
}

/// Arguments of `mati export`.
#[derive(Debug, PartialEq, Eq)]
pub struct ExportArgs {
    pub format: String,
    pub output: Option<String>,
}

/// Arguments of `mati import`.
#[derive(Debug, PartialEq, Eq)]
pub struct ImportArgs {
    pub file: String,
}

/// What `mati ls` lists.
#[derive(Debug, Clone, Copy, PartialEq, Eq, Structural)]
pub enum LsKind {
    Files,
    Gotchas,
    Decisions,
    Notes,
    All,
}

pub open spec fn ls_kind_of(category: Option<Seq<char>>) -> Option<LsKind> {
    match category {
        None => Some(LsKind::All),
        Some(c) => if c == "files"@ {
            Some(LsKind::Files)
        } else if c == "gotchas"@ {
            Some(LsKind::Gotchas)
        } else if c == "decisions"@ {
            Some(LsKind::Decisions)
        } else if c == "notes"@ || c == "note"@ || c == "dev_note"@ || c == "dev_notes"@ {
            Some(LsKind::Notes)
        } else {
            None
        },
    }
}

/// What a category name asks for, or the message for an unknown one.
pub fn ls_kind(category: Option<&str>) -> (r: Result<LsKind, String>)
    ensures
        match r {
            Ok(k) => ls_kind_of(history::opt_str(category)) == Some(k),
            Err(m) => {
                &&& ls_kind_of(history::opt_str(category)) is None
                &&& category is Some
                &&& m@ == "unknown category '"@ + category->0@
                    + "'. Valid: files, gotchas, decisions, notes"@
            },
        },
{
    match category {
        None => Ok(LsKind::All),
        Some(c) => if text::same(c, "files") {
            Ok(LsKind::Files)
        } else if text::same(c, "gotchas") {
            Ok(LsKind::Gotchas)
        } else if text::same(c, "decisions") {
            Ok(LsKind::Decisions)
        } else if text::same(c, "notes") || text::same(c, "note") || text::same(c, "dev_note")
            || text::same(c, "dev_notes") {
            Ok(LsKind::Notes)
        } else {
            Err(
                "unknown category '".to_owned().concat(c).concat(
                    "'. Valid: files, gotchas, decisions, notes",
                ),
            )
        },
    }
}

// ---------------------------------------------------------------------------
// Files
// ---------------------------------------------------------------------------

/// What the file record of a file says, where it can be read.
#[derive(Debug, PartialEq, Eq)]
pub struct FileInfo {
    pub purpose: String,
    pub entry_points: u64,
    pub is_hotspot: bool,
}

#[derive(Debug, PartialEq, Eq)]
pub struct FileEntry {
    pub key: String,
    pub value: String,
    pub info: Option<FileInfo>,
    pub confidence: Score,
    pub quality: Score,
}

/// One row of the file list.
#[derive(Debug, PartialEq, Eq)]
pub struct LsFileRow {
    pub path: String,
    pub purpose: String,
    pub entry_count: u64,
    pub confidence: Score,
    pub quality: Score,
    pub is_hotspot: bool,
}

/// A purpose in a table cell.
pub open spec fn purpose_cell(s: Seq<char>) -> Seq<char> {
    if s.len() == 0 {
        "(pending enrichment)"@
    } else {
        record::truncated(s, 40)
    }
}

fn purpose_text(s: &str) -> (r: String)
    ensures
        r@ == purpose_cell(s@),
{
    if s.is_empty() {
        "(pending enrichment)".to_owned()
    } else {
        record::truncate(s, 40)
    }
}

/// Whether `r` is the row of a file.
pub open spec fn is_row_of(e: FileEntry, r: LsFileRow) -> bool {
    &&& r.path@ == record::short_key(e.key@, "file:"@)
    &&& r.confidence.bits == e.confidence.bits
    &&& r.confidence.shown@ == e.confidence.shown@
    &&& r.quality.bits == e.quality.bits
    &&& r.quality.shown@ == e.quality.shown@
    &&& match e.info {
        Some(f) => {
            &&& r.purpose@ == purpose_cell(f.purpose@)
            &&& r.entry_count == f.entry_points
            &&& r.is_hotspot == f.is_hotspot
        },
        None => {
            &&& r.purpose@ == purpose_cell(e.value@)
            &&& r.entry_count == 0
            &&& !r.is_hotspot
        },
    }
}

/// The row of a file. Without a readable file record the value stands for the
/// purpose.
pub fn file_row(e: &FileEntry) -> (r: LsFileRow)
    ensures
        is_row_of(*e, r),
{
    let (purpose, entry_count, is_hotspot) = match &e.info {
        Some(f) => (purpose_text(f.purpose.as_str()), f.entry_points, f.is_hotspot),
        None => (purpose_text(e.value.as_str()), 0, false),
    };
    LsFileRow {
        path: record::strip_key(e.key.as_str(), "file:").to_owned(),
        purpose,
        entry_count,
        confidence: Score { bits: e.confidence.bits, shown: e.confidence.shown.clone() },
        quality: Score { bits: e.quality.bits, shown: e.quality.shown.clone() },
        is_hotspot,
    }
}

/// Hotspots first, then by path.
impl Ranked for LsFileRow {
    open spec fn le(&self, other: &LsFileRow) -> bool {
        (self.is_hotspot && !other.is_hotspot) || (self.is_hotspot == other.is_hotspot
            && !text::text_less(other.path@, self.path@))
    }

    proof fn le_total(a: &LsFileRow, b: &LsFileRow) {
        if text::text_less(b.path@, a.path@) {
            text::lemma_text_less_asymmetric(b.path@, a.path@);
        }
    }

    proof fn le_transitive(a: &LsFileRow, b: &LsFileRow, c: &LsFileRow) {
        if a.is_hotspot == c.is_hotspot && text::text_less(c.path@, a.path@) {
            text::lemma_text_less_total(a.path@, b.path@);
            if text::text_less(a.path@, b.path@) {
                text::lemma_text_less_transitive(c.path@, a.path@, b.path@);
            }
        }
    }

    fn may_precede(&self, other: &LsFileRow) -> (r: bool) {
        (self.is_hotspot && !other.is_hotspot) || (self.is_hotspot == other.is_hotspot
            && !text::less(other.path.as_str(), self.path.as_str()))
    }
}

/// How many of `total` rows a limit lets through; 0 stands for no limit.
pub open spec fn shown_rows(total: nat, limit: nat) -> nat {
    if limit == 0 || total <= limit {
        total
    } else {
        limit
    }
}

pub fn shown_count(total: usize, limit: usize) -> (r: usize)
    ensures
        r as nat == shown_rows(total as nat, limit as nat),
{
    if limit == 0 || total <= limit {
        total
    } else {
        limit
    }
}

/// The positions of the rows that are kept for the next call: hotspots first,
/// then by path, as many as the limit lets through.
pub fn cached_rows(rows: &Vec<LsFileRow>, limit: usize) -> (r: Vec<usize>)
    ensures
        r@.len() == shown_rows(rows@.len(), limit as nat),
        exists|full: Seq<usize>| #[trigger]
            ranking::is_ranking(rows@, full) && r@ == full.take(r@.len() as int),
{
    let mut order = ranking::rank(rows);
    let ghost full = order@;
    let n = shown_count(rows.len(), limit);
    order.truncate(n);
    assert(order@ =~= full.take(n as int));
    order
}

/// Whether a kept list answers a call: nothing was written since, and the limit
/// is the same.
pub fn ls_cache_is_valid(
    cached_seq: u64,
    cached_limit: usize,
    current_seq: u64,
    limit: usize,
) -> (r: bool)
    ensures
        r == (cached_seq == current_seq && cached_limit == limit),
{
    cached_seq == current_seq && cached_limit == limit
}

/// A path in a column of 42 characters, cut on the left so that the file name
/// stays visible.
pub open spec fn path_cell(path: Seq<char>) -> Seq<char> {
    if path.len() > 42 {
        "\u{2026}"@ + path.skip(path.len() - 41)
    } else {
        path
    }
}

fn path_column(path: &str) -> (r: String)
    ensures
        r@ == path_cell(path@),
        r@.len() <= 42,
{
    proof {
        reveal_strlit("\u{2026}");
    }
    let n = path.unicode_len();
    if n > 42 {
        assert(path@.subrange(n - 41, n as int) =~= path@.skip(n - 41));
        "\u{2026}".to_owned().concat(path.substring_char(n - 41, n))
    } else {
        path.to_owned()
    }
}

/// One line of the plain file list.
pub open spec fn file_line(row: LsFileRow) -> Seq<char> {
    text::padded_right(path_cell(row.path@), 42) + "  "@ + text::padded_right(row.purpose@, 38)
        + "  "@ + text::padded_left(text::dec(row.entry_count as nat), 3) + "  "@
        + text::padded_left(row.confidence.shown@, 4) + "  "@ + text::padded_left(
            row.quality.shown@,
            4,
        ) + "  "@
        + text::padded_left(
        if row.is_hotspot {
            "*"@
        } else {
            ""@
        },
        3,
    )
}

pub fn stream_row(row: &LsFileRow) -> (r: String)
    ensures
        r@ == file_line(*row),
{
    let hot = if row.is_hotspot {
        "*"
    } else {
        ""
    };
    text::pad_right(path_column(row.path.as_str()).as_str(), 42).concat("  ").concat(
        text::pad_right(row.purpose.as_str(), 38).as_str(),
    ).concat("  ").concat(
        text::pad_left(text::decimal(row.entry_count).as_str(), 3).as_str(),
    ).concat("  ").concat(text::pad_left(row.confidence.shown.as_str(), 4).as_str()).concat(
        "  ",
    ).concat(text::pad_left(row.quality.shown.as_str(), 4).as_str()).concat("  ").concat(
        text::pad_left(hot, 3).as_str(),
    )
}

/// The head of the plain file list.
pub open spec fn file_head() -> Seq<Seq<char>> {
    seq![
        text::padded_right("PATH"@, 42) + "  "@ + text::padded_right("PURPOSE"@, 38) + "  "@
            + text::padded_left("ENT"@, 3) + "  "@ + text::padded_left("CONF"@, 4) + "  "@
            + text::padded_left("QUAL"@, 4) + "  "@ + text::padded_left("HOT"@, 3),
        Seq::new(102, |i: int| '\u{2500}'),
    ]
}

pub fn stream_header() -> (r: Vec<String>)
    ensures
        text::texts(r@) == file_head(),
{
    let mut v: Vec<String> = Vec::new();
    text::push_line(
        &mut v,
        text::pad_right("PATH", 42).concat("  ").concat(
            text::pad_right("PURPOSE", 38).as_str(),
        ).concat("  ").concat(text::pad_left("ENT", 3).as_str()).concat("  ").concat(
            text::pad_left("CONF", 4).as_str(),
        ).concat("  ").concat(text::pad_left("QUAL", 4).as_str()).concat("  ").concat(
            text::pad_left("HOT", 3).as_str(),
        ),
    );
    text::push_line(&mut v, history::repeat('\u{2500}', 102));
    assert(text::texts(v@) =~= file_head());
    v
}

/// The line below the file list. `next` says that the order applies only to the
/// next call.
pub open spec fn footer_text(shown: nat, total: nat, limit: nat, next: bool) -> Seq<char> {
    if limit > 0 && shown < total {
        "  showing "@ + text::dec(shown) + " of "@ + text::dec(total) + " file records (hotspots first"@
            + (if next {
            " on next call"@
        } else {
            ""@
        }) + ") \u{2014} use -n 0 for all"@
    } else {
        "  "@ + text::dec(total) + " file records"@
    }
}

pub fn footer(shown: usize, total: usize, limit: usize, next: bool) -> (r: String)
    ensures
        r@ == footer_text(shown as nat, total as nat, limit as nat, next),
{
    if limit > 0 && shown < total {
        "  showing ".to_owned().concat(text::decimal(shown as u64).as_str()).concat(
            " of ",
        ).concat(text::decimal(total as u64).as_str()).concat(
            " file records (hotspots first",
        ).concat(
            if next {
                " on next call"
            } else {
                ""
            },
        ).concat(") \u{2014} use -n 0 for all")
    } else {
        "  ".to_owned().concat(text::decimal(total as u64).as_str()).concat(" file records")
    }
}

// ---------------------------------------------------------------------------
// Gotchas, decisions and notes
// ---------------------------------------------------------------------------

#[derive(Debug, PartialEq, Eq)]
pub struct ListedRecord {
    pub key: String,
    pub value: String,
    /// The rule of a gotcha and whether it is confirmed, where that can be read.
    pub gotcha: Option<(String, bool)>,
    pub priority: Priority,
    pub confidence: Score,
    pub quality: Score,
    pub updated_at: u64,
}

/// The row of a gotcha: key, rule, severity, confidence, quality and whether it is
/// confirmed.
pub open spec fn gotcha_cells(r: ListedRecord) -> Seq<Seq<char>> {
    seq![
        record::short_key(r.key@, "gotcha:"@),
        match r.gotcha {
            Some(g) => record::truncated(g.0@, 40),
            None => record::truncated(r.value@, 40),
        },
        record::priority_abbreviation(r.priority),
        r.confidence.shown@,
        r.quality.shown@,
        if r.gotcha matches Some(g) && g.1 {
            "Y"@
        } else {
            "-"@
        },
    ]
}

pub fn gotcha_row(r: &ListedRecord) -> (cells: Vec<String>)
    ensures
        text::texts(cells@) == gotcha_cells(*r),
{
    let (rule, confirmed) = match &r.gotcha {
        Some(g) => (record::truncate(g.0.as_str(), 40), g.1),
        None => (record::truncate(r.value.as_str(), 40), false),
    };
    let mut v: Vec<String> = Vec::new();
    text::push_line(&mut v, record::strip_key(r.key.as_str(), "gotcha:").to_owned());
    text::push_line(&mut v, rule);
    text::push_line(&mut v, record::priority_short(&r.priority).to_owned());
    text::push_line(&mut v, r.confidence.shown.clone());
    text::push_line(&mut v, r.quality.shown.clone());
    text::push_line(
        &mut v,
        if confirmed {
            "Y".to_owned()
        } else {
            "-".to_owned()
        },
    );
    assert(text::texts(v@) =~= gotcha_cells(*r));
    v
}

/// The row of a decision: key, value, priority, confidence, quality and date.
pub open spec fn decision_cells(r: ListedRecord) -> Seq<Seq<char>> {
    seq![
        record::short_key(r.key@, "decision:"@),
        record::truncated(r.value@, 40),
        record::priority_abbreviation(r.priority),
        r.confidence.shown@,
        r.quality.shown@,
        civil::ts_date(r.updated_at as nat),
    ]
}

pub fn decision_row(r: &ListedRecord) -> (cells: Vec<String>)
    ensures
        text::texts(cells@) == decision_cells(*r),
{
    let mut v: Vec<String> = Vec::new();
    text::push_line(&mut v, record::strip_key(r.key.as_str(), "decision:").to_owned());
    text::push_line(&mut v, record::truncate(r.value.as_str(), 40));
    text::push_line(&mut v, record::priority_short(&r.priority).to_owned());
    text::push_line(&mut v, r.confidence.shown.clone());
    text::push_line(&mut v, r.quality.shown.clone());
    text::push_line(&mut v, civil::format_date(r.updated_at));
    assert(text::texts(v@) =~= decision_cells(*r));
    v
}

/// The row of a note: key, text, quality and date.
pub open spec fn note_cells(r: ListedRecord) -> Seq<Seq<char>> {
    seq![
        record::short_key(r.key@, "dev_note:"@),
        record::truncated(r.value@, 60),
        r.quality.shown@,
        civil::ts_date(r.updated_at as nat),
    ]
}

pub fn note_row(r: &ListedRecord) -> (cells: Vec<String>)
    ensures
        text::texts(cells@) == note_cells(*r),
{
    let mut v: Vec<String> = Vec::new();
    text::push_line(&mut v, record::strip_key(r.key.as_str(), "dev_note:").to_owned());
    text::push_line(&mut v, record::truncate(r.value.as_str(), 60));
    text::push_line(&mut v, r.quality.shown.clone());
    text::push_line(&mut v, civil::format_date(r.updated_at));
    assert(text::texts(v@) =~= note_cells(*r));
    v
}

/// The times at which records were changed.
pub open spec fn update_times(records: Seq<ListedRecord>) -> Seq<u64> {
    records.map_values(|r: ListedRecord| r.updated_at)
}

/// The positions of the records, last changed first; equal ones keep their order.
pub fn newest_first(records: &Vec<ListedRecord>) -> (r: Vec<usize>)
    ensures
        ranking::is_descending(update_times(records@), r@),
{
    let mut keys: Vec<u64> = Vec::new();
    let mut i: usize = 0;
    while i < records.len()
        invariant
            i <= records.len(),
            keys@ =~= update_times(records@.take(i as int)),
        decreases records.len() - i,
    {
        assert(records@.take(i + 1) =~= records@.take(i as int).push(records@[i as int]));
        keys.push(records[i].updated_at);
        i = i + 1;
    }
    assert(records@.take(i as int) =~= records@);
    ranking::descending(&keys)
}

// ---------------------------------------------------------------------------
// Export and import
// ---------------------------------------------------------------------------

#[derive(Debug, Clone, Copy, PartialEq, Eq, Structural)]
pub enum ExportFormat {
    Json,
    Markdown,
}

/// Whether `r` is the format that a name stands for.
pub open spec fn is_format(name: Seq<char>, r: Result<ExportFormat, String>) -> bool {
    match r {
        Ok(ExportFormat::Json) => name == "json"@,
        Ok(ExportFormat::Markdown) => name == "md"@ || name == "markdown"@,
        Err(m) => {
            &&& name != "json"@
            &&& name != "md"@
            &&& name != "markdown"@
            &&& m@ == "unknown format '"@ + name + "'. Valid: md, json"@
        },
    }
}

/// The format that a name stands for, or the message for an unknown one.
pub fn export_format(name: &str) -> (r: Result<ExportFormat, String>)
    ensures
        is_format(name@, r),
{
    if text::same(name, "json") {
        proof {
            reveal_strlit("json");
            reveal_strlit("md");
            reveal_strlit("markdown");
        }
        Ok(ExportFormat::Json)
    } else if text::same(name, "md") || text::same(name, "markdown") {
        Ok(ExportFormat::Markdown)
    } else {
        Err("unknown format '".to_owned().concat(name).concat("'. Valid: md, json"))
    }
}

#[derive(Debug, PartialEq, Eq)]
pub struct ExportRecord {
    pub key: String,
    pub value: String,
    pub priority: Priority,
    pub source: RecordSource,
    /// Confidence and quality with two decimals.
    pub confidence: String,
    pub quality: String,
}

/// One record in Markdown.
pub open spec fn record_md(r: ExportRecord) -> Seq<char> {
    "### "@ + r.key@ + "\n\n"@ + (if r.value@.len() > 0 {
        r.value@ + "\n\n"@
    } else {
        ""@
    }) + "- priority: "@ + record::priority_text(r.priority) + "\n- confidence: "@ + r.confidence@
        + "\n- quality: "@ + r.quality@ + "\n- source: "@ + record::source_variant(r.source)
        + "\n\n"@
}

/// The first `n` records in Markdown.
pub open spec fn records_md(rs: Seq<ExportRecord>, n: int) -> Seq<char>
    decreases n,
{
    if n <= 0 {
        Seq::empty()
    } else {
        records_md(rs, n - 1) + record_md(rs[n - 1])
    }
}

/// One section; nothing where it has no record.
pub open spec fn section_md(heading: Seq<char>, rs: Seq<ExportRecord>) -> Seq<char> {
    if rs.len() == 0 {
        Seq::empty()
    } else {
        "## "@ + heading + "\n\n"@ + records_md(rs, rs.len() as int)
    }
}

/// The beginning of the export.
pub open spec fn export_title() -> Seq<char> {
    "# mati knowledge export\n\n"@
}

pub fn export_start() -> (r: String)
    ensures
        r@ == export_title(),
{
    "# mati knowledge export\n\n".to_owned()
}

fn one_record(r: &ExportRecord) -> (s: String)
    ensures
        s@ == record_md(*r),
{
    let value = if r.value.as_str().is_empty() {
        "".to_owned()
    } else {
        r.value.clone().concat("\n\n")
    };
    "### ".to_owned().concat(r.key.as_str()).concat("\n\n").concat(value.as_str()).concat(
        "- priority: ",
    ).concat(record::priority_name(&r.priority)).concat("\n- confidence: ").concat(
        r.confidence.as_str(),
    ).concat("\n- quality: ").concat(r.quality.as_str()).concat("\n- source: ").concat(
        record::source_name(&r.source),
    ).concat("\n\n")
}

/// The section of a namespace.
pub fn export_section(heading: &str, rs: &Vec<ExportRecord>) -> (r: String)
    ensures
        r@ == section_md(heading@, rs@),
{
    if rs.is_empty() {
        return String::new();
    }
    let mut body = String::new();
    let mut i: usize = 0;
    while i < rs.len()
        invariant
            i <= rs.len(),
            body@ == records_md(rs@, i as int),
        decreases rs.len() - i,
    {
        body = body.concat(one_record(&rs[i]).as_str());
        i = i + 1;
    }
    "## ".to_owned().concat(heading).concat("\n\n").concat(body.as_str())
}

#[derive(Debug, Clone, Copy, PartialEq, Eq, Structural)]
pub enum ImportKind {
    Json,
    ClaudeMd,
}

/// How a file is read: by its extension, or where that says nothing by its first
/// visible character.
pub open spec fn import_kind_of(ext: Seq<char>, content: Seq<char>) -> ImportKind {
    if ext == "json"@ {
        ImportKind::Json
    } else if ext == "md"@ {
        ImportKind::ClaudeMd
    } else {
        let t = text::trim_start(content);
        if t.len() > 0 && (t[0] == '[' || t[0] == '{') {
            ImportKind::Json
        } else {
            ImportKind::ClaudeMd
        }
    }
}

pub fn import_kind(ext: &str, content: &str) -> (r: ImportKind)
    ensures
        r == import_kind_of(ext@, content@),
{
    if text::same(ext, "json") {
        return ImportKind::Json;
    }
    if text::same(ext, "md") {
        return ImportKind::ClaudeMd;
    }
    let v = text::chars(content);
    let mut i: usize = 0;
    assert(content@.skip(0) =~= content@);
    while i < v.len() && text::space(v[i])
        invariant
            v@ == content@,
            i <= v.len(),
            text::trim_start(content@) == text::trim_start(content@.skip(i as int)),
        decreases v.len() - i,
    {
        assert(content@.skip(i as int).skip(1) =~= content@.skip(i + 1));
        i = i + 1;
    }
    assert(text::trim_start(content@) == content@.skip(i as int));
    if i < v.len() && (v[i] == '[' || v[i] == '{') {
        ImportKind::Json
    } else {
        ImportKind::ClaudeMd
    }
}

// ---------------------------------------------------------------------------
// What the lists are for
// ---------------------------------------------------------------------------

/// Hotspots come first, and among files of one kind the paths ascend. A file is left
/// out only below a limit, and never a hotspot for another file.
pub proof fn law_hotspots_come_first(
    rows: Seq<LsFileRow>,
    limit: nat,
    full: Seq<usize>,
    r: Seq<usize>,
)
    requires
        rows.len() <= usize::MAX,
        ranking::is_ranking(rows, full),
        r.len() == shown_rows(rows.len(), limit),
        r == full.take(r.len() as int),
    ensures
        limit == 0 ==> r.len() == rows.len(),
        limit > 0 ==> r.len() <= limit,
        limit > 0 && r.len() < limit ==> r.len() == rows.len(),
        forall|i: int, j: int|
            0 <= i < j < r.len() ==> (rows[#[trigger] r[j] as int].is_hotspot
                ==> rows[#[trigger] r[i] as int].is_hotspot) && (rows[r[i] as int].is_hotspot
                == rows[r[j] as int].is_hotspot ==> !text::text_less(
                rows[r[j] as int].path@,
                rows[r[i] as int].path@,
            )),
        forall|x: int, i: int|
            0 <= x < rows.len() && !r.contains(x as usize) && (#[trigger] rows[x]).is_hotspot && 0
                <= i < r.len() ==> rows[#[trigger] r[i] as int].is_hotspot,
{
    assert forall|i: int, j: int| 0 <= i < j < full.len() implies rows[#[trigger] full[i] as int].le(
        &rows[#[trigger] full[j] as int],
    ) by {
        assert(ranking::comes_first(rows, full[i] as int, full[j] as int));
    }
    assert forall|i: int, j: int| 0 <= i < j < r.len() implies (
    rows[#[trigger] r[j] as int].is_hotspot ==> rows[#[trigger] r[i] as int].is_hotspot) && (
    rows[r[i] as int].is_hotspot == rows[r[j] as int].is_hotspot ==> !text::text_less(
        rows[r[j] as int].path@,
        rows[r[i] as int].path@,
    )) by {
        assert(r[i] == full[i] && r[j] == full[j]);
        assert(rows[full[i] as int].le(&rows[full[j] as int]));
    }
    assert forall|x: int, i: int|
        0 <= x < rows.len() && !r.contains(x as usize) && (#[trigger] rows[x]).is_hotspot && 0 <= i
            < r.len() implies rows[#[trigger] r[i] as int].is_hotspot by {
        ranking::lemma_ranking_complete(rows, full, x as usize);
        let j = choose|j: int| 0 <= j < full.len() && full[j] == x as usize;
        if j < r.len() {
            assert(r[j] == x as usize);
            assert(r.contains(x as usize));
        }
        assert(r[i] == full[i]);
        assert(rows[full[i] as int].le(&rows[full[j] as int]));
    }
}

/// Each kind is listed by its own name; no name lists everything, and an unknown one
/// is refused.
pub proof fn law_kinds_are_listed_by_name(c: Seq<char>)
    ensures
        ls_kind_of(None) == Some(LsKind::All),
        ls_kind_of(Some(c)) != Some(LsKind::All),
        ls_kind_of(Some(c)) == Some(LsKind::Files) <==> c == "files"@,
        ls_kind_of(Some(c)) == Some(LsKind::Gotchas) <==> c == "gotchas"@,
        ls_kind_of(Some(c)) == Some(LsKind::Decisions) <==> c == "decisions"@,
        ls_kind_of(Some(c)) == Some(LsKind::Notes) <==> c == "notes"@ || c == "note"@ || c
            == "dev_note"@ || c == "dev_notes"@,
{
    reveal_strlit("files");
    reveal_strlit("gotchas");
    reveal_strlit("decisions");
    reveal_strlit("notes");
    reveal_strlit("note");
    reveal_strlit("dev_note");
    reveal_strlit("dev_notes");
    assert("files"@[0] == 'f' && "gotchas"@[0] == 'g' && "notes"@[0] == 'n' && "note"@[0] == 'n');
    assert("decisions"@[2] == 'c' && "dev_note"@[2] == 'v' && "dev_notes"@[2] == 'v');
}

/// A path that is too long for its column loses its start, not the name of the file.
pub proof fn law_long_paths_keep_their_end(path: Seq<char>)
    ensures
        path_cell(path).len() <= 42,
        path.len() <= 42 <==> path_cell(path) == path,
        path.len() > 42 ==> path_cell(path).skip(1) == path.skip(path.len() - 41)
            && path_cell(path)[0] == '\u{2026}',
{
    reveal_strlit("\u{2026}");
    if path.len() > 42 {
        assert(path_cell(path).skip(1) =~= path.skip(path.len() - 41));
    }
}

proof fn lemma_in_cells(
    s: Seq<char>,
    e: Seq<char>,
    c: Seq<char>,
    q: Seq<char>,
    m: Seq<char>,
    x: Seq<char>,
)
    requires
        text::text_contains(s, x),
    ensures
        text::text_contains(
            s + "  "@ + text::padded_left(e, 3) + "  "@ + text::padded_left(c, 4) + "  "@
                + text::padded_left(q, 4) + "  "@ + m,
            x,
        ),
{
    let t = "  "@;
    let s3 = s + t + text::padded_left(e, 3);
    let s4 = s3 + t + text::padded_left(c, 4);
    let s5 = s4 + t + text::padded_left(q, 4);
    text::lemma_contains_either(s, t, x);
    text::lemma_contains_either(s + t, text::padded_left(e, 3), x);
    text::lemma_contains_either(s3, t, x);
    text::lemma_contains_either(s3 + t, text::padded_left(c, 4), x);
    text::lemma_contains_either(s4, t, x);
    text::lemma_contains_either(s4 + t, text::padded_left(q, 4), x);
    text::lemma_contains_either(s5, t, x);
    text::lemma_contains_either(s5 + t, m, x);
}

/// A row begins with the path and ends with a star exactly for a hotspot.
pub proof fn law_hotspots_are_starred(row: LsFileRow)
    ensures
        path_cell(row.path@).is_prefix_of(file_line(row)),
        file_line(row).last() == '*' <==> row.is_hotspot,
        text::text_contains(file_line(row), row.purpose@),
        text::text_contains(file_line(row), text::dec(row.entry_count as nat)),
        text::text_contains(file_line(row), row.confidence.shown@),
        text::text_contains(file_line(row), row.quality.shown@),
{
    reveal_strlit("*");
    reveal_strlit("");
    let l = file_line(row);
    let p = path_cell(row.path@);
    assert(l.subrange(0, p.len() as int) =~= p);
    let mark = if row.is_hotspot {
        "*"@
    } else {
        ""@
    };
    let m = text::padded_left(mark, 3);
    let t = "  "@;
    let e = text::dec(row.entry_count as nat);
    let s1 = text::padded_right(p, 42) + t;
    let s2 = s1 + text::padded_right(row.purpose@, 38);
    let s3 = s2 + t + text::padded_left(e, 3);
    let s4 = s3 + t + text::padded_left(row.confidence.shown@, 4);
    let s5 = s4 + t + text::padded_left(row.quality.shown@, 4);
    assert(l == s5 + t + m);
    text::lemma_padded_contains(row.purpose@, 38);
    text::lemma_contains_either(s1, text::padded_right(row.purpose@, 38), row.purpose@);
    lemma_in_cells(s2, e, row.confidence.shown@, row.quality.shown@, m, row.purpose@);
    text::lemma_padded_contains(e, 3);
    text::lemma_contains_either(s2 + t, text::padded_left(e, 3), e);
    text::lemma_contains_either(s3, t, e);
    text::lemma_contains_either(s3 + t, text::padded_left(row.confidence.shown@, 4), e);
    text::lemma_contains_either(s4, t, e);
    text::lemma_contains_either(s4 + t, text::padded_left(row.quality.shown@, 4), e);
    text::lemma_contains_either(s5, t, e);
    text::lemma_contains_either(s5 + t, m, e);
    let c = row.confidence.shown@;
    text::lemma_padded_contains(c, 4);
    text::lemma_contains_either(s3 + t, text::padded_left(c, 4), c);
    text::lemma_contains_either(s4, t, c);
    text::lemma_contains_either(s4 + t, text::padded_left(row.quality.shown@, 4), c);
    text::lemma_contains_either(s5, t, c);
    text::lemma_contains_either(s5 + t, m, c);
    let q = row.quality.shown@;
    text::lemma_padded_contains(q, 4);
    text::lemma_contains_either(s4 + t, text::padded_left(q, 4), q);
    text::lemma_contains_either(s5, t, q);
    text::lemma_contains_either(s5 + t, m, q);
    assert(l.last() == m.last());
    text::law_padding_fills_with_blanks(mark, 3);
    if row.is_hotspot {
        assert(m.skip(2)[0] == '*');
    } else {
        assert(m[2] == ' ');
    }
}

/// A purpose that is not known yet is told to be pending.
pub proof fn law_purpose_is_shown(s: Seq<char>)
    requires
        !s.contains('\n'),
        s.len() == 0 || s.last() != '\r',
    ensures
        s.len() == 0 ==> purpose_cell(s) == "(pending enrichment)"@,
        0 < s.len() <= 40 ==> purpose_cell(s) == s,
        s.len() > 40 ==> purpose_cell(s).len() == 40 && purpose_cell(s).take(37) == s.take(37),
{
    record::law_truncation_keeps_the_start(s, Seq::empty(), 40);
}

/// The footer counts all files, and those that are shown where they are fewer.
pub proof fn law_footer_counts_the_files(shown: nat, total: nat, limit: nat, next: bool)
    ensures
        text::text_contains(footer_text(shown, total, limit, next), text::dec(total)),
        limit > 0 && shown < total <==> ("  showing "@ + text::dec(shown)).is_prefix_of(
            footer_text(shown, total, limit, next),
        ),
{
    let f = footer_text(shown, total, limit, next);
    let d = text::dec(total);
    text::lemma_dec_value(total);
    reveal_strlit("  showing ");
    reveal_strlit("  ");
    let h = "  showing "@ + text::dec(shown);
    if limit > 0 && shown < total {
        let a = h + " of "@;
        let b = " file records (hotspots first"@ + (if next {
            " on next call"@
        } else {
            ""@
        }) + ") \u{2014} use -n 0 for all"@;
        assert(f =~= a + d + b);
        text::lemma_part_occurs(a, d, b);
        assert(f.subrange(0, h.len() as int) =~= h);
    } else {
        text::lemma_part_occurs("  "@, d, " file records"@);
        assert(f[2] == d[0]);
        assert(text::is_digit(d[0]));
        if h.is_prefix_of(f) {
            assert(f.subrange(0, h.len() as int)[2] == h[2]);
        }
    }
}

/// A gotcha's row has its key without the namespace, its rule, and a Y exactly where it
/// is confirmed.
pub proof fn law_gotcha_row_tells_confirmation(r: ListedRecord, slug: Seq<char>)
    requires
        r.key@ == "gotcha:"@ + slug,
    ensures
        gotcha_cells(r).len() == 6,
        gotcha_cells(r)[0] == slug,
        gotcha_cells(r)[5] == "Y"@ <==> (r.gotcha matches Some(g) && g.1),
        r.gotcha matches Some(g) ==> gotcha_cells(r)[1] == record::truncated(g.0@, 40),
        r.gotcha is None ==> gotcha_cells(r)[1] == record::truncated(r.value@, 40),
        gotcha_cells(r)[2].is_prefix_of(record::priority_text(r.priority)),
        gotcha_cells(r)[3] == r.confidence.shown@,
        gotcha_cells(r)[4] == r.quality.shown@,
{
    reveal_strlit("Y");
    reveal_strlit("-");
    assert("Y"@[0] == 'Y' && "-"@[0] == '-');
    record::law_short_keys_drop_the_namespace("gotcha:"@, slug);
    record::law_priorities_keep_their_names(r.priority, r.priority);
}

/// The rows of decisions and notes have the key without the namespace, the text and
/// the day of the last change.
pub proof fn law_other_rows_tell_the_record(r: ListedRecord, slug: Seq<char>)
    ensures
        r.key@ == "decision:"@ + slug ==> decision_cells(r)[0] == slug,
        r.key@ == "dev_note:"@ + slug ==> note_cells(r)[0] == slug,
        decision_cells(r)[1] == record::truncated(r.value@, 40),
        note_cells(r)[1] == record::truncated(r.value@, 60),
        decision_cells(r)[2].is_prefix_of(record::priority_text(r.priority)),
        decision_cells(r).last() == civil::ts_date(r.updated_at as nat),
        note_cells(r).last() == civil::ts_date(r.updated_at as nat),
        decision_cells(r)[3] == r.confidence.shown@ && decision_cells(r)[4] == r.quality.shown@,
        note_cells(r)[2] == r.quality.shown@,
{
    record::law_short_keys_drop_the_namespace("decision:"@, slug);
    record::law_short_keys_drop_the_namespace("dev_note:"@, slug);
    record::law_priorities_keep_their_names(r.priority, r.priority);
}

/// The records come by their last change, the latest first.
pub proof fn law_latest_changes_come_first(records: Seq<ListedRecord>, r: Seq<usize>)
    requires
        ranking::is_descending(update_times(records), r),
    ensures
        r.len() == records.len(),
        forall|i: int, j: int|
            0 <= i < j < r.len() ==> records[#[trigger] r[i] as int].updated_at
                >= records[#[trigger] r[j] as int].updated_at && r[i] != r[j],
{
    let k = update_times(records);
    assert forall|i: int, j: int| 0 <= i < j < r.len() implies records[#[trigger] r[i] as int].updated_at
        >= records[#[trigger] r[j] as int].updated_at && r[i] != r[j] by {
        assert(k[r[i] as int] == records[r[i] as int].updated_at);
        assert(k[r[j] as int] == records[r[j] as int].updated_at);
    }
}

/// An export has every record of a section under its key, with its text, priority and
/// source; a section without records is left out.
pub proof fn law_export_has_every_record(heading: Seq<char>, rs: Seq<ExportRecord>, i: int)
    requires
        0 <= i < rs.len(),
    ensures
        section_md(heading, Seq::empty()).len() == 0,
        ("## "@ + heading).is_prefix_of(section_md(heading, rs)),
        text::text_contains(section_md(heading, rs), "### "@ + rs[i].key@ + "\n\n"@),
        text::text_contains(section_md(heading, rs), rs[i].value@),
        text::text_contains(
            section_md(heading, rs),
            "- priority: "@ + record::priority_text(rs[i].priority) + "\n- confidence: "@
                + rs[i].confidence@ + "\n- quality: "@ + rs[i].quality@,
        ),
        text::text_contains(
            section_md(heading, rs),
            "\n- source: "@ + record::source_variant(rs[i].source),
        ),
{
    let s = section_md(heading, rs);
    let h = "## "@ + heading;
    assert(s.subrange(0, h.len() as int) =~= h);
    let body = records_md(rs, rs.len() as int);
    lemma_records_hold(rs, rs.len() as int, i);
    let r = rs[i];
    let m = record_md(r);
    let j = choose|j: int| text::occurs_at(body, m, j);
    let before = h + "\n\n"@ + body.take(j);
    let after = body.skip(j + m.len());
    assert(body =~= body.take(j) + m + after) by {
        assert(body.subrange(j, j + m.len()) == m);
    }
    assert(s =~= before + m + after);
    lemma_record_holds(r);
    text::lemma_contains_in_part(before, m, after, "### "@ + r.key@ + "\n\n"@);
    text::lemma_contains_in_part(before, m, after, r.value@);
    text::lemma_contains_in_part(
        before,
        m,
        after,
        "- priority: "@ + record::priority_text(r.priority) + "\n- confidence: "@ + r.confidence@
            + "\n- quality: "@ + r.quality@,
    );
    text::lemma_contains_in_part(
        before,
        m,
        after,
        "\n- source: "@ + record::source_variant(r.source),
    );
}

proof fn lemma_record_holds(r: ExportRecord)
    ensures
        text::text_contains(record_md(r), "### "@ + r.key@ + "\n\n"@),
        text::text_contains(record_md(r), r.value@),
        text::text_contains(
            record_md(r),
            "- priority: "@ + record::priority_text(r.priority) + "\n- confidence: "@
                + r.confidence@ + "\n- quality: "@ + r.quality@,
        ),
        text::text_contains(record_md(r), "\n- source: "@ + record::source_variant(r.source)),
{
    let x1 = "### "@ + r.key@ + "\n\n"@;
    let v = if r.value@.len() > 0 {
        r.value@ + "\n\n"@
    } else {
        ""@
    };
    let x3 = "- priority: "@ + record::priority_text(r.priority) + "\n- confidence: "@
        + r.confidence@ + "\n- quality: "@ + r.quality@;
    let x4 = "\n- source: "@ + record::source_variant(r.source);
    let end = "\n\n"@;
    let m = record_md(r);
    assert(m =~= x1 + v + x3 + x4 + end);
    text::lemma_padded_contains(x1, 0);
    text::lemma_padded_contains(r.value@, 0);
    text::lemma_padded_contains(x3, 0);
    text::lemma_padded_contains(x4, 0);
    reveal_strlit("");
    if r.value@.len() > 0 {
        text::lemma_contains_either(r.value@, "\n\n"@, r.value@);
    } else {
        assert(r.value@ =~= v);
    }
    text::lemma_contains_either(x1, v, x1);
    text::lemma_contains_either(x1, v, r.value@);
    let a = x1 + v;
    text::lemma_contains_either(a, x3, x1);
    text::lemma_contains_either(a, x3, r.value@);
    text::lemma_contains_either(a, x3, x3);
    let b = a + x3;
    text::lemma_contains_either(b, x4, x1);
    text::lemma_contains_either(b, x4, r.value@);
    text::lemma_contains_either(b, x4, x3);
    text::lemma_contains_either(b, x4, x4);
    let c = b + x4;
    text::lemma_contains_either(c, end, x1);
    text::lemma_contains_either(c, end, r.value@);
    text::lemma_contains_either(c, end, x3);
    text::lemma_contains_either(c, end, x4);
}

proof fn lemma_records_hold(rs: Seq<ExportRecord>, n: int, i: int)
    requires
        0 <= i < n <= rs.len(),
    ensures
        text::text_contains(records_md(rs, n), record_md(rs[i])),
    decreases n,
{
    let none = Seq::<char>::empty();
    let before = records_md(rs, n - 1);
    let own = record_md(rs[n - 1]);
    if i < n - 1 {
        lemma_records_hold(rs, n - 1, i);
        text::lemma_contains_in_part(none, before, own, record_md(rs[i]));
        assert(none + before + own =~= records_md(rs, n));
    } else {
        text::lemma_part_occurs(before, own, none);
        assert(before + own + none =~= records_md(rs, n));
    }
}

/// A file is imported by its ending, and without a known one by what it begins with.
pub proof fn law_import_goes_by_ending_or_start(
    ext: Seq<char>,
    space: Seq<char>,
    c: char,
    rest: Seq<char>,
)
    requires
        text::all_space(space),
        !text::is_space(c),
    ensures
        ext == "json"@ ==> import_kind_of(ext, space + seq![c] + rest) is Json,
        ext == "md"@ ==> import_kind_of(ext, space + seq![c] + rest) is ClaudeMd,
        ext != "json"@ && ext != "md"@ ==> (import_kind_of(ext, space + seq![c] + rest) is Json
            <==> c == '[' || c == '{'),
        ext != "json"@ && ext != "md"@ ==> import_kind_of(ext, space) is ClaudeMd,
{
    reveal_strlit("json");
    reveal_strlit("md");
    assert("json"@.len() == 4 && "md"@.len() == 2);
    let t = seq![c] + rest;
    assert(space + seq![c] + rest =~= space + t);
    text::lemma_trim_start_drops(space, t);
    let none = Seq::<char>::empty();
    assert(space + none =~= space);
    text::lemma_trim_start_drops(space, none);
}

/// A format goes by its own names, and another name is refused.
pub proof fn law_formats_go_by_name(name: Seq<char>, r: Result<ExportFormat, String>)
    requires
        is_format(name, r),
    ensures
        r matches Ok(ExportFormat::Json) <==> name == "json"@,
        r matches Ok(ExportFormat::Markdown) <==> name == "md"@ || name == "markdown"@,
{
    reveal_strlit("json");
    reveal_strlit("md");
    reveal_strlit("markdown");
    assert("json"@.len() == 4 && "md"@.len() == 2 && "markdown"@.len() == 8);
}

/// A row has the file's path, what is known of it, and nothing made up where nothing
/// is.
pub proof fn law_row_is_the_file(e: FileEntry, r: LsFileRow, path: Seq<char>)
    requires
        is_row_of(e, r),
        e.key@ == "file:"@ + path,
    ensures
        r.path@ == path,
        r.is_hotspot <==> (e.info matches Some(f) && f.is_hotspot),
        e.info matches Some(f) ==> r.entry_count == f.entry_points,
        e.info is None ==> r.entry_count == 0,
        r.confidence.bits == e.confidence.bits && r.quality.bits == e.quality.bits,
        e.info matches Some(f) ==> (f.purpose@.len() == 0 ==> r.purpose@
            == "(pending enrichment)"@),
{
    record::law_short_keys_drop_the_namespace("file:"@, path);
}

} // verus!
