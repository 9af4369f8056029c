//! The list of stale records: which records it holds, in which order, and how it
//! is shown.
use vstd::prelude::*;
use crate::civil;
use crate::colors;
use crate::ranking;
use crate::ranking::Largest;
use crate::record;
use crate::record::{Category, Score, StalenessSignal, StalenessTier};
use crate::text;

verus! {

/// Arguments of `mati stale`.
#[derive(Debug, PartialEq, Eq)]
pub struct StaleArgs {
    pub verbose: bool,
    pub limit: usize,
}

/// What the stale list needs to know of a record.
#[derive(Debug, PartialEq, Eq)]
pub struct StaleRecord {
    pub key: String,
    pub category: Category,
    pub tier: StalenessTier,
    pub staleness: Score,
    pub signals: Vec<StalenessSignal>,
    pub updated_at: u64,
}

/// A stored list is good as long as nothing was written since.
pub fn cache_is_valid(cached_seq: u64, current_seq: u64) -> (r: bool)
    ensures
        r == (cached_seq == current_seq),
{
    cached_seq == current_seq
}

// ---------------------------------------------------------------------------
// Selection
// ---------------------------------------------------------------------------

/// The record at `a` is listed before the one at `b`: it is more stale, or as
/// stale and earlier in the list.
pub open spec fn listed_first(records: Seq<StaleRecord>, a: int, b: int) -> bool {
    records[a].staleness.bits > records[b].staleness.bits || (records[a].staleness.bits
        == records[b].staleness.bits && a < b)
}

/// `r` holds the positions of the stale records, most stale first; where there
/// are more than `limit`, the first `limit` of them.
pub open spec fn is_stale_list(records: Seq<StaleRecord>, limit: nat, r: Seq<usize>) -> bool {
    &&& r.len() <= limit
    &&& forall|i: int|
        0 <= i < r.len() ==> 0 <= #[trigger] r[i] < records.len() && record::is_stale_tier(
            records[r[i] as int].tier,
        )
    &&& forall|i: int, j: int|
        0 <= i < j < r.len() ==> listed_first(
            records,
            #[trigger] r[i] as int,
            #[trigger] r[j] as int,
        )
    &&& forall|x: int|
        0 <= x < records.len() && record::is_stale_tier((#[trigger] records[x]).tier)
            ==> r.contains(x as usize) || (r.len() == limit && forall|i: int|
            0 <= i < r.len() ==> listed_first(records, #[trigger] r[i] as int, x))
}

/// Selects the records of the stale list.
pub fn select_stale(records: &Vec<StaleRecord>, limit: usize) -> (r: Vec<usize>)
    ensures
        is_stale_list(records@, limit as nat, r@),
{
    let mut ranks: Vec<Largest> = Vec::new();
    let mut keep: Vec<bool> = Vec::new();
    let mut i: usize = 0;
    while i < records.len()
        invariant
            i <= records.len(),
            ranks.len() == i,
            keep.len() == i,
            forall|k: int| 0 <= k < i ==> (#[trigger] ranks@[k]).value == records@[k].staleness.bits,
            forall|k: int|
                0 <= k < i ==> #[trigger] keep@[k] == record::is_stale_tier(records@[k].tier),
        decreases records.len() - i,
    {
        ranks.push(Largest { value: records[i].staleness.bits as u64 });
        keep.push(
            match records[i].tier {
                StalenessTier::Stale | StalenessTier::Liability | StalenessTier::Tombstone => true,
                _ => false,
            },
        );
        i = i + 1;
    }
    let r = ranking::pick(&ranks, &keep, limit);
    proof {
        assert forall|a: int, b: int|
            0 <= a < records@.len() && 0 <= b < records@.len() && #[trigger] ranking::comes_first(
                ranks@,
                a,
                b,
            ) && a != b implies listed_first(records@, a, b) by {
            assert(ranks@[a].value == records@[a].staleness.bits);
            assert(ranks@[b].value == records@[b].staleness.bits);
        }
        assert forall|i: int| 0 <= i < r@.len() implies 0 <= #[trigger] r@[i] < records@.len()
            && record::is_stale_tier(records@[r@[i] as int].tier) by {
            assert(keep@[r@[i] as int]);
        }
        assert forall|x: int|
            0 <= x < records@.len() && record::is_stale_tier((#[trigger] records@[x]).tier) implies r@.contains(
            x as usize,
        ) || (r@.len() == limit && forall|i: int|
            0 <= i < r@.len() ==> listed_first(records@, #[trigger] r@[i] as int, x)) by {
            assert(keep@[x]);
            if !r@.contains(x as usize) {
                assert forall|i: int| 0 <= i < r@.len() implies listed_first(
                    records@,
                    #[trigger] r@[i] as int,
                    x,
                ) by {
                    assert(ranking::comes_first(ranks@, r@[i] as int, x));
                    assert(r@[i] != x as usize);
                }
            }
        }
    }
    r
}

// ---------------------------------------------------------------------------
// Labels
// ---------------------------------------------------------------------------

/// The labels of a list of signals.
pub open spec fn signal_texts(s: Seq<StalenessSignal>) -> Seq<Seq<char>> {
    s.map_values(|x: StalenessSignal| record::staleness_signal_text(x))
}

/// The first `max` signals, and how many more there are.
pub open spec fn signals_summary(s: Seq<StalenessSignal>, max: nat) -> Seq<char> {
    if s.len() <= max {
        text::joined(signal_texts(s), ", "@)
    } else {
        text::joined(signal_texts(s.take(max as int)), ", "@) + " +"@ + text::dec(
            (s.len() - max) as nat,
        ) + " more"@
    }
}

pub fn summarize_signals(signals: &Vec<StalenessSignal>, max: usize) -> (r: String)
    ensures
        r@ == signals_summary(signals@, max as nat),
{
    let n = if signals.len() <= max {
        signals.len()
    } else {
        max
    };
    let mut labels: Vec<String> = Vec::new();
    let mut i: usize = 0;
    while i < n
        invariant
            i <= n <= signals.len(),
            text::texts(labels@) =~= signal_texts(signals@.take(i as int)),
        decreases n - i,
    {
        let label = record::signal_short_label(&signals[i]);
        assert(signals@.take(i + 1) =~= signals@.take(i as int).push(signals@[i as int]));
        text::push_line(&mut labels, label);
        i = i + 1;
    }
    let joined = text::join(&labels, ", ");
    if signals.len() > max {
        joined.concat(" +").concat(text::decimal((signals.len() - max) as u64).as_str()).concat(
            " more",
        )
    } else {
        assert(signals@.take(n as int) =~= signals@);
        joined
    }
}

/// What to do about a stale record: a file is parsed anew unless it is gone;
/// anything else is looked at.
pub open spec fn hint_text(category: Category, tier: StalenessTier, key: Seq<char>) -> Seq<char> {
    if category is File {
        if tier is Tombstone {
            "file may be deleted \u{2014} verify: "@ + record::short_key(key, "file:"@)
        } else {
            "mati reparse "@ + record::short_key(key, "file:"@)
        }
    } else {
        "mati show "@ + key
    }
}

pub fn action_hint(category: Category, tier: StalenessTier, key: &str) -> (r: String)
    ensures
        r@ == hint_text(category, tier, key@),
{
    match category {
        Category::File => {
            let path = record::strip_key(key, "file:");
            match tier {
                StalenessTier::Tombstone => "file may be deleted \u{2014} verify: ".to_owned().concat(
                    path,
                ),
                _ => "mati reparse ".to_owned().concat(path),
            }
        },
        _ => "mati show ".to_owned().concat(key),
    }
}

/// The whole days since a record changed; 0 where that is unknown.
pub open spec fn age_days(updated_at: u64, now: u64) -> nat {
    if updated_at > 0 && now > updated_at {
        ((now - updated_at) / 86400) as nat
    } else {
        0
    }
}

fn age(updated_at: u64, now: u64) -> (r: u64)
    ensures
        r as nat == age_days(updated_at, now),
{
    if updated_at > 0 && now > updated_at {
        (now - updated_at) / 86400
    } else {
        0
    }
}

// ---------------------------------------------------------------------------
// Display
// ---------------------------------------------------------------------------

/// One row of the table: key, score, tier, age, signals and impact.
pub open spec fn row_cells(r: StaleRecord, now: u64) -> Seq<Seq<char>> {
    seq![
        record::truncated(r.key@, 40),
        r.staleness.shown@,
        record::tier_name(r.tier),
        text::dec(age_days(r.updated_at, now)) + "d"@,
        signals_summary(r.signals@, 2),
        record::impact_text(r.tier),
    ]
}

pub fn stale_row(r: &StaleRecord, now: u64) -> (cells: Vec<String>)
    ensures
        text::texts(cells@) == row_cells(*r, now),
{
    let mut v: Vec<String> = Vec::new();
    text::push_line(&mut v, record::truncate(r.key.as_str(), 40));
    text::push_line(&mut v, r.staleness.shown.clone());
    text::push_line(&mut v, record::tier_short_label(&r.tier).to_owned());
    text::push_line(&mut v, text::decimal(age(r.updated_at, now)).concat("d"));
    text::push_line(&mut v, summarize_signals(&r.signals, 2));
    text::push_line(&mut v, record::impact_label(&r.tier).to_owned());
    assert(text::texts(v@) =~= row_cells(*r, now));
    v
}

/// How many of the first `n` records have a tier.
pub open spec fn count_tier(records: Seq<StaleRecord>, tier: StalenessTier, n: int) -> nat
    decreases n,
{
    if n <= 0 {
        0
    } else {
        count_tier(records, tier, n - 1) + if records[n - 1].tier == tier {
            1nat
        } else {
            0
        }
    }
}

fn tier_count(records: &Vec<StaleRecord>, tier: StalenessTier) -> (r: u64)
    ensures
        r as nat == count_tier(records@, tier, records@.len() as int),
{
    let mut n: u64 = 0;
    let mut i: usize = 0;
    while i < records.len()
        invariant
            i <= records.len(),
            n as nat == count_tier(records@, tier, i as int),
            n <= i,
        decreases records.len() - i,
    {
        if records[i].tier == tier {
            n = n + 1;
        }
        i = i + 1;
    }
    n
}

/// One part of the breakdown, where its count is not 0.
pub open spec fn part(on: bool, n: nat, color: Seq<char>, label: Seq<char>) -> Seq<Seq<char>> {
    if n > 0 {
        seq![colors::shade(on, color) + text::dec(n) + label + colors::shade(on, colors::RESET@)]
    } else {
        Seq::empty()
    }
}

fn push_part(parts: &mut Vec<String>, on: bool, n: u64, color: &'static str, label: &str)
    ensures
        text::texts(final(parts)@) == text::texts(old(parts)@) + part(on, n as nat, color@, label@),
{
    let ghost head = text::texts(parts@);
    if n > 0 {
        text::push_line(
            parts,
            colors::tint(on, color).to_owned().concat(text::decimal(n).as_str()).concat(
                label,
            ).concat(colors::tint(on, colors::RESET)),
        );
    }
    assert(text::texts(parts@) =~= head + part(on, n as nat, color@, label@));
}

/// The counts by tier, the worst first.
pub open spec fn breakdown_parts(records: Seq<StaleRecord>, on: bool) -> Seq<Seq<char>> {
    let n = records.len() as int;
    part(on, count_tier(records, StalenessTier::Tombstone, n), colors::RED@, " tombstone"@) + part(
        on,
        count_tier(records, StalenessTier::Liability, n),
        colors::RED@,
        " liability"@,
    ) + part(on, count_tier(records, StalenessTier::Stale, n), colors::YELLOW@, " stale"@)
}

/// The counts in brackets; nothing where there is none.
pub open spec fn breakdown(records: Seq<StaleRecord>, on: bool) -> Seq<char> {
    let parts = breakdown_parts(records, on);
    if parts.len() == 0 {
        Seq::empty()
    } else {
        " ("@ + text::joined(parts, ", "@) + ")"@
    }
}

/// The different hints of the first `n` records, five at most.
pub open spec fn hints(records: Seq<StaleRecord>, n: int) -> Seq<Seq<char>>
    decreases n,
{
    if n <= 0 {
        Seq::empty()
    } else {
        let p = hints(records, n - 1);
        let r = records[n - 1];
        let h = hint_text(r.category, r.tier, r.key@);
        if p.len() >= 5 || p.contains(h) {
            p
        } else {
            p.push(h)
        }
    }
}

fn suggested(records: &Vec<StaleRecord>) -> (r: Vec<String>)
    ensures
        text::texts(r@) == hints(records@, records@.len() as int),
        r@.len() <= 5,
{
    let mut out: Vec<String> = Vec::new();
    let mut i: usize = 0;
    assert(text::texts(out@) =~= hints(records@, 0));
    while i < records.len()
        invariant
            i <= records.len(),
            text::texts(out@) == hints(records@, i as int),
            out@.len() <= 5,
        decreases records.len() - i,
    {
        let r = &records[i];
        let h = action_hint(r.category, r.tier, r.key.as_str());
        assert(text::texts(out@).len() == out@.len());
        if out.len() < 5 && !text::list_contains(&out, h.as_str()) {
            text::push_line(&mut out, h);
            assert(text::texts(out@).len() == out@.len());
        }
        i = i + 1;
    }
    out
}

/// The detailed block of one record.
pub open spec fn detail_lines(r: StaleRecord, now: u64, on: bool) -> Seq<Seq<char>> {
    let gray = colors::shade(on, colors::GRAY@);
    let bold = colors::shade(on, colors::BOLD@);
    let reset = colors::shade(on, colors::RESET@);
    seq![
        "  "@ + colors::shade(on, record::staleness_shade(r.tier)) + bold + "\u{25cf} "@
            + text::padded_right(record::tier_capitals(r.tier), 11) + reset + " "@ + bold + r.key@
            + reset + "  "@ + gray + "age: "@ + text::dec(age_days(r.updated_at, now)) + "d"@
            + reset,
        "               "@ + gray + "Score: "@ + r.staleness.shown@ + "  Updated: "@
            + civil::ts_date(r.updated_at as nat) + reset,
    ] + (if r.signals@.len() == 0 {
        Seq::<Seq<char>>::empty()
    } else {
        seq![
            "               "@ + gray + "Signals: "@ + signals_summary(
                r.signals@,
                r.signals@.len(),
            ) + reset,
        ]
    }) + seq![
        "               \u{2192} Action: "@ + hint_text(r.category, r.tier, r.key@),
        ""@,
    ]
}

fn push_details(out: &mut Vec<String>, r: &StaleRecord, now: u64, on: bool)
    ensures
        text::texts(final(out)@) == text::texts(old(out)@) + detail_lines(*r, now, on),
{
    let ghost head = text::texts(out@);
    let gray = colors::tint(on, colors::GRAY);
    let bold = colors::tint(on, colors::BOLD);
    let reset = colors::tint(on, colors::RESET);
    let days = text::decimal(age(r.updated_at, now));
    text::push_line(
        out,
        "  ".to_owned().concat(colors::tint(on, record::staleness_color(&r.tier))).concat(
            bold,
        ).concat("\u{25cf} ").concat(
            text::pad_right(record::tier_upper(&r.tier), 11).as_str(),
        ).concat(reset).concat(" ").concat(bold).concat(r.key.as_str()).concat(reset).concat(
            "  ",
        ).concat(gray).concat("age: ").concat(days.as_str()).concat("d").concat(reset),
    );
    text::push_line(
        out,
        "               ".to_owned().concat(gray).concat("Score: ").concat(
            r.staleness.shown.as_str(),
        ).concat("  Updated: ").concat(civil::format_date(r.updated_at).as_str()).concat(reset),
    );
    if !r.signals.is_empty() {
        let sigs = summarize_signals(&r.signals, r.signals.len());
        text::push_line(
            out,
            "               ".to_owned().concat(gray).concat("Signals: ").concat(
                sigs.as_str(),
            ).concat(reset),
        );
    }
    text::push_line(
        out,
        "               \u{2192} Action: ".to_owned().concat(
            action_hint(r.category, r.tier, r.key.as_str()).as_str(),
        ),
    );
    text::push_line(out, "".to_owned());
    assert(text::texts(out@) =~= head + detail_lines(*r, now, on));
}

/// The blocks of the first `n` records.
pub open spec fn details(records: Seq<StaleRecord>, now: u64, on: bool, n: int) -> Seq<Seq<char>>
    decreases n,
{
    if n <= 0 {
        Seq::empty()
    } else {
        details(records, now, on, n - 1) + detail_lines(records[n - 1], now, on)
    }
}

/// The line with the counts.
pub open spec fn count_lines(records: Seq<StaleRecord>, on: bool) -> Seq<Seq<char>> {
    seq![
        ""@,
        "  "@ + colors::shade(on, colors::BOLD@) + text::dec(records.len()) + " stale records"@
            + colors::shade(on, colors::RESET@) + breakdown(records, on),
        ""@,
    ]
}

/// The suggested actions; nothing where there is none.
pub open spec fn action_lines(actions: Seq<Seq<char>>, on: bool) -> Seq<Seq<char>> {
    if actions.len() == 0 {
        Seq::empty()
    } else {
        seq![
            "  "@ + colors::shade(on, colors::GRAY@) + "Suggested actions:"@ + colors::shade(
                on,
                colors::RESET@,
            ),
        ] + text::prefixed("    "@, actions) + seq![""@]
    }
}

/// A block for each record, where asked for.
pub open spec fn verbose_lines(
    records: Seq<StaleRecord>,
    now: u64,
    verbose: bool,
    on: bool,
) -> Seq<Seq<char>> {
    if verbose {
        seq![""@] + details(records, now, on, records.len() as int)
    } else {
        Seq::empty()
    }
}

/// What is printed below the table; where nothing is stale there is no table and
/// one line says so.
pub open spec fn report_lines(
    records: Seq<StaleRecord>,
    now: u64,
    verbose: bool,
    on: bool,
) -> Seq<Seq<char>> {
    if records.len() == 0 {
        seq!["No stale records."@]
    } else {
        count_lines(records, on) + action_lines(hints(records, records.len() as int), on)
            + verbose_lines(records, now, verbose, on)
    }
}

fn counts_in_brackets(records: &Vec<StaleRecord>, on: bool) -> (r: String)
    ensures
        r@ == breakdown(records@, on),
{
    let mut parts: Vec<String> = Vec::new();
    push_part(
        &mut parts,
        on,
        tier_count(records, StalenessTier::Tombstone),
        colors::RED,
        " tombstone",
    );
    push_part(
        &mut parts,
        on,
        tier_count(records, StalenessTier::Liability),
        colors::RED,
        " liability",
    );
    push_part(
        &mut parts,
        on,
        tier_count(records, StalenessTier::Stale),
        colors::YELLOW,
        " stale",
    );
    assert(text::texts(parts@) =~= breakdown_parts(records@, on));
    assert(text::texts(parts@).len() == parts@.len());
    if parts.is_empty() {
        String::new()
    } else {
        " (".to_owned().concat(text::join(&parts, ", ").as_str()).concat(")")
    }
}

fn push_counts(out: &mut Vec<String>, records: &Vec<StaleRecord>, on: bool)
    ensures
        text::texts(final(out)@) == text::texts(old(out)@) + count_lines(records@, on),
{
    let ghost head = text::texts(out@);
    let counts = counts_in_brackets(records, on);
    text::push_line(out, "".to_owned());
    text::push_line(
        out,
        "  ".to_owned().concat(colors::tint(on, colors::BOLD)).concat(
            text::decimal(records.len() as u64).as_str(),
        ).concat(" stale records").concat(colors::tint(on, colors::RESET)).concat(
            counts.as_str(),
        ),
    );
    text::push_line(out, "".to_owned());
    assert(text::texts(out@) =~= head + count_lines(records@, on));
}

fn push_actions(out: &mut Vec<String>, actions: &Vec<String>, on: bool)
    ensures
        text::texts(final(out)@) == text::texts(old(out)@) + action_lines(
            text::texts(actions@),
            on,
        ),
{
    let ghost head = text::texts(out@);
    if !actions.is_empty() {
        text::push_line(
            out,
            "  ".to_owned().concat(colors::tint(on, colors::GRAY)).concat(
                "Suggested actions:",
            ).concat(colors::tint(on, colors::RESET)),
        );
        text::push_prefixed(out, "    ", actions);
        text::push_line(out, "".to_owned());
    }
    assert(text::texts(out@) =~= head + action_lines(text::texts(actions@), on));
}

fn push_verbose(out: &mut Vec<String>, records: &Vec<StaleRecord>, now: u64, verbose: bool, on: bool)
    ensures
        text::texts(final(out)@) == text::texts(old(out)@) + verbose_lines(
            records@,
            now,
            verbose,
            on,
        ),
{
    let ghost start = text::texts(out@);
    if verbose {
        text::push_line(out, "".to_owned());
        let ghost head = text::texts(out@);
        let mut i: usize = 0;
        assert(head + details(records@, now, on, 0) =~= head);
        while i < records.len()
            invariant
                i <= records.len(),
                text::texts(out@) =~= head + details(records@, now, on, i as int),
            decreases records.len() - i,
        {
            push_details(out, &records[i], now, on);
            i = i + 1;
        }
    }
    assert(text::texts(out@) =~= start + verbose_lines(records@, now, verbose, on));
}

pub fn stale_report(records: &Vec<StaleRecord>, now: u64, verbose: bool, on: bool) -> (r: Vec<String>)
    ensures
        text::texts(r@) == report_lines(records@, now, verbose, on),
{
    let mut out: Vec<String> = Vec::new();
    if records.is_empty() {
        text::push_line(&mut out, "No stale records.".to_owned());
        assert(text::texts(out@) =~= report_lines(records@, now, verbose, on));
        return out;
    }
    push_counts(&mut out, records, on);
    let actions = suggested(records);
    push_actions(&mut out, &actions, on);
    push_verbose(&mut out, records, now, verbose, on);
    assert(text::texts(out@) =~= report_lines(records@, now, verbose, on));
    out
}

// ---------------------------------------------------------------------------
// What the list is for
// ---------------------------------------------------------------------------

/// The list holds records past their use, the stalest first. One that is left out is
/// no staler than any in the list, which then is full.
pub proof fn law_the_stalest_are_listed(records: Seq<StaleRecord>, limit: nat, r: Seq<usize>)
    requires
        is_stale_list(records, limit, r),
        records.len() <= usize::MAX,
    ensures
        r.len() <= limit,
        forall|i: int|
            0 <= i < r.len() ==> !(records[#[trigger] r[i] as int].tier is Fresh) && !(
            records[r[i] as int].tier is Aging),
        forall|i: int, j: int|
            0 <= i < j < r.len() ==> #[trigger] r[i] != #[trigger] r[j]
                && records[r[i] as int].staleness.bits >= records[r[j] as int].staleness.bits,
        forall|x: int, i: int|
            0 <= x < records.len() && !((#[trigger] records[x]).tier is Fresh) && !(
            records[x].tier is Aging) && !r.contains(x as usize) && 0 <= i < r.len()
                ==> records[#[trigger] r[i] as int].staleness.bits >= records[x].staleness.bits,
        forall|x: int|
            0 <= x < records.len() && !((#[trigger] records[x]).tier is Fresh) && !(
            records[x].tier is Aging) && r.len() < limit ==> r.contains(x as usize),
{
}

/// Signals beyond the limit are counted, not told; the first ones are told.
pub proof fn law_summary_counts_the_rest(s: Seq<StalenessSignal>, max: nat)
    ensures
        s.len() <= max ==> signals_summary(s, max) == signals_summary(s, s.len()),
        s.len() > max ==> signals_summary(s.take(max as int), max).is_prefix_of(
            signals_summary(s, max),
        ) && (" +"@ + text::dec((s.len() - max) as nat) + " more"@).is_suffix_of(
            signals_summary(s, max),
        ),
        s.len() > 0 ==> signals_summary(s.take(1), 1) == record::staleness_signal_text(s[0]),
{
    if s.len() > max {
        let t = signals_summary(s, max);
        let head = signals_summary(s.take(max as int), max);
        let tail = " +"@ + text::dec((s.len() - max) as nat) + " more"@;
        assert(t.subrange(0, head.len() as int) =~= head);
        assert(t.subrange(t.len() - tail.len(), t.len() as int) =~= tail);
    }
}

/// A record is shown again; a file is parsed again, unless it is taken for deleted:
/// then it is to be looked for.
pub proof fn law_hint_fits_the_record(category: Category, tier: StalenessTier, path: Seq<char>)
    ensures
        category is File && !(tier is Tombstone) ==> hint_text(category, tier, "file:"@ + path)
            == "mati reparse "@ + path,
        category is File && tier is Tombstone ==> path.is_suffix_of(
            hint_text(category, tier, "file:"@ + path),
        ) && "file may be deleted"@.is_prefix_of(hint_text(category, tier, "file:"@ + path)),
        !(category is File) ==> hint_text(category, tier, path) == "mati show "@ + path,
{
    record::law_short_keys_drop_the_namespace("file:"@, path);
    let h = hint_text(Category::File, StalenessTier::Tombstone, "file:"@ + path);
    let p = "file may be deleted"@;
    reveal_strlit("file may be deleted");
    reveal_strlit("file may be deleted \u{2014} verify: ");
    assert(h.subrange(0, p.len() as int) =~= p);
    assert(h.subrange(h.len() - path.len(), h.len() as int) =~= path);
}

/// The age is the number of whole days since the last change.
pub proof fn law_age_is_in_whole_days(updated_at: u64, now: u64)
    ensures
        0 < updated_at <= now ==> age_days(updated_at, now) * 86400 <= now - updated_at < (age_days(
            updated_at,
            now,
        ) + 1) * 86400,
        updated_at == 0 || updated_at > now ==> age_days(updated_at, now) == 0,
{
}

/// The counts of the tiers add up to the records that are stale.
pub proof fn law_tiers_are_counted(records: Seq<StaleRecord>, tier: StalenessTier, r: StaleRecord)
    ensures
        count_tier(records.push(r), tier, records.len() as int + 1) == count_tier(
            records,
            tier,
            records.len() as int,
        ) + (if r.tier == tier {
            1nat
        } else {
            0nat
        }),
        count_tier(records, tier, records.len() as int) <= records.len(),
        count_tier(records, tier, records.len() as int) == 0 <==> forall|i: int|
            0 <= i < records.len() ==> (#[trigger] records[i]).tier != tier,
{
    lemma_count_zero(records, tier, records.len() as int);
    lemma_count_same(records, records.push(r), tier, records.len() as int);
}

proof fn lemma_count_zero(records: Seq<StaleRecord>, tier: StalenessTier, n: int)
    requires
        0 <= n <= records.len(),
    ensures
        count_tier(records, tier, n) <= n,
        count_tier(records, tier, n) == 0 <==> forall|i: int|
            0 <= i < n ==> (#[trigger] records[i]).tier != tier,
    decreases n,
{
    if n > 0 {
        lemma_count_zero(records, tier, n - 1);
    }
}

proof fn lemma_count_same(a: Seq<StaleRecord>, b: Seq<StaleRecord>, tier: StalenessTier, n: int)
    requires
        0 <= n <= a.len() <= b.len(),
        forall|i: int| 0 <= i < n ==> a[i] == #[trigger] b[i],
    ensures
        count_tier(a, tier, n) == count_tier(b, tier, n),
    decreases n,
{
    if n > 0 {
        lemma_count_same(a, b, tier, n - 1);
        assert(a[n - 1] == b[n - 1]);
    }
}

/// The suggestions are hints on the listed records, at most five and none twice;
/// a record goes without one only where there are five already.
pub proof fn law_suggestions_are_few_and_apart(records: Seq<StaleRecord>, n: int)
    requires
        0 <= n <= records.len(),
    ensures
        hints(records, n).len() <= 5,
        hints(records, n).no_duplicates(),
        forall|k: int|
            0 <= k < hints(records, n).len() ==> exists|i: int|
                0 <= i < n && #[trigger] hint_text(
                    records[i].category,
                    records[i].tier,
                    records[i].key@,
                ) == #[trigger] hints(records, n)[k],
        hints(records, n).len() < 5 ==> forall|i: int|
            0 <= i < n ==> hints(records, n).contains(
                hint_text(
                    (#[trigger] records[i]).category,
                    records[i].tier,
                    records[i].key@,
                ),
            ),
    decreases n,
{
    if n > 0 {
        law_suggestions_are_few_and_apart(records, n - 1);
        let p = hints(records, n - 1);
        let all = hints(records, n);
        let r = records[n - 1];
        let h = hint_text(r.category, r.tier, r.key@);
        if !(p.len() >= 5 || p.contains(h)) {
            assert(all == p.push(h));
            assert(all[p.len() as int] == h);
            assert forall|k: int| 0 <= k < all.len() implies exists|i: int|
                0 <= i < n && #[trigger] hint_text(
                    records[i].category,
                    records[i].tier,
                    records[i].key@,
                ) == #[trigger] all[k] by {
                if k < p.len() {
                    assert(all[k] == p[k]);
                } else {
                    assert(hint_text(
                        records[n - 1].category,
                        records[n - 1].tier,
                        records[n - 1].key@,
                    ) == all[k]);
                }
            }
        }
        assert forall|i: int| 0 <= i < n && all.len() < 5 implies all.contains(
            hint_text((#[trigger] records[i]).category, records[i].tier, records[i].key@),
        ) by {
            let g = hint_text(records[i].category, records[i].tier, records[i].key@);
            if i < n - 1 {
                assert(p.contains(g));
                let j = choose|j: int| 0 <= j < p.len() && p[j] == g;
                assert(all[j] == g);
            }
        }
    }
}

/// The report counts the records and brings every suggestion; details follow where
/// they were asked for, and only there.
pub proof fn law_report_brings_the_suggestions(
    records: Seq<StaleRecord>,
    now: u64,
    verbose: bool,
    k: int,
)
    requires
        records.len() > 0,
        0 <= k < hints(records, records.len() as int).len(),
    ensures
        ({
            let lines = report_lines(records, now, verbose, false);
            let h = hints(records, records.len() as int);
            &&& ("  "@ + text::dec(records.len()) + " stale records"@).is_prefix_of(lines[1])
            &&& lines[4 + k] == "    "@ + h[k]
            &&& lines.len() > 5 + h.len() <==> verbose
        }),
        report_lines(Seq::empty(), now, verbose, false) == seq!["No stale records."@],
{
    let lines = report_lines(records, now, verbose, false);
    let h = hints(records, records.len() as int);
    let head = count_lines(records, false);
    let acts = action_lines(h, false);
    let c = "  "@ + text::dec(records.len()) + " stale records"@;
    colors::law_painting_keeps_the_text(colors::BOLD@, c);
    colors::law_painting_keeps_the_text(colors::RESET@, c);
    assert(lines[1] == head[1]);
    assert(head[1].subrange(0, c.len() as int) =~= c);
    assert(acts[1 + k] == text::prefixed("    "@, h)[k]);
    assert(lines[4 + k] == acts[1 + k]);
    assert(acts.len() == h.len() + 2);
}

/// A row tells the key, the score, the tier, the age and what the tier brings about.
pub proof fn law_row_tells_the_record(r: StaleRecord, now: u64)
    ensures
        ({
            let c = row_cells(r, now);
            &&& c.len() == 6
            &&& c[0] == record::truncated(r.key@, 40)
            &&& c[1] == r.staleness.shown@
            &&& c[2].is_prefix_of(record::staleness_text(r.tier))
            &&& c[3] == text::dec(age_days(r.updated_at, now)) + "d"@
            &&& r.signals@.len() <= 2 ==> c[4] == signals_summary(r.signals@, r.signals@.len())
            &&& r.tier is Liability || r.tier is Tombstone ==> c[5].is_suffix_of(
                record::staleness_text(r.tier),
            )
        }),
{
    record::law_tiers_keep_their_names(r.tier, r.tier);
}

/// The breakdown tells each tier that occurs, with its number, and none that does not.
pub proof fn law_breakdown_tells_the_tiers(records: Seq<StaleRecord>)
    ensures
        ({
            let n = records.len() as int;
            let t = count_tier(records, StalenessTier::Tombstone, n);
            let l = count_tier(records, StalenessTier::Liability, n);
            let s = count_tier(records, StalenessTier::Stale, n);
            let parts = breakdown_parts(records, false);
            &&& t > 0 ==> parts.contains(text::dec(t) + " tombstone"@)
            &&& l > 0 ==> parts.contains(text::dec(l) + " liability"@)
            &&& s > 0 ==> parts.contains(text::dec(s) + " stale"@)
            &&& parts.len() == (if t > 0 {
                1int
            } else {
                0
            }) + (if l > 0 {
                1int
            } else {
                0
            }) + (if s > 0 {
                1int
            } else {
                0
            })
            &&& t + l + s == 0 <==> breakdown(records, false).len() == 0
            &&& t + l + s > 0 ==> breakdown(records, false) == " ("@ + text::joined(parts, ", "@)
                + ")"@
        }),
{
    let n = records.len() as int;
    let t = count_tier(records, StalenessTier::Tombstone, n);
    let l = count_tier(records, StalenessTier::Liability, n);
    let s = count_tier(records, StalenessTier::Stale, n);
    let parts = breakdown_parts(records, false);
    let none = Seq::<char>::empty();
    assert forall|c: Seq<char>| #[trigger] colors::shade(false, c) == none by {
        colors::law_painting_keeps_the_text(c, c);
        assert(colors::shade(false, c) =~= none);
    }
    let a = part(false, t, colors::RED@, " tombstone"@);
    let b = part(false, l, colors::RED@, " liability"@);
    let c = part(false, s, colors::YELLOW@, " stale"@);
    assert(parts == a + b + c);
    if t > 0 {
        assert(a[0] =~= text::dec(t) + " tombstone"@);
        assert(parts[0] == a[0]);
    }
    if l > 0 {
        assert(b[0] =~= text::dec(l) + " liability"@);
        assert(parts[a.len() as int] == b[0]);
    }
    if s > 0 {
        assert(c[0] =~= text::dec(s) + " stale"@);
        assert(parts[(a.len() + b.len()) as int] == c[0]);
    }
    reveal_strlit(" (");
}

} // verus!
