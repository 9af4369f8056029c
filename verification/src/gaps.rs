//! `mati gaps`: what the code base lacks knowledge of, by risk.
use vstd::prelude::*;
use crate::colors;
use crate::record::Score;
use crate::text;

verus! {

/// Arguments of `mati gaps`. `min_risk` is the bit pattern of a risk that is not
/// negative, in single precision.
#[derive(Debug, PartialEq, Eq)]
pub struct GapsArgs {
    pub min_risk: u32,
    pub limit: usize,
}

/// A gap in the knowledge.
#[derive(Debug, PartialEq, Eq)]
pub struct Gap {
    pub key: String,
    pub risk: Score,
    pub description: String,
    pub action_hint: String,
}

/// Whether a stored list can be used: nothing was written since it was made.
pub fn cache_is_current(cached_seq: u64, current_seq: u64) -> (r: bool)
    ensures
        r == (cached_seq == current_seq),
{
    cached_seq == current_seq
}

/// The positions, below `n`, of the gaps with at least a risk, up to a limit.
pub open spec fn risky(v: Seq<Gap>, min: u32, limit: nat, n: int) -> Seq<int>
    decreases n,
{
    if n <= 0 {
        Seq::empty()
    } else {
        let before = risky(v, min, limit, n - 1);
        if v[n - 1].risk.bits >= min && before.len() < limit {
            before.push(n - 1)
        } else {
            before
        }
    }
}

/// The gaps that are shown, in their order.
pub fn select_gaps(v: &Vec<Gap>, args: &GapsArgs) -> (r: Vec<usize>)
    ensures
        r@.map_values(|i: usize| i as int) == risky(
            v@,
            args.min_risk,
            args.limit as nat,
            v@.len() as int,
        ),
{
    let mut out: Vec<usize> = Vec::new();
    let mut i: usize = 0;
    assert(out@.map_values(|i: usize| i as int) =~= Seq::<int>::empty());
    while i < v.len()
        invariant
            i <= v.len(),
            out@.map_values(|i: usize| i as int) == risky(
                v@,
                args.min_risk,
                args.limit as nat,
                i as int,
            ),
        decreases v.len() - i,
    {
        let ghost before = out@;
        assert(before.map_values(|i: usize| i as int).len() == before.len());
        if v[i].risk.bits >= args.min_risk && out.len() < args.limit {
            out.push(i);
            assert(out@.map_values(|i: usize| i as int) =~= before.map_values(
                |i: usize| i as int,
            ).push(i as int));
        }
        i = i + 1;
    }
    out
}

// ---------------------------------------------------------------------------
// Fan-in
// ---------------------------------------------------------------------------

/// How many files import a file.
#[derive(Debug, PartialEq, Eq)]
pub struct FanIn {
    pub key: String,
    pub count: usize,
}

/// How often `key` occurs among the first `n` keys.
pub open spec fn occurrences(keys: Seq<Seq<char>>, key: Seq<char>, n: int) -> nat
    decreases n,
{
    if n <= 0 {
        0
    } else {
        occurrences(keys, key, n - 1) + (if keys[n - 1] == key {
            1nat
        } else {
            0
        })
    }
}

/// `r` counts the first `n` keys: one entry for each of them, with the number of
/// its occurrences.
pub open spec fn counts_of(r: Seq<FanIn>, keys: Seq<Seq<char>>, n: int) -> bool {
    &&& forall|i: int|
        0 <= i < r.len() ==> (#[trigger] r[i]).count == occurrences(keys, r[i].key@, n)
            && r[i].count > 0
    &&& forall|i: int, j: int|
        0 <= i < j < r.len() ==> (#[trigger] r[i]).key@ != (#[trigger] r[j]).key@
    &&& forall|k: int|
        0 <= k < n ==> exists|i: int| 0 <= i < r.len() && (#[trigger] r[i]).key@ == #[trigger] keys[k]
}

fn find_entry(r: &Vec<FanIn>, key: &str) -> (at: Option<usize>)
    ensures
        match at {
            Some(i) => i < r.len() && r@[i as int].key@ == key@,
            None => forall|i: int| 0 <= i < r@.len() ==> (#[trigger] r@[i]).key@ != key@,
        },
{
    let mut i: usize = 0;
    while i < r.len()
        invariant
            i <= r.len(),
            forall|k: int| 0 <= k < i ==> (#[trigger] r@[k]).key@ != key@,
        decreases r.len() - i,
    {
        if text::same(r[i].key.as_str(), key) {
            return Some(i);
        }
        i = i + 1;
    }
    None
}

proof fn lemma_no_occurrence(keys: Seq<Seq<char>>, key: Seq<char>, n: int)
    requires
        forall|k: int| 0 <= k < n ==> #[trigger] keys[k] != key,
    ensures
        occurrences(keys, key, n) == 0,
    decreases n,
{
    if n > 0 {
        lemma_no_occurrence(keys, key, n - 1);
    }
}

proof fn lemma_occurrences_bounded(keys: Seq<Seq<char>>, key: Seq<char>, n: int)
    requires
        0 <= n,
    ensures
        occurrences(keys, key, n) <= n,
    decreases n,
{
    if n > 0 {
        lemma_occurrences_bounded(keys, key, n - 1);
    }
}

/// Counts how many files import each file; `imported` holds a key for each import.
#[verifier::rlimit(30)]
pub fn compute_fan_in(imported: &Vec<String>) -> (r: Vec<FanIn>)
    ensures
        counts_of(r@, text::texts(imported@), imported@.len() as int),
{
    let ghost keys = text::texts(imported@);
    let mut out: Vec<FanIn> = Vec::new();
    let mut n: usize = 0;
    while n < imported.len()
        invariant
            n <= imported.len(),
            keys == text::texts(imported@),
            counts_of(out@, keys, n as int),
        decreases imported.len() - n,
    {
        let ghost before = out@;
        let key = imported[n].as_str();
        assert(keys[n as int] == key@);
        match find_entry(&out, key) {
            Some(i) => {
                let count: usize = out[i].count;
                proof {
                    lemma_occurrences_bounded(keys, key@, n as int);
                }
                let name = out[i].key.clone();
                out.set(i, FanIn { key: name, count: count + 1 });
                proof {
                    assert forall|k: int| 0 <= k < n + 1 implies exists|j: int|
                        0 <= j < out@.len() && (#[trigger] out@[j]).key@ == #[trigger] keys[k] by {
                        if k < n {
                            let j = choose|j: int|
                                0 <= j < before.len() && (#[trigger] before[j]).key@ == keys[k];
                            assert(out@[j].key@ == keys[k]);
                        } else {
                            assert(out@[i as int].key@ == keys[k]);
                        }
                    }
                    assert forall|j: int| 0 <= j < out@.len() implies (#[trigger] out@[j]).count
                        == occurrences(keys, out@[j].key@, n + 1) && out@[j].count > 0 by {
                        assert(before[j].count == occurrences(keys, before[j].key@, n as int));
                        if j != i {
                            if j < i {
                                assert(before[j].key@ != before[i as int].key@);
                            } else {
                                assert(before[i as int].key@ != before[j].key@);
                            }
                        }
                    }
                    assert forall|a: int, b: int| 0 <= a < b < out@.len() implies (
                    #[trigger] out@[a]).key@ != (#[trigger] out@[b]).key@ by {
                        assert(before[a].key@ != before[b].key@);
                    }
                }
            },
            None => {
                out.push(FanIn { key: imported[n].clone(), count: 1 });
                proof {
                    assert forall|k: int| 0 <= k < n implies #[trigger] keys[k] != key@ by {
                        let j = choose|j: int|
                            0 <= j < before.len() && (#[trigger] before[j]).key@ == keys[k];
                        assert(before[j].key@ != key@);
                    }
                    lemma_no_occurrence(keys, key@, n as int);
                    assert forall|k: int| 0 <= k < n + 1 implies exists|j: int|
                        0 <= j < out@.len() && (#[trigger] out@[j]).key@ == #[trigger] keys[k] by {
                        if k < n {
                            let j = choose|j: int|
                                0 <= j < before.len() && (#[trigger] before[j]).key@ == keys[k];
                            assert(out@[j].key@ == keys[k]);
                        } else {
                            assert(out@[before.len() as int].key@ == keys[k]);
                        }
                    }
                    assert forall|j: int| 0 <= j < out@.len() implies (#[trigger] out@[j]).count
                        == occurrences(keys, out@[j].key@, n + 1) && out@[j].count > 0 by {
                        if j < before.len() {
                            assert(before[j].count == occurrences(keys, before[j].key@, n as int));
                            assert(before[j].key@ != key@);
                        }
                    }
                    assert forall|a: int, b: int| 0 <= a < b < out@.len() implies (
                    #[trigger] out@[a]).key@ != (#[trigger] out@[b]).key@ by {
                        if b < before.len() {
                            assert(before[a].key@ != before[b].key@);
                        } else {
                            assert(before[a].key@ != key@);
                        }
                    }
                }
            },
        }
        n = n + 1;
    }
    out
}

// ---------------------------------------------------------------------------
// The report
// ---------------------------------------------------------------------------

/// The bit patterns of 0.7, 0.4 and 0.2.
pub const RISK_CRITICAL: u32 = 0x3F33_3333;

pub const RISK_HIGH: u32 = 0x3ECC_CCCD;

pub const RISK_NORMAL: u32 = 0x3E4C_CCCD;

pub open spec fn risk_word(bits: u32) -> Seq<char> {
    if bits >= RISK_CRITICAL {
        "CRITICAL"@
    } else if bits >= RISK_HIGH {
        "HIGH"@
    } else if bits >= RISK_NORMAL {
        "NORMAL"@
    } else {
        "LOW"@
    }
}

pub open spec fn risk_shade(bits: u32) -> Seq<char> {
    if bits >= RISK_CRITICAL {
        colors::RED@
    } else if bits >= RISK_HIGH {
        colors::YELLOW@
    } else if bits >= RISK_NORMAL {
        colors::BLUE@
    } else {
        colors::GRAY@
    }
}

/// The first colon of a key.
pub open spec fn first_colon(key: Seq<char>, from: int) -> int
    decreases key.len() - from,
{
    if from >= key.len() || key[from] == ':' {
        from
    } else {
        first_colon(key, from + 1)
    }
}

/// A key without its namespace.
pub open spec fn bare_key(key: Seq<char>) -> Seq<char> {
    let p = first_colon(key, 0);
    if p < key.len() {
        key.skip(p + 1)
    } else {
        key
    }
}

pub fn without_namespace(key: &str) -> (r: String)
    ensures
        r@ == bare_key(key@),
{
    let v = text::chars(key);
    let mut i: usize = 0;
    while i < v.len() && v[i] != ':'
        invariant
            i <= v.len(),
            v@ == key@,
            first_colon(key@, 0) == first_colon(key@, i as int),
        decreases v.len() - i,
    {
        i = i + 1;
    }
    if i < v.len() {
        assert(key@.subrange(i + 1, key@.len() as int) =~= key@.skip(i + 1));
        text::string_of(&v, i + 1, v.len())
    } else {
        key.to_owned()
    }
}

/// The lines on a gap.
pub open spec fn gap_text(g: Gap, on: bool) -> Seq<Seq<char>> {
    let bold = colors::shade(on, colors::BOLD@);
    let reset = colors::shade(on, colors::RESET@);
    let gray = colors::shade(on, colors::GRAY@);
    seq![
        colors::shade(on, risk_shade(g.risk.bits)) + bold + "\u{25cf} "@ + text::padded_right(
            risk_word(g.risk.bits),
            9,
        ) + reset + " "@ + bold + bare_key(g.key@) + reset,
        "            "@ + gray + g.description@ + reset,
        "            "@ + gray + "\u{2192} Action:"@ + reset + " "@ + g.action_hint@,
        ""@,
    ]
}

pub open spec fn gap_texts(v: Seq<Gap>, on: bool, n: int) -> Seq<Seq<char>>
    decreases n,
{
    if n <= 0 {
        Seq::empty()
    } else {
        gap_texts(v, on, n - 1) + gap_text(v[n - 1], on)
    }
}

/// What is printed of the gaps; `age` is that of the stored list, where one was
/// used.
pub open spec fn gaps_text(v: Seq<Gap>, age: Option<u64>, on: bool) -> Seq<Seq<char>> {
    let bold = colors::shade(on, colors::BOLD@);
    let reset = colors::shade(on, colors::RESET@);
    if v.len() == 0 {
        seq!["No knowledge gaps found."@]
    } else {
        seq![
            ""@,
            bold + "KNOWLEDGE GAPS"@ + reset + " -- "@ + bold + text::dec(v.len()) + reset
                + " found                 sorted by risk score"@ + (match age {
                Some(n) => "  (cached "@ + text::dec(n as nat) + "s ago)"@,
                None => ""@,
            }),
            ""@,
        ] + gap_texts(v, on, v.len() as int)
    }
}

fn push_gap(out: &mut Vec<String>, g: &Gap, on: bool)
    ensures
        text::texts(final(out)@) == text::texts(old(out)@) + gap_text(*g, on),
{
    let bold = colors::tint(on, colors::BOLD);
    let reset = colors::tint(on, colors::RESET);
    let gray = colors::tint(on, colors::GRAY);
    let (word, shade) = if g.risk.bits >= RISK_CRITICAL {
        ("CRITICAL", colors::RED)
    } else if g.risk.bits >= RISK_HIGH {
        ("HIGH", colors::YELLOW)
    } else if g.risk.bits >= RISK_NORMAL {
        ("NORMAL", colors::BLUE)
    } else {
        ("LOW", colors::GRAY)
    };
    text::push_line(
        out,
        colors::tint(on, shade).to_owned().concat(bold).concat("\u{25cf} ").concat(
            text::pad_right(word, 9).as_str(),
        ).concat(reset).concat(" ").concat(bold).concat(
            without_namespace(g.key.as_str()).as_str(),
        ).concat(reset),
    );
    text::push_line(
        out,
        "            ".to_owned().concat(gray).concat(g.description.as_str()).concat(reset),
    );
    text::push_line(
        out,
        "            ".to_owned().concat(gray).concat("\u{2192} Action:").concat(reset).concat(
            " ",
        ).concat(g.action_hint.as_str()),
    );
    text::push_line(out, "".to_owned());
    assert(text::texts(out@) =~= text::texts(old(out)@) + gap_text(*g, on));
}

/// The lines on the gaps.
pub fn display_gaps(v: &Vec<Gap>, cache_age: Option<u64>, use_color: bool) -> (r: Vec<String>)
    ensures
        text::texts(r@) == gaps_text(v@, cache_age, use_color),
{
    let mut out: Vec<String> = Vec::new();
    if v.is_empty() {
        text::push_line(&mut out, "No knowledge gaps found.".to_owned());
        assert(text::texts(out@) =~= gaps_text(v@, cache_age, use_color));
        return out;
    }
    let bold = colors::tint(use_color, colors::BOLD);
    let reset = colors::tint(use_color, colors::RESET);
    let suffix = match cache_age {
        Some(n) => "  (cached ".to_owned().concat(text::decimal(n).as_str()).concat("s ago)"),
        None => "".to_owned(),
    };
    text::push_line(&mut out, "".to_owned());
    text::push_line(
        &mut out,
        bold.to_owned().concat("KNOWLEDGE GAPS").concat(reset).concat(" -- ").concat(bold).concat(
            text::decimal(v.len() as u64).as_str(),
        ).concat(reset).concat(" found                 sorted by risk score").concat(
            suffix.as_str(),
        ),
    );
    text::push_line(&mut out, "".to_owned());
    let ghost head = text::texts(out@);
    let mut i: usize = 0;
    assert(head + gap_texts(v@, use_color, 0) =~= head);
    while i < v.len()
        invariant
            i <= v.len(),
            text::texts(out@) == head + gap_texts(v@, use_color, i as int),
        decreases v.len() - i,
    {
        push_gap(&mut out, &v[i], use_color);
        proof {
            text::lemma_append_two(
                head,
                gap_texts(v@, use_color, i as int),
                gap_text(v@[i as int], use_color),
                Seq::empty(),
            );
        }
        i = i + 1;
    }
    assert(text::texts(out@) =~= gaps_text(v@, cache_age, use_color));
    out
}

// ---------------------------------------------------------------------------
// What the list is for
// ---------------------------------------------------------------------------

/// The gaps that are listed are risky enough and keep their order; one that is risky
/// enough is left out only where the list was full before it.
pub proof fn law_risky_gaps_are_listed(v: Seq<Gap>, min: u32, limit: nat, n: int)
    requires
        0 <= n <= v.len(),
    ensures
        risky(v, min, limit, n).len() <= limit,
        forall|i: int|
            0 <= i < risky(v, min, limit, n).len() ==> 0 <= #[trigger] risky(v, min, limit, n)[i]
                < n && v[risky(v, min, limit, n)[i]].risk.bits >= min,
        forall|a: int, b: int|
            0 <= a < b < risky(v, min, limit, n).len() ==> #[trigger] risky(v, min, limit, n)[a]
                < #[trigger] risky(v, min, limit, n)[b],
        forall|x: int|
            0 <= x < n && (#[trigger] v[x]).risk.bits >= min ==> risky(v, min, limit, n).contains(x)
                || (risky(v, min, limit, n).len() == limit && forall|i: int|
                0 <= i < risky(v, min, limit, n).len() ==> #[trigger] risky(v, min, limit, n)[i]
                    < x),
    decreases n,
{
    if n > 0 {
        law_risky_gaps_are_listed(v, min, limit, n - 1);
        let p = risky(v, min, limit, n - 1);
        let all = risky(v, min, limit, n);
        assert forall|x: int| 0 <= x < n && (#[trigger] v[x]).risk.bits >= min implies all.contains(
            x,
        ) || (all.len() == limit && forall|i: int|
            0 <= i < all.len() ==> #[trigger] all[i] < x) by {
            if x < n - 1 {
                if p.contains(x) {
                    let j = choose|j: int| 0 <= j < p.len() && p[j] == x;
                    assert(all[j] == x);
                }
            } else if p.len() < limit {
                assert(all[p.len() as int] == x);
            }
        }
    }
}

/// The keys that are the one given.
pub open spec fn same_as(key: Seq<char>) -> spec_fn(Seq<char>) -> bool {
    |k: Seq<char>| k == key
}

/// A file is counted as often as it is imported, each file once.
pub proof fn law_imports_are_counted(keys: Seq<Seq<char>>, key: Seq<char>, next: Seq<char>)
    ensures
        occurrences(keys, key, keys.len() as int) == keys.filter(same_as(key)).len(),
        occurrences(keys.push(next), key, keys.len() as int + 1) == occurrences(
            keys,
            key,
            keys.len() as int,
        ) + (if next == key {
            1nat
        } else {
            0nat
        }),
{
    lemma_count_is_filter(keys, key, keys.len() as int);
    assert(keys.take(keys.len() as int) =~= keys);
    lemma_count_same(keys, keys.push(next), key, keys.len() as int);
}

proof fn lemma_count_same(a: Seq<Seq<char>>, b: Seq<Seq<char>>, key: Seq<char>, n: int)
    requires
        0 <= n <= a.len() <= b.len(),
        forall|i: int| 0 <= i < n ==> a[i] == #[trigger] b[i],
    ensures
        occurrences(a, key, n) == occurrences(b, key, n),
    decreases n,
{
    if n > 0 {
        lemma_count_same(a, b, key, n - 1);
        assert(a[n - 1] == b[n - 1]);
    }
}

proof fn lemma_count_is_filter(keys: Seq<Seq<char>>, key: Seq<char>, n: int)
    requires
        0 <= n <= keys.len(),
    ensures
        occurrences(keys, key, n) == keys.take(n).filter(same_as(key)).len(),
    decreases n,
{
    reveal(Seq::filter);
    if n > 0 {
        lemma_count_is_filter(keys, key, n - 1);
        assert(keys.take(n).drop_last() =~= keys.take(n - 1));
        assert(keys.take(n).last() == keys[n - 1]);
    } else {
        assert(keys.take(0).len() == 0);
    }
}

/// A risk of at least 0.7 is critical, one of at least 0.4 high, one of at least 0.2
/// normal, and a smaller one low.
pub proof fn law_risk_is_told_by_its_height(bits: u32)
    ensures
        risk_word(bits) == "CRITICAL"@ <==> bits >= RISK_CRITICAL,
        risk_word(bits) == "HIGH"@ <==> RISK_HIGH <= bits < RISK_CRITICAL,
        risk_word(bits) == "NORMAL"@ <==> RISK_NORMAL <= bits < RISK_HIGH,
        risk_word(bits) == "LOW"@ <==> bits < RISK_NORMAL,
        bits >= RISK_CRITICAL ==> risk_shade(bits) == colors::RED@,
        RISK_HIGH <= bits < RISK_CRITICAL ==> risk_shade(bits) == colors::YELLOW@,
        RISK_NORMAL < RISK_HIGH < RISK_CRITICAL,
{
    reveal_strlit("CRITICAL");
    reveal_strlit("HIGH");
    reveal_strlit("NORMAL");
    reveal_strlit("LOW");
    assert("CRITICAL"@.len() == 8 && "HIGH"@.len() == 4 && "NORMAL"@.len() == 6 && "LOW"@.len()
        == 3);
}

proof fn lemma_first_colon(space: Seq<char>, rest: Seq<char>, from: int)
    requires
        0 <= from <= space.len(),
        !space.contains(':'),
    ensures
        first_colon(space + seq![':'] + rest, from) == space.len(),
        first_colon(space, from) == space.len(),
    decreases space.len() - from,
{
    let k = space + seq![':'] + rest;
    if from < space.len() {
        assert(k[from] == space[from]);
        assert(space.contains(space[from]));
        lemma_first_colon(space, rest, from + 1);
    } else {
        assert(k[from] == ':');
    }
}

/// A key is shown without its namespace, whatever that is; what follows is kept whole.
pub proof fn law_namespace_is_dropped(space: Seq<char>, rest: Seq<char>)
    requires
        !space.contains(':'),
    ensures
        bare_key(space + seq![':'] + rest) == rest,
        bare_key(space) == space,
{
    lemma_first_colon(space, rest, 0);
    let k = space + seq![':'] + rest;
    assert(k.skip(space.len() as int + 1) =~= rest);
}

/// Every gap is shown with its key, what is missing and what to do; the list counts
/// them.
pub proof fn law_every_gap_is_shown(v: Seq<Gap>, age: Option<u64>, i: int)
    requires
        0 <= i < v.len(),
    ensures
        ({
            let l = gaps_text(v, age, false);
            &&& l.len() == 3 + 4 * v.len()
            &&& ("KNOWLEDGE GAPS -- "@ + text::dec(v.len()) + " found"@).is_prefix_of(l[1])
            &&& bare_key(v[i].key@).is_suffix_of(l[3 + 4 * i])
            &&& ("\u{25cf} "@ + risk_word(v[i].risk.bits)).is_prefix_of(l[3 + 4 * i])
            &&& l[4 + 4 * i] == "            "@ + v[i].description@
            &&& v[i].action_hint@.is_suffix_of(l[5 + 4 * i])
        }),
        gaps_text(Seq::empty(), age, false) == seq!["No knowledge gaps found."@],
{
    let none = Seq::<char>::empty();
    assert forall|c: Seq<char>| #[trigger] colors::shade(false, c) == none by {
        colors::law_painting_keeps_the_text(c, c);
        assert(colors::shade(false, c) =~= none);
    }
    let l = gaps_text(v, age, false);
    let n = v.len() as int;
    let body = gap_texts(v, false, n);
    lemma_gap_at(v, n, i);
    assert(l[3 + 4 * i] == body[4 * i]);
    assert(l[4 + 4 * i] == body[4 * i + 1]);
    assert(l[5 + 4 * i] == body[4 * i + 2]);
    let g = gap_text(v[i], false);
    let k = bare_key(v[i].key@);
    assert(g[0].subrange(g[0].len() - k.len(), g[0].len() as int) =~= k);
    let w = "\u{25cf} "@ + risk_word(v[i].risk.bits);
    assert(g[0].subrange(0, w.len() as int) =~= w);
    assert(g[1] =~= "            "@ + v[i].description@);
    let a = v[i].action_hint@;
    assert(g[2].subrange(g[2].len() - a.len(), g[2].len() as int) =~= a);
    reveal_strlit("KNOWLEDGE GAPS");
    reveal_strlit(" -- ");
    reveal_strlit("KNOWLEDGE GAPS -- ");
    reveal_strlit(" found");
    reveal_strlit(" found                 sorted by risk score");
    let h = "KNOWLEDGE GAPS -- "@ + text::dec(v.len()) + " found"@;
    assert(l[1].subrange(0, h.len() as int) =~= h);
}

proof fn lemma_gap_at(v: Seq<Gap>, n: int, i: int)
    requires
        0 <= i < n <= v.len(),
    ensures
        gap_texts(v, false, n).len() == 4 * n,
        gap_texts(v, false, n)[4 * i] == gap_text(v[i], false)[0],
        gap_texts(v, false, n)[4 * i + 1] == gap_text(v[i], false)[1],
        gap_texts(v, false, n)[4 * i + 2] == gap_text(v[i], false)[2],
    decreases n,
{
    if n > 1 {
        let j = if i < n - 1 {
            i
        } else {
            0
        };
        lemma_gap_at(v, n - 1, j);
    } else {
        assert(gap_texts(v, false, 0).len() == 0);
    }
}

/// Every imported file has one entry, with the number of its imports; no other file
/// has one.
pub proof fn law_fan_in_is_the_number_of_imports(r: Seq<FanIn>, keys: Seq<Seq<char>>, k: int)
    requires
        counts_of(r, keys, keys.len() as int),
        0 <= k < keys.len(),
    ensures
        exists|i: int|
            0 <= i < r.len() && (#[trigger] r[i]).key@ == keys[k] && r[i].count == keys.filter(
                same_as(keys[k]),
            ).len(),
        forall|i: int|
            0 <= i < r.len() ==> (#[trigger] r[i]).count == keys.filter(
                same_as(r[i].key@),
            ).len() && r[i].count > 0,
        forall|i: int, j: int|
            0 <= i < j < r.len() ==> (#[trigger] r[i]).key@ != (#[trigger] r[j]).key@,
{
    assert(keys.take(keys.len() as int) =~= keys);
    assert forall|i: int| 0 <= i < r.len() implies (#[trigger] r[i]).count == keys.filter(
        same_as(r[i].key@),
    ).len() && r[i].count > 0 by {
        lemma_count_is_filter(keys, r[i].key@, keys.len() as int);
    }
    let i = choose|i: int| 0 <= i < r.len() && (#[trigger] r[i]).key@ == keys[k];
    lemma_count_is_filter(keys, keys[k], keys.len() as int);
    assert(r[i].count == keys.filter(same_as(keys[k])).len());
}

} // verus!
