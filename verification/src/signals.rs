//! Gotchas that the git history suggests: files that change together, files that
//! are reverted often, and busy files that one author dominates.
use vstd::prelude::*;
use crate::ranking;
use crate::ranking::Ranked;
use crate::record::Priority;
use crate::text;

verus! {

// ---------------------------------------------------------------------------
// What the history holds
// ---------------------------------------------------------------------------

/// How many commits touch a file.
#[derive(Debug, PartialEq, Eq)]
pub struct Frequency {
    pub path: String,
    pub count: u32,
}

/// How many commits touch both files.
#[derive(Debug, PartialEq, Eq)]
pub struct Pair {
    pub a: String,
    pub b: String,
    pub count: u32,
}

/// How many reverts touch a file, and what share of its commits that is, in
/// percent.
#[derive(Debug, PartialEq, Eq)]
pub struct RevertCount {
    pub path: String,
    pub count: u32,
    pub pct: u32,
}

#[derive(Debug, PartialEq, Eq)]
pub struct AuthorCount {
    pub author: String,
    pub count: u32,
}

/// The commits to a file by author, each author once.
#[derive(Debug, PartialEq, Eq)]
pub struct FileAuthors {
    pub path: String,
    pub authors: Vec<AuthorCount>,
}

/// What was mined from the git history.
#[derive(Debug, PartialEq, Eq)]
pub struct GitSignals {
    pub co_change_pairs: Vec<Pair>,
    pub change_frequency: Vec<Frequency>,
    pub revert_counts: Vec<RevertCount>,
    pub author_commit_counts: Vec<FileAuthors>,
    pub hotspot_files: Vec<String>,
}

/// The count of a path; the first entry counts.
pub open spec fn frequency_of(m: Seq<Frequency>, path: Seq<char>) -> Option<u32>
    decreases m.len(),
{
    if m.len() == 0 {
        None
    } else if m[0].path@ == path {
        Some(m[0].count)
    } else {
        frequency_of(m.skip(1), path)
    }
}

fn frequency(m: &Vec<Frequency>, path: &str) -> (r: Option<u32>)
    ensures
        r == frequency_of(m@, path@),
{
    let mut i: usize = 0;
    assert(m@.skip(0) =~= m@);
    while i < m.len()
        invariant
            i <= m.len(),
            frequency_of(m@, path@) == frequency_of(m@.skip(i as int), path@),
        decreases m.len() - i,
    {
        assert(m@.skip(i as int)[0] == m@[i as int]);
        assert(m@.skip(i as int).skip(1) =~= m@.skip(i + 1));
        if text::same(m[i].path.as_str(), path) {
            return Some(m[i].count);
        }
        i = i + 1;
    }
    None
}

// ---------------------------------------------------------------------------
// The suggested gotchas
// ---------------------------------------------------------------------------

/// A gotcha that the history suggests. Quality and confidence are in hundredths.
#[derive(Debug, PartialEq, Eq)]
pub struct GotchaStub {
    pub key: String,
    /// The file that it is attached to.
    pub source_path: String,
    pub rule: String,
    pub reason: String,
    pub severity: Priority,
    pub quality: u32,
    pub confidence: u32,
    pub confirmed: bool,
    pub tags: Vec<String>,
    /// When it was found.
    pub discovered: u64,
    pub logical_clock: u64,
}

#[verifier::ext_equal]
pub struct StubView {
    pub key: Seq<char>,
    pub source_path: Seq<char>,
    pub rule: Seq<char>,
    pub reason: Seq<char>,
    pub severity: Priority,
    pub quality: nat,
    pub confidence: nat,
    pub confirmed: bool,
    pub tags: Seq<Seq<char>>,
    pub discovered: nat,
    pub logical_clock: nat,
}

impl View for GotchaStub {
    type V = StubView;

    open spec fn view(&self) -> StubView {
        StubView {
            key: self.key@,
            source_path: self.source_path@,
            rule: self.rule@,
            reason: self.reason@,
            severity: self.severity,
            quality: self.quality as nat,
            confidence: self.confidence as nat,
            confirmed: self.confirmed,
            tags: text::texts(self.tags@),
            discovered: self.discovered as nat,
            logical_clock: self.logical_clock as nat,
        }
    }
}

pub open spec fn stub_views(v: Seq<GotchaStub>) -> Seq<StubView> {
    v.map_values(|g: GotchaStub| g@)
}

fn push_stub(v: &mut Vec<GotchaStub>, g: GotchaStub)
    ensures
        stub_views(final(v)@) == stub_views(old(v)@).push(g@),
{
    let ghost before = v@;
    v.push(g);
    assert(stub_views(v@) =~= stub_views(before).push(g@));
}

pub open spec fn stub_tags(kind: Seq<char>) -> Seq<Seq<char>> {
    seq![kind, "auto-generated"@]
}

fn tags(kind: &str) -> (r: Vec<String>)
    ensures
        text::texts(r@) == stub_tags(kind@),
{
    let mut v: Vec<String> = Vec::new();
    text::push_line(&mut v, kind.to_owned());
    text::push_line(&mut v, "auto-generated".to_owned());
    assert(text::texts(v@) =~= stub_tags(kind@));
    v
}

/// `part` of `whole` in percent, rounded half up; at most what fits 32 bits.
pub open spec fn percent_of(part: nat, whole: nat) -> nat
    recommends
        whole > 0,
{
    let p = (200 * part + whole) / (2 * whole);
    if p > u32::MAX {
        u32::MAX as nat
    } else {
        p
    }
}

fn percent(part: u32, whole: u32) -> (r: u64)
    requires
        whole > 0,
    ensures
        r == percent_of(part as nat, whole as nat),
{
    let p: u64 = (200 * part as u64 + whole as u64) / (2 * whole as u64);
    if p > u32::MAX as u64 {
        u32::MAX as u64
    } else {
        p
    }
}

/// The items of `c` in the order given.
pub open spec fn arranged<A>(c: Seq<A>, order: Seq<usize>) -> Seq<A> {
    order.map_values(|i: usize| c[i as int])
}

// ---------------------------------------------------------------------------
// Files that change together
// ---------------------------------------------------------------------------

/// At most this many co-change gotchas are attached to one file.
pub const MAX_PER_FILE: usize = 5;

/// A file that mostly changes together with another one.
#[derive(Debug, PartialEq, Eq)]
pub struct Candidate {
    pub source: String,
    pub target: String,
    pub count: u32,
    /// How many commits touch the source.
    pub freq: u32,
}

#[verifier::ext_equal]
pub struct CandidateView {
    pub source: Seq<char>,
    pub target: Seq<char>,
    pub count: nat,
    pub freq: nat,
}

impl View for Candidate {
    type V = CandidateView;

    open spec fn view(&self) -> CandidateView {
        CandidateView {
            source: self.source@,
            target: self.target@,
            count: self.count as nat,
            freq: self.freq as nat,
        }
    }
}

pub open spec fn candidate_views(v: Seq<Candidate>) -> Seq<CandidateView> {
    v.map_values(|c: Candidate| c@)
}

/// Whether a signal is worth a gotcha on the source: at least three commits in
/// common, and at least 70% of the source's commits.
pub open spec fn is_signal(count: nat, freq: nat) -> bool {
    count >= 3 && 10 * count >= 7 * freq
}

/// Whether a signal is strong: at least twenty commits in common, and at least
/// 90% of the source's.
pub open spec fn is_strong(count: nat, freq: nat) -> bool {
    count >= 20 && 10 * count >= 9 * freq
}

/// One direction of a pair.
pub open spec fn directed(source: Seq<char>, target: Seq<char>, count: nat, freq: nat) -> Seq<
    CandidateView,
> {
    if is_signal(count, freq) {
        seq![CandidateView { source, target, count, freq }]
    } else {
        Seq::empty()
    }
}

/// The candidates of a pair: either direction, where both files have commits.
pub open spec fn pair_candidates(p: Pair, freqs: Seq<Frequency>) -> Seq<CandidateView> {
    match (frequency_of(freqs, p.a@), frequency_of(freqs, p.b@)) {
        (Some(fa), Some(fb)) => if fa > 0 && fb > 0 {
            directed(p.a@, p.b@, p.count as nat, fa as nat) + directed(
                p.b@,
                p.a@,
                p.count as nat,
                fb as nat,
            )
        } else {
            Seq::empty()
        },
        _ => Seq::empty(),
    }
}

/// The candidates of the first `n` pairs.
pub open spec fn candidates_of(pairs: Seq<Pair>, freqs: Seq<Frequency>, n: int) -> Seq<CandidateView>
    decreases n,
{
    if n <= 0 {
        Seq::empty()
    } else {
        candidates_of(pairs, freqs, n - 1) + pair_candidates(pairs[n - 1], freqs)
    }
}

pub open spec fn all_candidates(s: GitSignals) -> Seq<CandidateView> {
    candidates_of(s.co_change_pairs@, s.change_frequency@, s.co_change_pairs@.len() as int)
}

/// By source, then by count with the largest first.
pub open spec fn candidate_le(a: CandidateView, b: CandidateView) -> bool {
    text::text_less(a.source, b.source) || (a.source == b.source && a.count >= b.count)
}

/// The candidate at `a` comes before the one at `b`.
pub open spec fn candidate_first(c: Seq<CandidateView>) -> spec_fn(int, int) -> bool {
    |a: int, b: int| candidate_le(c[a], c[b]) && (candidate_le(c[b], c[a]) ==> a < b)
}

impl Ranked for Candidate {
    open spec fn le(&self, other: &Candidate) -> bool {
        candidate_le(self@, other@)
    }

    proof fn le_total(a: &Candidate, b: &Candidate) {
        text::lemma_text_less_total(a.source@, b.source@);
    }

    proof fn le_transitive(a: &Candidate, b: &Candidate, c: &Candidate) {
        if text::text_less(a.source@, b.source@) && text::text_less(b.source@, c.source@) {
            text::lemma_text_less_transitive(a.source@, b.source@, c.source@);
        }
    }

    fn may_precede(&self, other: &Candidate) -> (r: bool) {
        text::less(self.source.as_str(), other.source.as_str()) || (text::same(
            self.source.as_str(),
            other.source.as_str(),
        ) && self.count >= other.count)
    }
}

/// How many of the candidates are on `source`.
pub open spec fn count_on(c: Seq<CandidateView>, source: Seq<char>) -> nat
    decreases c.len(),
{
    if c.len() == 0 {
        0
    } else {
        count_on(c.drop_last(), source) + (if c.last().source == source {
            1nat
        } else {
            0
        })
    }
}

/// The first five candidates of each source.
pub open spec fn capped(c: Seq<CandidateView>) -> Seq<CandidateView>
    decreases c.len(),
{
    if c.len() == 0 {
        Seq::empty()
    } else {
        let p = capped(c.drop_last());
        if count_on(p, c.last().source) < MAX_PER_FILE {
            p.push(c.last())
        } else {
            p
        }
    }
}

pub open spec fn cochange_key(source: Seq<char>, target: Seq<char>) -> Seq<char> {
    "gotcha:cochange:"@ + source + "|"@ + target
}

pub open spec fn cochange_rule(c: CandidateView) -> Seq<char> {
    "Always check `"@ + c.target
        + "` when editing this file \u{2014} changed together in "@ + text::dec(c.count) + "/"@
        + text::dec(c.freq) + " commits ("@ + text::dec(percent_of(c.count, c.freq)) + "%)."@
}

/// The gotcha of a candidate. It counts as confirmed; a strong signal has a
/// higher severity, quality and confidence.
pub open spec fn cochange_stub(c: CandidateView, clock: nat, now: nat) -> StubView {
    let strong = is_strong(c.count, c.freq);
    StubView {
        key: cochange_key(c.source, c.target),
        source_path: c.source,
        rule: cochange_rule(c),
        reason: "Co-change signal from git history \u{2014} modifying one without the other is a known source of bugs."@,
        severity: if strong {
            Priority::High
        } else {
            Priority::Normal
        },
        quality: if strong {
            60
        } else {
            40
        },
        confidence: if strong {
            65
        } else {
            45
        },
        confirmed: true,
        tags: stub_tags("co-change"@),
        discovered: now,
        logical_clock: clock,
    }
}

pub open spec fn cochange_stubs(c: Seq<CandidateView>, start: nat, now: nat) -> Seq<StubView> {
    Seq::new(c.len(), |i: int| cochange_stub(c[i], (start + i) as nat, now))
}

fn push_directed(out: &mut Vec<Candidate>, source: &str, target: &str, count: u32, freq: u32)
    ensures
        candidate_views(final(out)@) == candidate_views(old(out)@) + directed(
            source@,
            target@,
            count as nat,
            freq as nat,
        ),
{
    let ghost before = out@;
    if count >= 3 && 10 * count as u64 >= 7 * freq as u64 {
        out.push(
            Candidate { source: source.to_owned(), target: target.to_owned(), count, freq },
        );
    }
    assert(candidate_views(out@) =~= candidate_views(before) + directed(
        source@,
        target@,
        count as nat,
        freq as nat,
    ));
}

fn push_pair(out: &mut Vec<Candidate>, p: &Pair, freqs: &Vec<Frequency>)
    ensures
        candidate_views(final(out)@) == candidate_views(old(out)@) + pair_candidates(*p, freqs@),
{
    let ghost before = candidate_views(out@);
    if let Some(fa) = frequency(freqs, p.a.as_str()) {
        if let Some(fb) = frequency(freqs, p.b.as_str()) {
            if fa > 0 && fb > 0 {
                push_directed(out, p.a.as_str(), p.b.as_str(), p.count, fa);
                push_directed(out, p.b.as_str(), p.a.as_str(), p.count, fb);
                proof {
                    text::lemma_append_two(
                        before,
                        directed(p.a@, p.b@, p.count as nat, fa as nat),
                        directed(p.b@, p.a@, p.count as nat, fb as nat),
                        Seq::empty(),
                    );
                }
            } else {
                assert(before + pair_candidates(*p, freqs@) =~= before);
            }
        } else {
            assert(before + pair_candidates(*p, freqs@) =~= before);
        }
    } else {
        assert(before + pair_candidates(*p, freqs@) =~= before);
    }
}

fn candidates(signals: &GitSignals) -> (r: Vec<Candidate>)
    ensures
        candidate_views(r@) == all_candidates(*signals),
{
    let pairs = &signals.co_change_pairs;
    let mut out: Vec<Candidate> = Vec::new();
    let mut i: usize = 0;
    assert(candidate_views(out@) =~= Seq::<CandidateView>::empty());
    while i < pairs.len()
        invariant
            i <= pairs.len(),
            *pairs == signals.co_change_pairs,
            candidate_views(out@) == candidates_of(pairs@, signals.change_frequency@, i as int),
        decreases pairs.len() - i,
    {
        push_pair(&mut out, &pairs[i], &signals.change_frequency);
        i = i + 1;
    }
    out
}

fn cochange_gotcha(c: &Candidate, clock: u64, now: u64) -> (r: GotchaStub)
    requires
        c.freq > 0,
    ensures
        r@ == cochange_stub(c@, clock as nat, now as nat),
{
    let strong = c.count >= 20 && 10 * c.count as u64 >= 9 * c.freq as u64;
    let rule = "Always check `".to_owned().concat(c.target.as_str()).concat(
        "` when editing this file \u{2014} changed together in ",
    ).concat(text::decimal(c.count as u64).as_str()).concat("/").concat(
        text::decimal(c.freq as u64).as_str(),
    ).concat(" commits (").concat(text::decimal(percent(c.count, c.freq)).as_str()).concat("%).");
    GotchaStub {
        key: "gotcha:cochange:".to_owned().concat(c.source.as_str()).concat("|").concat(
            c.target.as_str(),
        ),
        source_path: c.source.clone(),
        rule,
        reason: "Co-change signal from git history \u{2014} modifying one without the other is a known source of bugs.".to_owned(),
        severity: if strong {
            Priority::High
        } else {
            Priority::Normal
        },
        quality: if strong {
            60
        } else {
            40
        },
        confidence: if strong {
            65
        } else {
            45
        },
        confirmed: true,
        tags: tags("co-change"),
        discovered: now,
        logical_clock: clock,
    }
}

/// A source that none of the candidates is on.
proof fn lemma_count_none(c: Seq<CandidateView>, source: Seq<char>)
    requires
        forall|k: int| 0 <= k < c.len() ==> (#[trigger] c[k]).source != source,
    ensures
        count_on(capped(c), source) == 0,
    decreases c.len(),
{
    if c.len() > 0 {
        let init = c.drop_last();
        assert forall|k: int| 0 <= k < init.len() implies (#[trigger] init[k]).source != source by {
            assert(init[k] == c[k]);
        }
        assert(c[c.len() - 1].source != source);
        lemma_count_none(init, source);
        let p = capped(init);
        assert(p.push(c.last()).drop_last() =~= p);
    }
}

proof fn lemma_candidates_have_commits(pairs: Seq<Pair>, freqs: Seq<Frequency>, n: int, k: int)
    requires
        0 <= k < candidates_of(pairs, freqs, n).len(),
    ensures
        ({
            let c = candidates_of(pairs, freqs, n)[k];
            c.freq > 0 && is_signal(c.count, c.freq)
        }),
    decreases n,
{
    if n > 0 {
        let before = candidates_of(pairs, freqs, n - 1);
        if k < before.len() {
            lemma_candidates_have_commits(pairs, freqs, n - 1, k);
        }
    }
}

proof fn lemma_candidates_are_few(pairs: Seq<Pair>, freqs: Seq<Frequency>, n: int)
    requires
        0 <= n <= pairs.len(),
    ensures
        candidates_of(pairs, freqs, n).len() <= 2 * n,
    decreases n,
{
    if n > 0 {
        lemma_candidates_are_few(pairs, freqs, n - 1);
    }
}

proof fn lemma_capped_is_short(c: Seq<CandidateView>)
    ensures
        capped(c).len() <= c.len(),
    decreases c.len(),
{
    if c.len() > 0 {
        lemma_capped_is_short(c.drop_last());
    }
}

/// A candidate whose source differs from that of the one before it in the order
/// is the first on its source.
proof fn lemma_new_source(c: Seq<CandidateView>, order: Seq<usize>, i: int)
    requires
        ranking::is_order(c.len(), order, candidate_first(c)),
        0 < i < order.len(),
        c[order[i] as int].source != c[order[i - 1] as int].source,
    ensures
        forall|k: int|
            0 <= k < i ==> (#[trigger] arranged(c, order).take(i)[k]).source
                != c[order[i] as int].source,
{
    let f = candidate_first(c);
    let s = arranged(c, order);
    assert forall|k: int| 0 <= k < i implies (#[trigger] s.take(i)[k]).source
        != c[order[i] as int].source by {
        let x = c[order[k] as int].source;
        let y = c[order[i - 1] as int].source;
        let z = c[order[i] as int].source;
        assert(f(order[i - 1] as int, order[i] as int));
        assert(text::text_less(y, z));
        if k < i - 1 {
            assert(f(order[k] as int, order[i - 1] as int));
            if x == z {
                assert(text::text_less(x, y) || x == y);
                if text::text_less(x, y) {
                    text::lemma_text_less_asymmetric(y, z);
                } else {
                    text::lemma_text_less_irreflexive(z);
                }
            }
        } else if x == z {
            text::lemma_text_less_irreflexive(z);
        }
    }
}

/// `r` holds the gotchas of the candidates `c`, of which `order` is the order.
pub open spec fn are_cochange_gotchas(
    c: Seq<CandidateView>,
    order: Seq<usize>,
    start: nat,
    now: nat,
    r: Seq<StubView>,
) -> bool {
    &&& ranking::is_order(c.len(), order, candidate_first(c))
    &&& r == cochange_stubs(capped(arranged(c, order)), start, now)
}

/// Derives the co-change gotchas: for each pair the directions in which it is a
/// signal, at most five on each file, those with the most commits first. Clocks
/// count up from `logical_clock_start`.
#[verifier::rlimit(40)]
pub fn build_cochange_gotchas(signals: &GitSignals, logical_clock_start: u64, now: u64) -> (r: Vec<
    GotchaStub,
>)
    requires
        logical_clock_start + 2 * signals.co_change_pairs@.len() <= u64::MAX,
    ensures
        exists|order: Seq<usize>| #[trigger]
            are_cochange_gotchas(
                all_candidates(*signals),
                order,
                logical_clock_start as nat,
                now as nat,
                stub_views(r@),
            ),
        r@.len() <= 2 * signals.co_change_pairs@.len(),
{
    let cands = candidates(signals);
    let order = ranking::rank(&cands);
    let ghost c = all_candidates(*signals);
    let ghost f = candidate_first(c);
    proof {
        assert forall|a: int, b: int|
            0 <= a < c.len() && 0 <= b < c.len() implies #[trigger] ranking::comes_first(
            cands@,
            a,
            b,
        ) == f(a, b) by {
            assert(c[a] == cands@[a]@);
            assert(c[b] == cands@[b]@);
        }
        assert(ranking::is_order(c.len(), order@, f));
    }
    proof {
        lemma_candidates_are_few(
            signals.co_change_pairs@,
            signals.change_frequency@,
            signals.co_change_pairs@.len() as int,
        );
    }
    let ghost sorted = arranged(c, order@);
    let ghost start = logical_clock_start as nat;
    let mut out: Vec<GotchaStub> = Vec::new();
    let mut seen: usize = 0;
    let mut i: usize = 0;
    assert(sorted.take(0) =~= Seq::<CandidateView>::empty());
    assert(stub_views(out@) =~= cochange_stubs(capped(sorted.take(0)), start, now as nat));
    while i < order.len()
        invariant
            i <= order.len(),
            c == all_candidates(*signals),
            c == candidate_views(cands@),
            f == candidate_first(c),
            sorted == arranged(c, order@),
            start == logical_clock_start,
            start + c.len() <= u64::MAX,
            ranking::is_order(c.len(), order@, f),
            stub_views(out@) == cochange_stubs(capped(sorted.take(i as int)), start, now as nat),
            i > 0 ==> seen == count_on(
                capped(sorted.take(i as int)),
                c[order@[i - 1] as int].source,
            ),
        decreases order.len() - i,
    {
        let ghost p = capped(sorted.take(i as int));
        let at: usize = order[i];
        let ghost x = c[at as int];
        assert(x == cands@[at as int]@);
        assert(x == sorted[i as int]);
        proof {
            assert(sorted.take(i + 1).drop_last() =~= sorted.take(i as int));
            assert(sorted.take(i + 1).last() == x);
            lemma_capped_is_short(sorted.take(i as int));
            lemma_candidates_have_commits(
                signals.co_change_pairs@,
                signals.change_frequency@,
                signals.co_change_pairs@.len() as int,
                at as int,
            );
            assert(stub_views(out@).len() == out@.len());
            assert(out@.len() == p.len());
            assert(p.push(x).drop_last() =~= p);
        }
        let first_on_source = i == 0 || !text::same(
            cands[at].source.as_str(),
            cands[order[i - 1]].source.as_str(),
        );
        if first_on_source {
            seen = 0;
            proof {
                if i > 0 {
                    assert(cands@[order@[i - 1] as int]@ == c[order@[i - 1] as int]);
                    lemma_new_source(c, order@, i as int);
                }
                lemma_count_none(sorted.take(i as int), x.source);
            }
        } else {
            assert(cands@[order@[i - 1] as int]@ == c[order@[i - 1] as int]);
        }
        assert(seen == count_on(p, x.source));
        if seen < MAX_PER_FILE {
            let clock: u64 = logical_clock_start + out.len() as u64;
            let g = cochange_gotcha(&cands[at], clock, now);
            push_stub(&mut out, g);
            seen = seen + 1;
            proof {
                assert(capped(sorted.take(i + 1)) == p.push(x));
                assert(stub_views(out@) =~= cochange_stubs(p.push(x), start, now as nat));
            }
        }
        i = i + 1;
    }
    assert(sorted.take(i as int) =~= sorted);
    proof {
        lemma_capped_is_short(sorted);
        assert(stub_views(out@).len() == out@.len());
    }
    assert(are_cochange_gotchas(c, order@, start, now as nat, stub_views(out@)));
    out
}

/// The order of the candidates is fixed by them alone.
pub proof fn law_cochange_order_is_unique(c: Seq<CandidateView>, p: Seq<usize>, q: Seq<usize>)
    requires
        ranking::is_order(c.len(), p, candidate_first(c)),
        ranking::is_order(c.len(), q, candidate_first(c)),
    ensures
        p == q,
{
    ranking::law_order_is_unique(c.len(), p, q, candidate_first(c));
}

/// Of the candidates on a file the gotchas keep five, or all where there are
/// fewer.
pub proof fn law_five_per_file(c: Seq<CandidateView>, source: Seq<char>)
    ensures
        count_on(capped(c), source) == (if count_on(c, source) < MAX_PER_FILE {
            count_on(c, source)
        } else {
            MAX_PER_FILE as nat
        }),
    decreases c.len(),
{
    if c.len() > 0 {
        law_five_per_file(c.drop_last(), source);
        let p = capped(c.drop_last());
        assert(p.push(c.last()).drop_last() =~= p);
    }
}

/// Every gotcha comes from a pair in which the source has at least three commits
/// in common with the target, and those are at least 70% of its own.
pub proof fn law_gotchas_are_signals(s: GitSignals, k: int)
    requires
        0 <= k < all_candidates(s).len(),
    ensures
        all_candidates(s)[k].freq > 0,
        is_signal(all_candidates(s)[k].count, all_candidates(s)[k].freq),
{
    lemma_candidates_have_commits(
        s.co_change_pairs@,
        s.change_frequency@,
        s.co_change_pairs@.len() as int,
        k,
    );
}

/// Keys are directional: paths without a bar have one key for each direction, and
/// no other pair has it.
pub proof fn law_cochange_keys_are_directional(
    a: Seq<char>,
    b: Seq<char>,
    c: Seq<char>,
    d: Seq<char>,
)
    requires
        !a.contains('|'),
        !c.contains('|'),
        cochange_key(a, b) == cochange_key(c, d),
    ensures
        a == c,
        b == d,
{
    reveal_strlit("|");
    let h = "gotcha:cochange:"@;
    let n = h.len() as int;
    let x = cochange_key(a, b);
    let y = cochange_key(c, d);
    assert(x[n + a.len()] == '|');
    assert(y[n + c.len()] == '|');
    if a.len() < c.len() {
        assert(y[n + a.len()] == c[a.len() as int]);
        assert(c.contains('|'));
    }
    if c.len() < a.len() {
        assert(x[n + c.len()] == a[c.len() as int]);
        assert(a.contains('|'));
    }
    assert(a =~= x.subrange(n, n + a.len()));
    assert(c =~= y.subrange(n, n + c.len()));
    assert(b =~= x.skip(n + a.len() + 1));
    assert(d =~= y.skip(n + c.len() + 1));
}

// ---------------------------------------------------------------------------
// Files that are reverted often
// ---------------------------------------------------------------------------

/// A file with a high share of reverts.
#[derive(Debug, PartialEq, Eq)]
pub struct Reverted {
    pub path: String,
    pub count: u32,
    /// How many commits touch the file.
    pub total: u32,
    pub pct: u32,
}

#[verifier::ext_equal]
pub struct RevertedView {
    pub path: Seq<char>,
    pub count: nat,
    pub total: nat,
    pub pct: nat,
}

impl View for Reverted {
    type V = RevertedView;

    open spec fn view(&self) -> RevertedView {
        RevertedView {
            path: self.path@,
            count: self.count as nat,
            total: self.total as nat,
            pct: self.pct as nat,
        }
    }
}

pub open spec fn reverted_views(v: Seq<Reverted>) -> Seq<RevertedView> {
    v.map_values(|c: Reverted| c@)
}

/// Whether a file is reverted often: at least twice, and in at least 5% of its
/// commits.
pub open spec fn is_contested(count: nat, total: nat) -> bool {
    count >= 2 && total > 0 && 20 * count >= total
}

/// The files among the first `n` that are reverted often.
pub open spec fn contested(counts: Seq<RevertCount>, freqs: Seq<Frequency>, n: int) -> Seq<
    RevertedView,
>
    decreases n,
{
    if n <= 0 {
        Seq::empty()
    } else {
        let before = contested(counts, freqs, n - 1);
        let c = counts[n - 1];
        match frequency_of(freqs, c.path@) {
            Some(total) => if is_contested(c.count as nat, total as nat) {
                before.push(
                    RevertedView {
                        path: c.path@,
                        count: c.count as nat,
                        total: total as nat,
                        pct: c.pct as nat,
                    },
                )
            } else {
                before
            },
            None => before,
        }
    }
}

pub open spec fn all_contested(s: GitSignals) -> Seq<RevertedView> {
    contested(s.revert_counts@, s.change_frequency@, s.revert_counts@.len() as int)
}

/// A divisor that is never 0.
pub open spec fn divisor(n: nat) -> nat {
    if n == 0 {
        1
    } else {
        n
    }
}

/// `a / b` against `c / d`, multiplied out.
pub open spec fn share_above(a: nat, b: nat, c: nat, d: nat) -> bool {
    a * divisor(d) > c * divisor(b)
}

/// The shares `a / b`, `c / d` and `e / f` are ordered like numbers.
proof fn lemma_shares_are_ordered(a: nat, b: nat, c: nat, d: nat, e: nat, f: nat)
    ensures
        !share_above(c, d, a, b) && !share_above(e, f, c, d) ==> !share_above(e, f, a, b),
        share_above(a, b, c, d) && !share_above(e, f, c, d) ==> share_above(a, b, e, f),
        !share_above(c, d, a, b) && share_above(c, d, e, f) ==> share_above(a, b, e, f),
        share_above(a, b, c, d) ==> !share_above(c, d, a, b),
{
    let b1 = divisor(b);
    let d1 = divisor(d);
    let f1 = divisor(f);
    assert(!(c * b1 > a * d1) && !(e * d1 > c * f1) ==> !(e * b1 > a * f1)) by (nonlinear_arith)
        requires
            b1 > 0,
            d1 > 0,
            f1 > 0,
    {
        if !(c * b1 > a * d1) && !(e * d1 > c * f1) {
            assert((e * d1) * b1 <= (c * f1) * b1);
            assert((c * b1) * f1 <= (a * d1) * f1);
            assert((c * f1) * b1 == (c * b1) * f1);
            assert((e * b1) * d1 <= (a * f1) * d1);
        }
    }
    assert(a * d1 > c * b1 && !(e * d1 > c * f1) ==> a * f1 > e * b1) by (nonlinear_arith)
        requires
            b1 > 0,
            d1 > 0,
            f1 > 0,
    {
        if a * d1 > c * b1 && !(e * d1 > c * f1) {
            assert((e * d1) * b1 <= (c * f1) * b1);
            assert((c * b1) * f1 < (a * d1) * f1);
            assert((c * f1) * b1 == (c * b1) * f1);
            assert((e * b1) * d1 < (a * f1) * d1);
        }
    }
    assert(!(c * b1 > a * d1) && c * f1 > e * d1 ==> a * f1 > e * b1) by (nonlinear_arith)
        requires
            b1 > 0,
            d1 > 0,
            f1 > 0,
    {
        if !(c * b1 > a * d1) && c * f1 > e * d1 {
            assert((e * d1) * b1 < (c * f1) * b1);
            assert((c * b1) * f1 <= (a * d1) * f1);
            assert((c * f1) * b1 == (c * b1) * f1);
            assert((e * b1) * d1 < (a * f1) * d1);
        }
    }
}

/// Compares two shares.
fn larger_share(a: u32, b: u32, c: u32, d: u32) -> (r: bool)
    ensures
        r == share_above(a as nat, b as nat, c as nat, d as nat),
{
    let b1: u64 = if b == 0 {
        1
    } else {
        b as u64
    };
    let d1: u64 = if d == 0 {
        1
    } else {
        d as u64
    };
    assert(a as u64 * d1 <= 0xFFFF_FFFF * 0xFFFF_FFFF) by (nonlinear_arith)
        requires
            a as u64 <= 0xFFFF_FFFF,
            d1 <= 0xFFFF_FFFF,
    ;
    assert(c as u64 * b1 <= 0xFFFF_FFFF * 0xFFFF_FFFF) by (nonlinear_arith)
        requires
            c as u64 <= 0xFFFF_FFFF,
            b1 <= 0xFFFF_FFFF,
    ;
    a as u64 * d1 > c as u64 * b1
}

/// By share with the highest first, then by count with the largest first, then by
/// path.
pub open spec fn reverted_le(a: RevertedView, b: RevertedView) -> bool {
    share_above(a.count, a.total, b.count, b.total) || (!share_above(
        b.count,
        b.total,
        a.count,
        a.total,
    ) && (a.count > b.count || (a.count == b.count && !text::text_less(b.path, a.path))))
}

pub open spec fn reverted_first(c: Seq<RevertedView>) -> spec_fn(int, int) -> bool {
    |a: int, b: int| reverted_le(c[a], c[b]) && (reverted_le(c[b], c[a]) ==> a < b)
}

impl Ranked for Reverted {
    open spec fn le(&self, other: &Reverted) -> bool {
        reverted_le(self@, other@)
    }

    proof fn le_total(a: &Reverted, b: &Reverted) {
        if text::text_less(a.path@, b.path@) && text::text_less(b.path@, a.path@) {
            text::lemma_text_less_asymmetric(a.path@, b.path@);
        }
    }

    proof fn le_transitive(a: &Reverted, b: &Reverted, c: &Reverted) {
        let x = a@;
        let y = b@;
        let z = c@;
        lemma_shares_are_ordered(x.count, x.total, y.count, y.total, z.count, z.total);
        lemma_shares_are_ordered(z.count, z.total, y.count, y.total, x.count, x.total);
        if text::text_less(z.path, x.path) && !text::text_less(y.path, x.path) && !text::text_less(
            z.path,
            y.path,
        ) {
            text::lemma_text_less_total(x.path, y.path);
            text::lemma_text_less_total(y.path, z.path);
            if x.path == y.path {
            } else if y.path == z.path {
            } else {
                text::lemma_text_less_transitive(x.path, y.path, z.path);
                text::lemma_text_less_asymmetric(x.path, z.path);
            }
        }
    }

    fn may_precede(&self, other: &Reverted) -> (r: bool) {
        larger_share(self.count, self.total, other.count, other.total) || (!larger_share(
            other.count,
            other.total,
            self.count,
            self.total,
        ) && (self.count > other.count || (self.count == other.count && !text::less(
            other.path.as_str(),
            self.path.as_str(),
        ))))
    }
}

/// The stub on a file that is reverted often; it awaits confirmation.
pub open spec fn revert_stub(c: RevertedView, clock: nat, now: nat) -> StubView {
    StubView {
        key: "gotcha:revert:"@ + c.path,
        source_path: c.path,
        rule: "High revert rate ("@ + text::dec(c.pct) + "% of commits, "@ + text::dec(c.count)
            + " reverts) \u{2014} this interface has been broken and undone repeatedly. Test carefully before touching."@,
        reason: "Repeated reverts in git history indicate contested or fragile logic."@,
        severity: Priority::Normal,
        quality: 40,
        confidence: 35,
        confirmed: false,
        tags: stub_tags("revert"@),
        discovered: now,
        logical_clock: clock,
    }
}

pub open spec fn revert_stubs(c: Seq<RevertedView>, start: nat, now: nat) -> Seq<StubView> {
    Seq::new(c.len(), |i: int| revert_stub(c[i], (start + i) as nat, now))
}

/// `r` holds the stubs of the files `c`, of which `order` is the order.
pub open spec fn are_revert_gotchas(
    c: Seq<RevertedView>,
    order: Seq<usize>,
    start: nat,
    now: nat,
    r: Seq<StubView>,
) -> bool {
    &&& ranking::is_order(c.len(), order, reverted_first(c))
    &&& r == revert_stubs(arranged(c, order), start, now)
}

fn contested_files(signals: &GitSignals) -> (r: Vec<Reverted>)
    ensures
        reverted_views(r@) == all_contested(*signals),
        r@.len() <= signals.revert_counts@.len(),
{
    let counts = &signals.revert_counts;
    let mut out: Vec<Reverted> = Vec::new();
    let mut i: usize = 0;
    assert(reverted_views(out@) =~= Seq::<RevertedView>::empty());
    while i < counts.len()
        invariant
            i <= counts.len(),
            *counts == signals.revert_counts,
            out@.len() <= i,
            reverted_views(out@) == contested(counts@, signals.change_frequency@, i as int),
        decreases counts.len() - i,
    {
        let c = &counts[i];
        let ghost before = out@;
        if let Some(total) = frequency(&signals.change_frequency, c.path.as_str()) {
            if c.count >= 2 && total > 0 && 20 * c.count as u64 >= total as u64 {
                let item = Reverted { path: c.path.clone(), count: c.count, total, pct: c.pct };
                assert(reverted_views(before.push(item)) =~= reverted_views(before).push(item@));
                out.push(item);
            }
        }
        i = i + 1;
    }
    out
}

fn revert_gotcha(c: &Reverted, clock: u64, now: u64) -> (r: GotchaStub)
    ensures
        r@ == revert_stub(c@, clock as nat, now as nat),
{
    GotchaStub {
        key: "gotcha:revert:".to_owned().concat(c.path.as_str()),
        source_path: c.path.clone(),
        rule: "High revert rate (".to_owned().concat(text::decimal(c.pct as u64).as_str()).concat(
            "% of commits, ",
        ).concat(text::decimal(c.count as u64).as_str()).concat(
            " reverts) \u{2014} this interface has been broken and undone repeatedly. Test carefully before touching.",
        ),
        reason: "Repeated reverts in git history indicate contested or fragile logic.".to_owned(),
        severity: Priority::Normal,
        quality: 40,
        confidence: 35,
        confirmed: false,
        tags: tags("revert"),
        discovered: now,
        logical_clock: clock,
    }
}

/// Derives the stubs on files that are reverted often, the highest share first;
/// among equal shares the larger count, then the path, decides.
pub fn build_revert_gotchas(signals: &GitSignals, logical_clock_start: u64, now: u64) -> (r: Vec<
    GotchaStub,
>)
    requires
        logical_clock_start + signals.revert_counts@.len() <= u64::MAX,
    ensures
        exists|order: Seq<usize>| #[trigger]
            are_revert_gotchas(
                all_contested(*signals),
                order,
                logical_clock_start as nat,
                now as nat,
                stub_views(r@),
            ),
        r@.len() <= signals.revert_counts@.len(),
{
    let cands = contested_files(signals);
    let order = ranking::rank(&cands);
    let ghost c = all_contested(*signals);
    let ghost f = reverted_first(c);
    let ghost start = logical_clock_start as nat;
    proof {
        assert(c.len() == cands@.len());
        assert forall|a: int, b: int|
            0 <= a < c.len() && 0 <= b < c.len() implies #[trigger] ranking::comes_first(
            cands@,
            a,
            b,
        ) == f(a, b) by {
            assert(c[a] == cands@[a]@);
            assert(c[b] == cands@[b]@);
        }
        assert(ranking::is_order(c.len(), order@, f));
    }
    let ghost sorted = arranged(c, order@);
    let mut out: Vec<GotchaStub> = Vec::new();
    let mut i: usize = 0;
    assert(stub_views(out@) =~= revert_stubs(sorted.take(0), start, now as nat));
    while i < order.len()
        invariant
            i <= order.len(),
            c == reverted_views(cands@),
            sorted == arranged(c, order@),
            start == logical_clock_start,
            c.len() == cands@.len(),
            start + cands@.len() <= u64::MAX,
            ranking::is_order(c.len(), order@, f),
            stub_views(out@) == revert_stubs(sorted.take(i as int), start, now as nat),
        decreases order.len() - i,
    {
        let at: usize = order[i];
        let ghost x = c[at as int];
        assert(x == cands@[at as int]@);
        assert(x == sorted[i as int]);
        let clock: u64 = logical_clock_start + i as u64;
        let g = revert_gotcha(&cands[at], clock, now);
        push_stub(&mut out, g);
        assert(sorted.take(i + 1) =~= sorted.take(i as int).push(x));
        assert(stub_views(out@) =~= revert_stubs(sorted.take(i + 1), start, now as nat));
        i = i + 1;
    }
    assert(sorted.take(i as int) =~= sorted);
    assert(stub_views(out@).len() == out@.len());
    assert(are_revert_gotchas(c, order@, start, now as nat, stub_views(out@)));
    out
}

/// The order of the stubs is fixed by the files alone.
pub proof fn law_revert_order_is_unique(c: Seq<RevertedView>, p: Seq<usize>, q: Seq<usize>)
    requires
        ranking::is_order(c.len(), p, reverted_first(c)),
        ranking::is_order(c.len(), q, reverted_first(c)),
    ensures
        p == q,
{
    ranking::law_order_is_unique(c.len(), p, q, reverted_first(c));
}

// ---------------------------------------------------------------------------
// Busy files that one author dominates
// ---------------------------------------------------------------------------

/// A busy file and the author of most of its commits.
#[derive(Debug, PartialEq, Eq)]
pub struct Owned {
    pub path: String,
    pub author: String,
    pub top: u32,
    /// The commits of all authors.
    pub total: u32,
    /// How many commits touch the file.
    pub shown_total: u32,
}

#[verifier::ext_equal]
pub struct OwnedView {
    pub path: Seq<char>,
    pub author: Seq<char>,
    pub top: nat,
    pub total: nat,
    pub shown_total: nat,
}

impl View for Owned {
    type V = OwnedView;

    open spec fn view(&self) -> OwnedView {
        OwnedView {
            path: self.path@,
            author: self.author@,
            top: self.top as nat,
            total: self.total as nat,
            shown_total: self.shown_total as nat,
        }
    }
}

pub open spec fn owned_views(v: Seq<Owned>) -> Seq<OwnedView> {
    v.map_values(|c: Owned| c@)
}

/// The commits of the first `n` authors.
pub open spec fn commits_of(a: Seq<AuthorCount>, n: int) -> nat
    decreases n,
{
    if n <= 0 {
        0
    } else {
        commits_of(a, n - 1) + a[n - 1].count as nat
    }
}

/// The first of the authors among the first `n` that have the most commits.
pub open spec fn top_of(a: Seq<AuthorCount>, n: int) -> int
    decreases n,
{
    if n <= 1 {
        0
    } else {
        let t = top_of(a, n - 1);
        if a[n - 1].count > a[t].count {
            n - 1
        } else {
            t
        }
    }
}

/// Whether one author dominates: at least five commits in all, and at least 80%
/// of them by one.
pub open spec fn is_silo(top: nat, total: nat) -> bool {
    total >= 5 && 10 * top >= 8 * total
}

/// The entry of a busy file that one author dominates.
pub open spec fn silo_of(f: FileAuthors, freqs: Seq<Frequency>, hotspots: Seq<Seq<char>>) -> Option<
    OwnedView,
> {
    let a = f.authors@;
    let n = a.len() as int;
    let t = a[top_of(a, n)];
    if hotspots.contains(f.path@) && n > 0 && is_silo(t.count as nat, commits_of(a, n)) {
        Some(
            OwnedView {
                path: f.path@,
                author: t.author@,
                top: t.count as nat,
                total: commits_of(a, n),
                shown_total: match frequency_of(freqs, f.path@) {
                    Some(c) => c as nat,
                    None => t.count as nat,
                },
            },
        )
    } else {
        None
    }
}

/// The entries of the first `n` files.
pub open spec fn silos(
    files: Seq<FileAuthors>,
    freqs: Seq<Frequency>,
    hotspots: Seq<Seq<char>>,
    n: int,
) -> Seq<OwnedView>
    decreases n,
{
    if n <= 0 {
        Seq::empty()
    } else {
        let before = silos(files, freqs, hotspots, n - 1);
        match silo_of(files[n - 1], freqs, hotspots) {
            Some(o) => before.push(o),
            None => before,
        }
    }
}

pub open spec fn all_silos(s: GitSignals) -> Seq<OwnedView> {
    silos(
        s.author_commit_counts@,
        s.change_frequency@,
        text::texts(s.hotspot_files@),
        s.author_commit_counts@.len() as int,
    )
}

/// The commits of each file can be counted in 32 bits.
pub open spec fn commits_fit(s: GitSignals) -> bool {
    forall|k: int|
        0 <= k < s.author_commit_counts@.len() ==> commits_of(
            (#[trigger] s.author_commit_counts@[k]).authors@,
            s.author_commit_counts@[k].authors@.len() as int,
        ) <= u32::MAX
}

proof fn lemma_commits_grow(a: Seq<AuthorCount>, m: int, n: int)
    requires
        0 <= m <= n <= a.len(),
    ensures
        commits_of(a, m) <= commits_of(a, n),
    decreases n - m,
{
    if m < n {
        lemma_commits_grow(a, m, n - 1);
    }
}

proof fn lemma_top_is_largest(a: Seq<AuthorCount>, n: int)
    requires
        0 < n <= a.len(),
    ensures
        0 <= top_of(a, n) < n,
        forall|k: int| 0 <= k < n ==> (#[trigger] a[k]).count <= a[top_of(a, n)].count,
    decreases n,
{
    if n > 1 {
        lemma_top_is_largest(a, n - 1);
    }
}

proof fn lemma_two_authors(a: Seq<AuthorCount>, i: int, j: int, n: int)
    requires
        0 <= i < j < n <= a.len(),
    ensures
        a[i].count + a[j].count <= commits_of(a, n),
    decreases n,
{
    if j < n - 1 {
        lemma_two_authors(a, i, j, n - 1);
    } else {
        lemma_one_author(a, i, n - 1);
    }
}

proof fn lemma_one_author(a: Seq<AuthorCount>, i: int, n: int)
    requires
        0 <= i < n <= a.len(),
    ensures
        a[i].count <= commits_of(a, n),
    decreases n,
{
    if i < n - 1 {
        lemma_one_author(a, i, n - 1);
    }
}

/// Where one author dominates, no other has as many commits: the order in which
/// the authors are listed does not matter.
pub proof fn law_dominant_author_is_unique(a: Seq<AuthorCount>, k: int)
    requires
        0 <= k < a.len(),
        k != top_of(a, a.len() as int),
        is_silo(a[top_of(a, a.len() as int)].count as nat, commits_of(a, a.len() as int)),
    ensures
        a[k].count < a[top_of(a, a.len() as int)].count,
{
    let n = a.len() as int;
    let t = top_of(a, n);
    lemma_top_is_largest(a, n);
    if k < t {
        lemma_two_authors(a, k, t, n);
    } else {
        lemma_two_authors(a, t, k, n);
    }
}

/// By share with the highest first, then by path.
pub open spec fn owned_le(a: OwnedView, b: OwnedView) -> bool {
    share_above(a.top, a.total, b.top, b.total) || (!share_above(b.top, b.total, a.top, a.total)
        && !text::text_less(b.path, a.path))
}

pub open spec fn owned_first(c: Seq<OwnedView>) -> spec_fn(int, int) -> bool {
    |a: int, b: int| owned_le(c[a], c[b]) && (owned_le(c[b], c[a]) ==> a < b)
}

impl Ranked for Owned {
    open spec fn le(&self, other: &Owned) -> bool {
        owned_le(self@, other@)
    }

    proof fn le_total(a: &Owned, b: &Owned) {
        if text::text_less(a.path@, b.path@) && text::text_less(b.path@, a.path@) {
            text::lemma_text_less_asymmetric(a.path@, b.path@);
        }
    }

    proof fn le_transitive(a: &Owned, b: &Owned, c: &Owned) {
        let x = a@;
        let y = b@;
        let z = c@;
        lemma_shares_are_ordered(x.top, x.total, y.top, y.total, z.top, z.total);
        lemma_shares_are_ordered(z.top, z.total, y.top, y.total, x.top, x.total);
        if text::text_less(z.path, x.path) && !text::text_less(y.path, x.path) && !text::text_less(
            z.path,
            y.path,
        ) {
            text::lemma_text_less_total(x.path, y.path);
            text::lemma_text_less_total(y.path, z.path);
            if x.path == y.path {
            } else if y.path == z.path {
            } else {
                text::lemma_text_less_transitive(x.path, y.path, z.path);
                text::lemma_text_less_asymmetric(x.path, z.path);
            }
        }
    }

    fn may_precede(&self, other: &Owned) -> (r: bool) {
        larger_share(self.top, self.total, other.top, other.total) || (!larger_share(
            other.top,
            other.total,
            self.top,
            self.total,
        ) && !text::less(other.path.as_str(), self.path.as_str()))
    }
}

/// The stub on a file that one author dominates; it awaits confirmation.
pub open spec fn ownership_stub(c: OwnedView, clock: nat, now: nat) -> StubView {
    StubView {
        key: "gotcha:ownership:"@ + c.path,
        source_path: c.path,
        rule: text::dec(percent_of(c.top, c.total)) + "% of commits by "@ + c.author + " ("@
            + text::dec(c.top) + "/"@ + text::dec(c.shown_total)
            + ") \u{2014} key person dependency on this hotspot file."@,
        reason: "Single-author dominance on a high-traffic file is a knowledge silo risk \u{2014} context may be lost if that person is unavailable."@,
        severity: Priority::Normal,
        quality: 40,
        confidence: 40,
        confirmed: false,
        tags: stub_tags("ownership"@),
        discovered: now,
        logical_clock: clock,
    }
}

pub open spec fn ownership_stubs(c: Seq<OwnedView>, start: nat, now: nat) -> Seq<StubView> {
    Seq::new(c.len(), |i: int| ownership_stub(c[i], (start + i) as nat, now))
}

/// `r` holds the stubs of the files `c`, of which `order` is the order.
pub open spec fn are_ownership_gotchas(
    c: Seq<OwnedView>,
    order: Seq<usize>,
    start: nat,
    now: nat,
    r: Seq<StubView>,
) -> bool {
    &&& ranking::is_order(c.len(), order, owned_first(c))
    &&& r == ownership_stubs(arranged(c, order), start, now)
}

fn silo(f: &FileAuthors, freqs: &Vec<Frequency>, hotspots: &Vec<String>) -> (r: Option<Owned>)
    requires
        commits_of(f.authors@, f.authors@.len() as int) <= u32::MAX,
    ensures
        match r {
            Some(o) => silo_of(*f, freqs@, text::texts(hotspots@)) == Some(o@) && o.total > 0,
            None => silo_of(*f, freqs@, text::texts(hotspots@)) is None,
        },
{
    if !text::list_contains(hotspots, f.path.as_str()) {
        return None;
    }
    let a = &f.authors;
    let mut total: u32 = 0;
    let mut top: usize = 0;
    let mut i: usize = 0;
    while i < a.len()
        invariant
            i <= a.len(),
            *a == f.authors,
            total == commits_of(a@, i as int),
            commits_of(a@, a@.len() as int) <= u32::MAX,
            i > 0 ==> top == top_of(a@, i as int) && top < i,
            i == 0 ==> top == 0,
        decreases a.len() - i,
    {
        proof {
            lemma_commits_grow(a@, i + 1, a@.len() as int);
        }
        total = total + a[i].count;
        if i > 0 && a[i].count > a[top].count {
            top = i;
        }
        i = i + 1;
    }
    if total < 5 || a.len() == 0 {
        return None;
    }
    let count = a[top].count;
    if (10 * count as u64) < 8 * total as u64 {
        return None;
    }
    let shown_total = match frequency(freqs, f.path.as_str()) {
        Some(c) => c,
        None => count,
    };
    Some(
        Owned {
            path: f.path.clone(),
            author: a[top].author.clone(),
            top: count,
            total,
            shown_total,
        },
    )
}

fn silo_files(signals: &GitSignals) -> (r: Vec<Owned>)
    requires
        commits_fit(*signals),
    ensures
        owned_views(r@) == all_silos(*signals),
        r@.len() <= signals.author_commit_counts@.len(),
        forall|k: int| 0 <= k < r@.len() ==> (#[trigger] r@[k]).total > 0,
{
    let files = &signals.author_commit_counts;
    let mut out: Vec<Owned> = Vec::new();
    let mut i: usize = 0;
    assert(owned_views(out@) =~= Seq::<OwnedView>::empty());
    while i < files.len()
        invariant
            i <= files.len(),
            *files == signals.author_commit_counts,
            commits_fit(*signals),
            out@.len() <= i,
            forall|k: int| 0 <= k < out@.len() ==> (#[trigger] out@[k]).total > 0,
            owned_views(out@) == silos(
                files@,
                signals.change_frequency@,
                text::texts(signals.hotspot_files@),
                i as int,
            ),
        decreases files.len() - i,
    {
        let ghost before = out@;
        assert(commits_of(
            signals.author_commit_counts@[i as int].authors@,
            signals.author_commit_counts@[i as int].authors@.len() as int,
        ) <= u32::MAX);
        if let Some(item) = silo(&files[i], &signals.change_frequency, &signals.hotspot_files) {
            assert(owned_views(before.push(item)) =~= owned_views(before).push(item@));
            out.push(item);
        }
        i = i + 1;
    }
    out
}

fn ownership_gotcha(c: &Owned, clock: u64, now: u64) -> (r: GotchaStub)
    requires
        c.total > 0,
    ensures
        r@ == ownership_stub(c@, clock as nat, now as nat),
{
    GotchaStub {
        key: "gotcha:ownership:".to_owned().concat(c.path.as_str()),
        source_path: c.path.clone(),
        rule: text::decimal(percent(c.top, c.total)).concat("% of commits by ").concat(
            c.author.as_str(),
        ).concat(" (").concat(text::decimal(c.top as u64).as_str()).concat("/").concat(
            text::decimal(c.shown_total as u64).as_str(),
        ).concat(") \u{2014} key person dependency on this hotspot file."),
        reason: "Single-author dominance on a high-traffic file is a knowledge silo risk \u{2014} context may be lost if that person is unavailable.".to_owned(),
        severity: Priority::Normal,
        quality: 40,
        confidence: 40,
        confirmed: false,
        tags: tags("ownership"),
        discovered: now,
        logical_clock: clock,
    }
}

/// Derives the stubs on busy files that one author dominates, the highest share
/// first; among equal shares the path decides.
pub fn build_ownership_gotchas(signals: &GitSignals, logical_clock_start: u64, now: u64) -> (r: Vec<
    GotchaStub,
>)
    requires
        commits_fit(*signals),
        logical_clock_start + signals.author_commit_counts@.len() <= u64::MAX,
    ensures
        exists|order: Seq<usize>| #[trigger]
            are_ownership_gotchas(
                all_silos(*signals),
                order,
                logical_clock_start as nat,
                now as nat,
                stub_views(r@),
            ),
        r@.len() <= signals.author_commit_counts@.len(),
{
    let cands = silo_files(signals);
    let order = ranking::rank(&cands);
    let ghost c = all_silos(*signals);
    let ghost f = owned_first(c);
    let ghost start = logical_clock_start as nat;
    proof {
        assert(c.len() == cands@.len());
        assert forall|a: int, b: int|
            0 <= a < c.len() && 0 <= b < c.len() implies #[trigger] ranking::comes_first(
            cands@,
            a,
            b,
        ) == f(a, b) by {
            assert(c[a] == cands@[a]@);
            assert(c[b] == cands@[b]@);
        }
        assert(ranking::is_order(c.len(), order@, f));
    }
    let ghost sorted = arranged(c, order@);
    let mut out: Vec<GotchaStub> = Vec::new();
    let mut i: usize = 0;
    assert(stub_views(out@) =~= ownership_stubs(sorted.take(0), start, now as nat));
    while i < order.len()
        invariant
            i <= order.len(),
            c == owned_views(cands@),
            sorted == arranged(c, order@),
            start == logical_clock_start,
            c.len() == cands@.len(),
            start + cands@.len() <= u64::MAX,
            forall|k: int| 0 <= k < cands@.len() ==> (#[trigger] cands@[k]).total > 0,
            ranking::is_order(c.len(), order@, f),
            stub_views(out@) == ownership_stubs(sorted.take(i as int), start, now as nat),
        decreases order.len() - i,
    {
        let at: usize = order[i];
        let ghost x = c[at as int];
        assert(x == cands@[at as int]@);
        assert(x == sorted[i as int]);
        let clock: u64 = logical_clock_start + i as u64;
        let g = ownership_gotcha(&cands[at], clock, now);
        push_stub(&mut out, g);
        assert(sorted.take(i + 1) =~= sorted.take(i as int).push(x));
        assert(stub_views(out@) =~= ownership_stubs(sorted.take(i + 1), start, now as nat));
        i = i + 1;
    }
    assert(sorted.take(i as int) =~= sorted);
    assert(stub_views(out@).len() == out@.len());
    assert(are_ownership_gotchas(c, order@, start, now as nat, stub_views(out@)));
    out
}

/// The order of the stubs is fixed by the files alone.
pub proof fn law_ownership_order_is_unique(c: Seq<OwnedView>, p: Seq<usize>, q: Seq<usize>)
    requires
        ranking::is_order(c.len(), p, owned_first(c)),
        ranking::is_order(c.len(), q, owned_first(c)),
    ensures
        p == q,
{
    ranking::law_order_is_unique(c.len(), p, q, owned_first(c));
}

// ---------------------------------------------------------------------------
// What the suggestions are for
// ---------------------------------------------------------------------------

/// Being attached to a file.
pub open spec fn attached_to(path: Seq<char>) -> spec_fn(StubView) -> bool {
    |g: StubView| g.source_path == path
}

/// The gotchas `r` are those of the candidates at the positions `at`: of each file
/// the ones with the most commits in common, the most first, five at most.
pub open spec fn keeps_strongest(c: Seq<CandidateView>, at: Seq<int>, r: Seq<StubView>) -> bool {
    &&& at.len() == r.len()
    &&& forall|i: int|
        0 <= i < at.len() ==> {
            &&& 0 <= #[trigger] at[i] < c.len()
            &&& r[i].source_path == c[at[i]].source
            &&& r[i].key == "gotcha:cochange:"@ + c[at[i]].source + "|"@ + c[at[i]].target
        }
    &&& forall|i: int, j: int|
        0 <= i < j < at.len() ==> {
            &&& #[trigger] at[i] != #[trigger] at[j]
            &&& c[at[i]].source == c[at[j]].source ==> c[at[i]].count >= c[at[j]].count
        }
    &&& forall|x: int, i: int|
        0 <= x < c.len() && !at.contains(x) && 0 <= i < at.len() && c[at[i]].source == c[x].source
            ==> (#[trigger] c[at[i]]).count >= (#[trigger] c[x]).count
    &&& forall|x: int|
        0 <= x < c.len() && !at.contains(x) ==> r.filter(
            attached_to((#[trigger] c[x]).source),
        ).len() == 5
    &&& forall|path: Seq<char>| (#[trigger] r.filter(attached_to(path))).len() <= 5
}

/// The positions in `s` of the candidates that are kept.
spec fn kept_at(s: Seq<CandidateView>) -> Seq<int>
    decreases s.len(),
{
    if s.len() == 0 {
        Seq::empty()
    } else {
        let p = kept_at(s.drop_last());
        if count_on(capped(s.drop_last()), s.last().source) < MAX_PER_FILE {
            p.push(s.len() - 1)
        } else {
            p
        }
    }
}

proof fn lemma_kept_at(s: Seq<CandidateView>)
    ensures
        kept_at(s).len() == capped(s).len(),
        forall|i: int|
            0 <= i < kept_at(s).len() ==> 0 <= #[trigger] kept_at(s)[i] < s.len() && s[kept_at(
                s,
            )[i]] == capped(s)[i],
        forall|i: int, j: int|
            0 <= i < j < kept_at(s).len() ==> #[trigger] kept_at(s)[i] < #[trigger] kept_at(s)[j],
        forall|x: int|
            0 <= x < s.len() && !(#[trigger] kept_at(s).contains(x)) ==> count_on(
                capped(s),
                s[x].source,
            ) == MAX_PER_FILE,
        forall|x: int, i: int|
            0 <= x < s.len() && !(#[trigger] kept_at(s).contains(x)) && 0 <= i < kept_at(s).len()
                && s[kept_at(s)[i]].source == s[x].source ==> #[trigger] kept_at(s)[i] < x,
    decreases s.len(),
{
    if s.len() > 0 {
        let t = s.drop_last();
        lemma_kept_at(t);
        law_five_per_file(s, s.last().source);
        let p = kept_at(t);
        let q = kept_at(s);
        let last = s.len() - 1;
        let keeps = count_on(capped(t), s.last().source) < MAX_PER_FILE;
        assert(capped(t).push(s.last()).drop_last() =~= capped(t));
        assert forall|i: int| 0 <= i < q.len() implies 0 <= #[trigger] q[i] < s.len() && s[q[i]]
            == capped(s)[i] by {
            if i < p.len() {
                assert(p[i] < t.len());
                assert(t[p[i]] == s[p[i]]);
            }
        }
        assert forall|i: int, j: int| 0 <= i < j < q.len() implies #[trigger] q[i]
            < #[trigger] q[j] by {
            if j < p.len() {
                assert(p[i] < p[j]);
            } else {
                assert(p[i] < t.len());
            }
        }
        assert forall|x: int| 0 <= x < s.len() && !(#[trigger] q.contains(x)) implies count_on(
            capped(s),
            s[x].source,
        ) == MAX_PER_FILE && (forall|i: int|
            0 <= i < q.len() && s[q[i]].source == s[x].source ==> #[trigger] q[i] < x) by {
            if keeps {
                assert(q[p.len() as int] == last);
                if x == last {
                    assert(q.contains(x));
                }
                assert(s[x] == t[x]);
                if p.contains(x) {
                    let k = choose|k: int| 0 <= k < p.len() && p[k] == x;
                    assert(q[k] == x);
                }
                assert(!p.contains(x));
                assert(count_on(capped(t), t[x].source) == MAX_PER_FILE);
                assert forall|i: int| 0 <= i < q.len() && s[q[i]].source == s[x].source implies
                    #[trigger] q[i] < x by {
                    if i < p.len() {
                        assert(p[i] < t.len());
                        assert(t[p[i]].source == t[x].source);
                    }
                }
            } else {
                assert(q == p);
                if x < last {
                    assert(s[x] == t[x]);
                    assert(!p.contains(x));
                    assert forall|i: int| 0 <= i < q.len() && s[q[i]].source == s[x].source implies
                        #[trigger] q[i] < x by {
                        assert(p[i] < t.len());
                        assert(t[p[i]].source == t[x].source);
                    }
                } else {
                    law_five_per_file(t, s.last().source);
                    assert forall|i: int| 0 <= i < q.len() implies #[trigger] q[i] < x by {
                        assert(p[i] < t.len());
                    }
                }
            }
        }
    }
}

proof fn lemma_count_is_filter(c: Seq<CandidateView>, start: nat, now: nat, path: Seq<char>)
    ensures
        cochange_stubs(c, start, now).filter(attached_to(path)).len() == count_on(c, path),
    decreases c.len(),
{
    let r = cochange_stubs(c, start, now);
    let f = attached_to(path);
    if c.len() == 0 {
        reveal(Seq::filter);
        assert(r.filter(f).len() == 0);
    } else {
        let t = c.drop_last();
        lemma_count_is_filter(t, start, now, path);
        let last = cochange_stub(c.last(), (start + (c.len() - 1)) as nat, now);
        assert(r =~= cochange_stubs(t, start, now).push(last));
        cochange_stubs(t, start, now).lemma_filter_push(last, f);
    }
}

/// Of the candidates on a file those with the most commits in common are kept and
/// come first: none that is left out has more than one that is kept, and one is
/// left out only where five are kept.
pub proof fn law_cochange_keeps_the_strongest(
    c: Seq<CandidateView>,
    order: Seq<usize>,
    start: nat,
    now: nat,
    r: Seq<StubView>,
)
    requires
        c.len() <= usize::MAX,
        are_cochange_gotchas(c, order, start, now, r),
    ensures
        exists|at: Seq<int>| #[trigger] keeps_strongest(c, at, r),
{
    let s = arranged(c, order);
    let f = candidate_first(c);
    let p = kept_at(s);
    let at = p.map_values(|k: int| order[k] as int);
    lemma_kept_at(s);
    assert forall|i: int| 0 <= i < at.len() implies {
        &&& 0 <= #[trigger] at[i] < c.len()
        &&& r[i].source_path == c[at[i]].source
        &&& r[i].key == "gotcha:cochange:"@ + c[at[i]].source + "|"@ + c[at[i]].target
    } by {
        assert(0 <= p[i] < s.len());
        assert(order[p[i]] < c.len());
        assert(s[p[i]] == c[at[i]]);
    }
    assert forall|i: int, j: int| 0 <= i < j < at.len() implies {
        &&& #[trigger] at[i] != #[trigger] at[j]
        &&& c[at[i]].source == c[at[j]].source ==> c[at[i]].count >= c[at[j]].count
    } by {
        assert(p[i] < p[j]);
        assert(f(order[p[i]] as int, order[p[j]] as int));
        text::lemma_text_less_irreflexive(c[at[i]].source);
    }
    assert forall|x: int| 0 <= x < c.len() && !at.contains(x) implies r.filter(
        attached_to((#[trigger] c[x]).source),
    ).len() == 5 && (forall|i: int|
        0 <= i < at.len() && c[at[i]].source == c[x].source ==> (#[trigger] c[at[i]]).count
            >= c[x].count) by {
        ranking::lemma_order_complete(c.len(), order, f, x as usize);
        let y = choose|y: int| 0 <= y < order.len() && order[y] == x as usize;
        assert(s[y] == c[x]);
        if p.contains(y) {
            let k = choose|k: int| 0 <= k < p.len() && p[k] == y;
            assert(at[k] == x);
        }
        lemma_count_is_filter(capped(s), start, now, c[x].source);
        assert forall|i: int| 0 <= i < at.len() && c[at[i]].source == c[x].source implies
            (#[trigger] c[at[i]]).count >= c[x].count by {
            assert(s[p[i]] == c[at[i]]);
            assert(p[i] < y);
            assert(f(order[p[i]] as int, order[y] as int));
            text::lemma_text_less_irreflexive(c[x].source);
        }
    }
    assert forall|path: Seq<char>| (#[trigger] r.filter(attached_to(path))).len() <= 5 by {
        lemma_count_is_filter(capped(s), start, now, path);
        law_five_per_file(s, path);
    }
    assert(keeps_strongest(c, at, r));
}

/// A path has the count of the first entry that names it.
pub proof fn law_frequency_is_the_first_entry(m: Seq<Frequency>, path: Seq<char>)
    ensures
        match frequency_of(m, path) {
            Some(n) => exists|i: int|
                {
                    &&& 0 <= i < m.len()
                    &&& (#[trigger] m[i]).path@ == path
                    &&& m[i].count == n
                    &&& forall|j: int| 0 <= j < i ==> (#[trigger] m[j]).path@ != path
                },
            None => forall|j: int| 0 <= j < m.len() ==> (#[trigger] m[j]).path@ != path,
        },
    decreases m.len(),
{
    if m.len() > 0 {
        if m[0].path@ == path {
            assert(m[0].count == frequency_of(m, path).unwrap());
        } else {
            let t = m.skip(1);
            law_frequency_is_the_first_entry(t, path);
            match frequency_of(t, path) {
                Some(n) => {
                    let i = choose|i: int|
                        {
                            &&& 0 <= i < t.len()
                            &&& (#[trigger] t[i]).path@ == path
                            &&& t[i].count == n
                            &&& forall|j: int| 0 <= j < i ==> (#[trigger] t[j]).path@ != path
                        };
                    assert(m[i + 1] == t[i]);
                    assert forall|j: int| 0 <= j < i + 1 implies (#[trigger] m[j]).path@
                        != path by {
                        if j > 0 {
                            assert(t[j - 1] == m[j]);
                        }
                    }
                },
                None => {
                    assert forall|j: int| 0 <= j < m.len() implies (#[trigger] m[j]).path@
                        != path by {
                        if j > 0 {
                            assert(t[j - 1] == m[j]);
                        }
                    }
                },
            }
        }
    }
}

/// Whether a candidate is one direction of a pair: its files are those of the pair,
/// its count is that of the pair, and at least three commits and 70% of the
/// source's own are in common.
pub open spec fn is_direction_of(x: CandidateView, p: Pair, freqs: Seq<Frequency>) -> bool {
    &&& (x.source == p.a@ && x.target == p.b@) || (x.source == p.b@ && x.target == p.a@)
    &&& x.count == p.count
    &&& frequency_of(freqs, x.source) matches Some(n) && n > 0 && x.freq == n
    &&& frequency_of(freqs, x.target) matches Some(n) && n > 0
    &&& x.count >= 3
    &&& x.count * 100 >= x.freq * 70
}

/// The candidates are the directions of the pairs that are a signal: each comes
/// from a pair, and no such direction is passed over.
pub proof fn law_candidates_are_the_signals(s: GitSignals)
    ensures
        forall|k: int|
            0 <= k < all_candidates(s).len() ==> exists|j: int|
                0 <= j < s.co_change_pairs@.len() && is_direction_of(
                    #[trigger] all_candidates(s)[k],
                    #[trigger] s.co_change_pairs@[j],
                    s.change_frequency@,
                ),
        forall|j: int, x: CandidateView|
            0 <= j < s.co_change_pairs@.len() && #[trigger] is_direction_of(
                x,
                s.co_change_pairs@[j],
                s.change_frequency@,
            ) ==> all_candidates(s).contains(x),
{
    let pairs = s.co_change_pairs@;
    let n = pairs.len() as int;
    assert forall|k: int| 0 <= k < all_candidates(s).len() implies exists|j: int|
        0 <= j < pairs.len() && is_direction_of(
            #[trigger] all_candidates(s)[k],
            #[trigger] pairs[j],
            s.change_frequency@,
        ) by {
        let j = lemma_candidate_source(pairs, s.change_frequency@, n, k);
        assert(is_direction_of(all_candidates(s)[k], pairs[j], s.change_frequency@));
    }
    assert forall|j: int, x: CandidateView|
        0 <= j < pairs.len() && #[trigger] is_direction_of(
            x,
            pairs[j],
            s.change_frequency@,
        ) implies all_candidates(s).contains(x) by {
        lemma_direction_is_found(pairs, s.change_frequency@, n, j, x);
    }
}

proof fn lemma_candidate_source(pairs: Seq<Pair>, freqs: Seq<Frequency>, n: int, k: int) -> (j: int)
    requires
        0 <= n <= pairs.len(),
        0 <= k < candidates_of(pairs, freqs, n).len(),
    ensures
        0 <= j < n,
        is_direction_of(candidates_of(pairs, freqs, n)[k], pairs[j], freqs),
    decreases n,
{
    let before = candidates_of(pairs, freqs, n - 1);
    if n > 0 && k < before.len() {
        lemma_candidate_source(pairs, freqs, n - 1, k)
    } else {
        n - 1
    }
}

proof fn lemma_direction_is_found(
    pairs: Seq<Pair>,
    freqs: Seq<Frequency>,
    n: int,
    j: int,
    x: CandidateView,
)
    requires
        0 <= j < n <= pairs.len(),
        is_direction_of(x, pairs[j], freqs),
    ensures
        candidates_of(pairs, freqs, n).contains(x),
    decreases n,
{
    let before = candidates_of(pairs, freqs, n - 1);
    let all = candidates_of(pairs, freqs, n);
    if j < n - 1 {
        lemma_direction_is_found(pairs, freqs, n - 1, j, x);
        let k = choose|k: int| 0 <= k < before.len() && before[k] == x;
        assert(all[k] == x);
    } else {
        let p = pairs[j];
        let fa = frequency_of(freqs, p.a@).unwrap();
        let fb = frequency_of(freqs, p.b@).unwrap();
        let one = directed(p.a@, p.b@, p.count as nat, fa as nat);
        let two = directed(p.b@, p.a@, p.count as nat, fb as nat);
        let b = before.len() as int;
        if x.source == p.a@ && x.target == p.b@ {
            assert(one.len() == 1 && one[0] =~= x);
            assert(all[b] == one[0]);
        } else {
            assert(two.len() == 1 && two[0] =~= x);
            assert(all[b + one.len()] == two[0]);
        }
    }
}

/// A co-change gotcha is attached to the source, names the target and is confirmed.
/// It is of high severity exactly where at least twenty commits and 90% of the
/// source's own are in common, and then it is rated higher as well.
pub proof fn law_cochange_gotcha_warns_of_the_target(c: CandidateView, clock: nat, now: nat)
    ensures
        ({
            let g = cochange_stub(c, clock, now);
            let strong = c.count >= 20 && c.count * 100 >= c.freq * 90;
            &&& g.source_path == c.source
            &&& g.key == "gotcha:cochange:"@ + c.source + "|"@ + c.target
            &&& g.confirmed
            &&& g.discovered == now && g.logical_clock == clock
            &&& g.severity == (if strong {
                Priority::High
            } else {
                Priority::Normal
            })
            &&& strong ==> g.quality == 60 && g.confidence == 65
            &&& !strong ==> g.quality == 40 && g.confidence == 45
            &&& g.tags == seq!["co-change"@, "auto-generated"@]
            &&& text::text_contains(g.rule, "`"@ + c.target + "`"@)
            &&& text::text_contains(g.rule, text::dec(c.count) + "/"@ + text::dec(c.freq))
        }),
{
    let g = cochange_stub(c, clock, now);
    let head = "Always check `"@;
    let mid = "` when editing this file \u{2014} changed together in "@;
    reveal_strlit("Always check `");
    reveal_strlit("`");
    reveal_strlit("` when editing this file \u{2014} changed together in ");
    let name = "`"@ + c.target + "`"@;
    assert(g.rule.subrange(13, 13 + name.len() as int) =~= name);
    assert(text::occurs_at(g.rule, name, 13));
    let share = text::dec(c.count) + "/"@ + text::dec(c.freq);
    let at = (head.len() + c.target.len() + mid.len()) as int;
    assert(g.rule.subrange(at, at + share.len() as int) =~= share);
    assert(text::occurs_at(g.rule, share, at));
}

/// A share in percent is the nearest whole number, as long as it is small enough.
pub proof fn law_percent_is_rounded(part: nat, whole: nat)
    requires
        0 < whole,
        part <= whole,
    ensures
        2 * percent_of(part, whole) * whole <= 200 * part + whole,
        200 * part + whole < 2 * (percent_of(part, whole) + 1) * whole,
        percent_of(part, whole) <= 100,
        part == whole ==> percent_of(part, whole) == 100,
        part == 0 ==> percent_of(part, whole) == 0,
{
    let n = 200 * part + whole;
    let d = 2 * whole;
    let q = n / d;
    assert(q * d <= n < (q + 1) * d) by (nonlinear_arith)
        requires
            d > 0,
            q == n / d,
    ;
    assert(q <= 100) by (nonlinear_arith)
        requires
            q * d <= n,
            n <= 201 * whole,
            d == 2 * whole,
            whole > 0,
    ;
    assert(percent_of(part, whole) == q);
    assert(2 * q * whole == q * d) by (nonlinear_arith)
        requires
            d == 2 * whole,
    ;
    assert(2 * (q + 1) * whole == (q + 1) * d) by (nonlinear_arith)
        requires
            d == 2 * whole,
    ;
    if part == whole {
        assert(q >= 100) by (nonlinear_arith)
            requires
                n < (q + 1) * d,
                n == 201 * whole,
                d == 2 * whole,
                whole > 0,
        ;
    }
    if part == 0 {
        assert(q == 0) by (nonlinear_arith)
            requires
                q * d <= n,
                n == whole,
                d == 2 * whole,
                whole > 0,
                q >= 0,
        ;
    }
}

/// Whether an entry says that a file is reverted often: at least twice and in at
/// least 5% of its commits.
pub open spec fn is_reverted_often(x: RevertedView, c: RevertCount, freqs: Seq<Frequency>) -> bool {
    &&& x.path == c.path@ && x.count == c.count && x.pct == c.pct
    &&& frequency_of(freqs, c.path@) matches Some(n) && n > 0 && x.total == n
    &&& x.count >= 2
    &&& x.count * 100 >= x.total * 5
}

/// The files that are reverted often are found, and no others.
pub proof fn law_contested_files_are_found(s: GitSignals)
    ensures
        forall|k: int|
            0 <= k < all_contested(s).len() ==> exists|j: int|
                0 <= j < s.revert_counts@.len() && is_reverted_often(
                    #[trigger] all_contested(s)[k],
                    #[trigger] s.revert_counts@[j],
                    s.change_frequency@,
                ),
        forall|j: int, x: RevertedView|
            0 <= j < s.revert_counts@.len() && #[trigger] is_reverted_often(
                x,
                s.revert_counts@[j],
                s.change_frequency@,
            ) ==> all_contested(s).contains(x),
{
    let v = s.revert_counts@;
    let n = v.len() as int;
    assert forall|k: int| 0 <= k < all_contested(s).len() implies exists|j: int|
        0 <= j < v.len() && is_reverted_often(
            #[trigger] all_contested(s)[k],
            #[trigger] v[j],
            s.change_frequency@,
        ) by {
        let j = lemma_contested_source(v, s.change_frequency@, n, k);
        assert(is_reverted_often(all_contested(s)[k], v[j], s.change_frequency@));
    }
    assert forall|j: int, x: RevertedView|
        0 <= j < v.len() && #[trigger] is_reverted_often(
            x,
            v[j],
            s.change_frequency@,
        ) implies all_contested(s).contains(x) by {
        lemma_contested_is_found(v, s.change_frequency@, n, j, x);
    }
}

proof fn lemma_contested_source(v: Seq<RevertCount>, freqs: Seq<Frequency>, n: int, k: int) -> (j:
    int)
    requires
        0 <= n <= v.len(),
        0 <= k < contested(v, freqs, n).len(),
    ensures
        0 <= j < n,
        is_reverted_often(contested(v, freqs, n)[k], v[j], freqs),
    decreases n,
{
    let before = contested(v, freqs, n - 1);
    if n > 0 && k < before.len() {
        lemma_contested_source(v, freqs, n - 1, k)
    } else {
        n - 1
    }
}

proof fn lemma_contested_is_found(
    v: Seq<RevertCount>,
    freqs: Seq<Frequency>,
    n: int,
    j: int,
    x: RevertedView,
)
    requires
        0 <= j < n <= v.len(),
        is_reverted_often(x, v[j], freqs),
    ensures
        contested(v, freqs, n).contains(x),
    decreases n,
{
    let before = contested(v, freqs, n - 1);
    let all = contested(v, freqs, n);
    if j < n - 1 {
        lemma_contested_is_found(v, freqs, n - 1, j, x);
        let k = choose|k: int| 0 <= k < before.len() && before[k] == x;
        assert(all[k] == x);
    } else {
        assert(all.last() =~= x);
        assert(all[all.len() - 1] == x);
    }
}

/// The gotchas on reverted files, one for each, come with the highest share of
/// reverts first; among equal shares the larger number of reverts and then the
/// path decide. None of them counts as confirmed.
pub proof fn law_most_reverted_comes_first(
    c: Seq<RevertedView>,
    order: Seq<usize>,
    start: nat,
    now: nat,
    r: Seq<StubView>,
    i: int,
    j: int,
)
    requires
        are_revert_gotchas(c, order, start, now, r),
        forall|k: int| 0 <= k < c.len() ==> (#[trigger] c[k]).total > 0,
        0 <= i < j < r.len(),
    ensures
        r.len() == c.len(),
        ({
            let a = c[order[i] as int];
            let b = c[order[j] as int];
            &&& r[i].key == "gotcha:revert:"@ + a.path && r[i].source_path == a.path
            &&& !r[i].confirmed
            &&& a.count * b.total >= b.count * a.total
            &&& a.count * b.total == b.count * a.total ==> a.count >= b.count && (a.count == b.count
                ==> !text::text_less(b.path, a.path))
        }),
{
    let f = reverted_first(c);
    assert(f(order[i] as int, order[j] as int));
    let a = c[order[i] as int];
    let b = c[order[j] as int];
    assert(order[i] < c.len() && order[j] < c.len());
    assert(a.total > 0 && b.total > 0);
    assert(arranged(c, order)[i] == a);
}

/// Whether an entry says that one author dominates a busy file: it is a hotspot,
/// the authors have at least five commits in all, and one has at least 80% of
/// them.
pub open spec fn is_dominated(
    x: OwnedView,
    f: FileAuthors,
    freqs: Seq<Frequency>,
    hotspots: Seq<Seq<char>>,
) -> bool {
    &&& hotspots.contains(f.path@)
    &&& x.path == f.path@
    &&& x.total == commits_of(f.authors@, f.authors@.len() as int)
    &&& x.total >= 5
    &&& x.top * 100 >= x.total * 80
    &&& exists|k: int|
        0 <= k < f.authors@.len() && (#[trigger] f.authors@[k]).author@ == x.author && x.top
            == f.authors@[k].count
    &&& frequency_of(freqs, f.path@) matches Some(n) ==> x.shown_total == n
    &&& frequency_of(freqs, f.path@) is None ==> x.shown_total == x.top
}

/// The busy files that one author dominates are found with that author, and no
/// others.
pub proof fn law_dominated_files_are_found(s: GitSignals)
    ensures
        forall|k: int|
            0 <= k < all_silos(s).len() ==> exists|j: int|
                0 <= j < s.author_commit_counts@.len() && is_dominated(
                    #[trigger] all_silos(s)[k],
                    #[trigger] s.author_commit_counts@[j],
                    s.change_frequency@,
                    text::texts(s.hotspot_files@),
                ),
        forall|j: int, x: OwnedView|
            0 <= j < s.author_commit_counts@.len() && #[trigger] is_dominated(
                x,
                s.author_commit_counts@[j],
                s.change_frequency@,
                text::texts(s.hotspot_files@),
            ) ==> all_silos(s).contains(x),
{
    let v = s.author_commit_counts@;
    let n = v.len() as int;
    let freqs = s.change_frequency@;
    let hot = text::texts(s.hotspot_files@);
    assert forall|k: int| 0 <= k < all_silos(s).len() implies exists|j: int|
        0 <= j < v.len() && is_dominated(#[trigger] all_silos(s)[k], #[trigger] v[j], freqs, hot) by {
        let j = lemma_silo_source(v, freqs, hot, n, k);
        assert(is_dominated(all_silos(s)[k], v[j], freqs, hot));
    }
    assert forall|j: int, x: OwnedView|
        0 <= j < v.len() && #[trigger] is_dominated(x, v[j], freqs, hot) implies all_silos(
        s,
    ).contains(x) by {
        lemma_silo_is_found(v, freqs, hot, n, j, x);
    }
}

proof fn lemma_silo_source(
    v: Seq<FileAuthors>,
    freqs: Seq<Frequency>,
    hot: Seq<Seq<char>>,
    n: int,
    k: int,
) -> (j: int)
    requires
        0 <= n <= v.len(),
        0 <= k < silos(v, freqs, hot, n).len(),
    ensures
        0 <= j < n,
        is_dominated(silos(v, freqs, hot, n)[k], v[j], freqs, hot),
    decreases n,
{
    let before = silos(v, freqs, hot, n - 1);
    if n > 0 && k < before.len() {
        lemma_silo_source(v, freqs, hot, n - 1, k)
    } else {
        let a = v[n - 1].authors@;
        lemma_top_is_largest(a, a.len() as int);
        let t = top_of(a, a.len() as int);
        let x = silos(v, freqs, hot, n)[k];
        assert(v[n - 1].authors@[t].author@ == x.author && x.top == v[n - 1].authors@[t].count);
        n - 1
    }
}

proof fn lemma_silo_is_found(
    v: Seq<FileAuthors>,
    freqs: Seq<Frequency>,
    hot: Seq<Seq<char>>,
    n: int,
    j: int,
    x: OwnedView,
)
    requires
        0 <= j < n <= v.len(),
        is_dominated(x, v[j], freqs, hot),
    ensures
        silos(v, freqs, hot, n).contains(x),
    decreases n,
{
    let before = silos(v, freqs, hot, n - 1);
    let all = silos(v, freqs, hot, n);
    if j < n - 1 {
        lemma_silo_is_found(v, freqs, hot, n - 1, j, x);
        let k = choose|k: int| 0 <= k < before.len() && before[k] == x;
        assert(all[k] == x);
    } else {
        let a = v[j].authors@;
        let t = top_of(a, a.len() as int);
        let k = choose|k: int|
            0 <= k < a.len() && (#[trigger] a[k]).author@ == x.author && x.top == a[k].count;
        lemma_top_is_largest(a, a.len() as int);
        assert(a[k].count <= a[t].count);
        if k != t {
            law_dominant_author_is_unique(a, k);
            if k < t {
                lemma_two_authors(a, k, t, a.len() as int);
            } else {
                lemma_two_authors(a, t, k, a.len() as int);
            }
        }
        assert(k == t);
        assert(all.last() =~= x);
        assert(all[all.len() - 1] == x);
    }
}

/// The gotchas on dominated files, one for each, come with the highest share
/// first, and among equal shares in the order of their paths. Each names the
/// author; none counts as confirmed.
pub proof fn law_most_dominated_comes_first(
    c: Seq<OwnedView>,
    order: Seq<usize>,
    start: nat,
    now: nat,
    r: Seq<StubView>,
    i: int,
    j: int,
)
    requires
        are_ownership_gotchas(c, order, start, now, r),
        forall|k: int| 0 <= k < c.len() ==> (#[trigger] c[k]).total > 0,
        0 <= i < j < r.len(),
    ensures
        r.len() == c.len(),
        ({
            let a = c[order[i] as int];
            let b = c[order[j] as int];
            &&& r[i].key == "gotcha:ownership:"@ + a.path && r[i].source_path == a.path
            &&& !r[i].confirmed
            &&& text::text_contains(r[i].rule, a.author)
            &&& a.top * b.total >= b.top * a.total
            &&& a.top * b.total == b.top * a.total ==> !text::text_less(b.path, a.path)
        }),
{
    let f = owned_first(c);
    assert(f(order[i] as int, order[j] as int));
    let a = c[order[i] as int];
    let b = c[order[j] as int];
    assert(order[i] < c.len() && order[j] < c.len());
    assert(a.total > 0 && b.total > 0);
    assert(arranged(c, order)[i] == a);
    let h = text::dec(percent_of(a.top, a.total)) + "% of commits by "@;
    let n = h.len() as int;
    assert(r[i].rule.subrange(n, n + a.author.len()) =~= a.author);
    assert(text::occurs_at(r[i].rule, a.author, n));
}

} // verus!
