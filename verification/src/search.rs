//! Keyword search over the knowledge base: terms, scores and the ranking of the
//! records that match.
use vstd::prelude::*;
use crate::json;
use crate::ranking;
use crate::ranking::Ranked;
use crate::record::Category;
use crate::text;

verus! {

/// Arguments of `mati search`.
#[derive(Debug, PartialEq, Eq)]
pub struct SearchArgs {
    pub query: Vec<String>,
    pub limit: usize,
    pub category: Option<String>,
    pub json: bool,
}

/// The prefixes of the keys that are searched.
pub open spec fn record_prefixes() -> Seq<Seq<char>> {
    seq!["gotcha:"@, "decision:"@, "dev_note:"@, "file:"@, "stage:"@]
}

fn all_prefixes() -> (r: Vec<String>)
    ensures
        text::texts(r@) == record_prefixes(),
{
    let mut v: Vec<String> = Vec::new();
    text::push_line(&mut v, "gotcha:".to_owned());
    text::push_line(&mut v, "decision:".to_owned());
    text::push_line(&mut v, "dev_note:".to_owned());
    text::push_line(&mut v, "file:".to_owned());
    text::push_line(&mut v, "stage:".to_owned());
    assert(text::texts(v@) =~= record_prefixes());
    v
}

pub open spec fn trim_colons(s: Seq<char>) -> Seq<char>
    decreases s.len(),
{
    if s.len() > 0 && s.last() == ':' {
        trim_colons(s.drop_last())
    } else {
        s
    }
}

/// A text without the colons at its end.
pub fn without_colons(s: &str) -> (r: &str)
    ensures
        r@ == trim_colons(s@),
{
    let v = text::chars(s);
    let mut n: usize = v.len();
    assert(s@.take(n as int) =~= s@);
    while n > 0 && v[n - 1] == ':'
        invariant
            v@ == s@,
            n <= v.len(),
            trim_colons(s@) == trim_colons(s@.take(n as int)),
        decreases n,
    {
        assert(s@.take(n as int).drop_last() =~= s@.take(n - 1));
        n = n - 1;
    }
    assert(s@.subrange(0, n as int) =~= s@.take(n as int));
    s.substring_char(0, n)
}

/// The prefixes that a search goes through: all of them, or that of the category
/// asked for. `None` where there is no such category.
pub open spec fn searched_prefixes(category: Option<Seq<char>>) -> Option<Seq<Seq<char>>> {
    match category {
        None => Some(record_prefixes()),
        Some(c) => {
            let p = trim_colons(c) + ":"@;
            if record_prefixes().contains(p) {
                Some(seq![p])
            } else {
                None
            }
        },
    }
}

/// The view of an optional slice.
pub open spec fn opt_str(s: Option<&str>) -> Option<Seq<char>> {
    match s {
        Some(t) => Some(t@),
        None => None,
    }
}

/// The message for an unknown category.
pub open spec fn unknown_category(c: Seq<char>) -> Seq<char> {
    "unknown category '"@ + c + "' (expected one of: gotcha, decision, dev_note, file, stage)"@
}

pub fn resolve_prefixes(category: Option<&str>) -> (r: Result<Vec<String>, String>)
    ensures
        match r {
            Ok(v) => searched_prefixes(opt_str(category)) == Some(text::texts(v@)),
            Err(m) => {
                &&& searched_prefixes(opt_str(category)) is None
                &&& category is Some
                &&& m@ == unknown_category(category->0@)
            },
        },
{
    match category {
        None => Ok(all_prefixes()),
        Some(c) => {
            let p = without_colons(c).to_owned().concat(":");
            let all = all_prefixes();
            if text::list_contains(&all, p.as_str()) {
                let mut v: Vec<String> = Vec::new();
                let ghost q = p@;
                text::push_line(&mut v, p);
                assert(text::texts(v@) =~= seq![q]);
                Ok(v)
            } else {
                Err(
                    "unknown category '".to_owned().concat(c).concat(
                        "' (expected one of: gotcha, decision, dev_note, file, stage)",
                    ),
                )
            }
        },
    }
}

/// The lower-case forms of a list of texts.
pub open spec fn lowered(s: Seq<Seq<char>>) -> Seq<Seq<char>> {
    s.map_values(|t: Seq<char>| text::lowercased(t))
}

/// The words of the query in lower case.
pub open spec fn terms_of(query: Seq<Seq<char>>) -> Seq<Seq<char>>
    decreases query.len(),
{
    if query.len() == 0 {
        Seq::empty()
    } else {
        terms_of(query.drop_last()) + lowered(text::words_of(query.last()))
    }
}

pub fn search_terms(query: &Vec<String>) -> (r: Vec<String>)
    ensures
        text::texts(r@) == terms_of(text::texts(query@)),
{
    let ghost all = text::texts(query@);
    let mut out: Vec<String> = Vec::new();
    let mut i: usize = 0;
    assert(all.take(0) =~= Seq::<Seq<char>>::empty());
    while i < query.len()
        invariant
            i <= query.len(),
            all == text::texts(query@),
            text::texts(out@) =~= terms_of(all.take(i as int)),
        decreases query.len() - i,
    {
        assert(all.take(i + 1).drop_last() =~= all.take(i as int));
        let ws = text::words(query[i].as_str());
        let ghost w = text::texts(ws@);
        let ghost head = text::texts(out@);
        let mut k: usize = 0;
        while k < ws.len()
            invariant
                k <= ws.len(),
                w == text::texts(ws@),
                text::texts(out@) =~= head + lowered(w.take(k as int)),
            decreases ws.len() - k,
        {
            assert(w.take(k + 1) =~= w.take(k as int).push(w[k as int]));
            text::push_line(&mut out, ws[k].to_lowercase());
            k = k + 1;
        }
        assert(w.take(k as int) =~= w);
        i = i + 1;
    }
    assert(all.take(i as int) =~= all);
    out
}

// ---------------------------------------------------------------------------
// Scores
// ---------------------------------------------------------------------------

/// How often `needle` occurs in `s`, counted from the left without overlap. The
/// empty text does not occur.
pub open spec fn occurrences(s: Seq<char>, needle: Seq<char>) -> nat
    decreases s.len(),
{
    if needle.len() == 0 || s.len() < needle.len() {
        0
    } else if text::occurs_at(s, needle, 0) {
        1 + occurrences(s.skip(needle.len() as int), needle)
    } else {
        occurrences(s.skip(1), needle)
    }
}

/// A number, or the largest `u32` where it is larger.
pub open spec fn capped(n: int) -> u32 {
    if n > u32::MAX {
        u32::MAX
    } else {
        n as u32
    }
}

proof fn lemma_occurrences_skip(s: Seq<char>, needle: Seq<char>, from: int, to: int)
    requires
        needle.len() > 0,
        0 <= from <= to <= s.len(),
        forall|j: int| from <= j < to ==> !text::occurs_at(s, needle, j),
    ensures
        occurrences(s.skip(from), needle) == occurrences(s.skip(to), needle),
    decreases to - from,
{
    if from < to {
        let t = s.skip(from);
        assert(!text::occurs_at(s, needle, from));
        if t.len() >= needle.len() {
            assert(t.subrange(0, needle.len() as int) =~= s.subrange(from, from + needle.len()));
            assert(t.subrange(0, 0int + needle.len()) =~= t.subrange(0, needle.len() as int));
            assert(!text::occurs_at(t, needle, 0));
            assert(t.skip(1) =~= s.skip(from + 1));
            lemma_occurrences_skip(s, needle, from + 1, to);
        } else {
            assert(s.skip(to).len() < needle.len());
        }
    }
}

pub fn count_occurrences(haystack: &str, needle: &str) -> (r: u32)
    ensures
        r == capped(occurrences(haystack@, needle@) as int),
{
    let v = text::chars(haystack);
    let w = text::chars(needle);
    if w.len() == 0 {
        return 0;
    }
    let mut n: u32 = 0;
    let ghost mut exact: nat = 0;
    let mut i: usize = 0;
    let ghost total = occurrences(haystack@, needle@);
    assert(v@.skip(0) =~= v@);
    while i <= v.len()
        invariant
            v@ == haystack@,
            w@ == needle@,
            w.len() > 0,
            i <= v.len() + 1,
            n == capped(exact as int),
            total == occurrences(haystack@, needle@),
            i <= v.len() ==> exact + occurrences(v@.skip(i as int), w@) == total,
            i > v.len() ==> exact == total,
        decreases v.len() + 1 - i,
    {
        match text::find_from(&v, &w, i) {
            Some(k) => {
                proof {
                    lemma_occurrences_skip(v@, w@, i as int, k as int);
                    let t = v@.skip(k as int);
                    assert(t.subrange(0, w@.len() as int) =~= v@.subrange(k as int, k + w@.len()));
                    assert(t.subrange(0, 0int + w@.len()) =~= t.subrange(0, w@.len() as int));
                    assert(text::occurs_at(t, w@, 0));
                    assert(t.skip(w@.len() as int) =~= v@.skip(k + w@.len()));
                    exact = exact + 1;
                }
                n = n.saturating_add(1);
                i = k + w.len();
            },
            None => {
                proof {
                    lemma_occurrences_skip(v@, w@, i as int, v@.len() as int);
                    assert(v@.skip(v@.len() as int).len() == 0);
                }
                return n;
            },
        }
    }
    n
}

/// What a search looks at in a record.
#[derive(Debug, PartialEq, Eq)]
pub struct Searchable {
    pub key: String,
    pub value: String,
    pub tags: Vec<String>,
    pub category: Category,
}

/// What one term adds: 3 for each occurrence in the key, 2 in the body, 1 in the
/// tags, and 5 if it occurs at all.
pub open spec fn term_score(
    key: Seq<char>,
    value: Seq<char>,
    tags: Seq<char>,
    term: Seq<char>,
) -> int {
    let k = occurrences(key, term);
    let v = occurrences(value, term);
    let t = occurrences(tags, term);
    if k + v + t > 0 {
        (k * 3 + v * 2 + t + 5) as int
    } else {
        0
    }
}

/// The score of a record: the sum over the terms.
pub open spec fn score_of(
    key: Seq<char>,
    value: Seq<char>,
    tags: Seq<char>,
    terms: Seq<Seq<char>>,
) -> int
    decreases terms.len(),
{
    if terms.len() == 0 {
        0
    } else {
        score_of(key, value, tags, terms.drop_last()) + term_score(key, value, tags, terms.last())
    }
}

/// The score of a record for terms in lower case.
pub open spec fn record_score(r: Searchable, terms: Seq<Seq<char>>) -> int {
    score_of(
        text::lowercased(r.key@),
        text::lowercased(r.value@),
        text::lowercased(text::joined(text::texts(r.tags@), " "@)),
        terms,
    )
}

/// A record scores above 0 exactly if a term occurs in it.
pub proof fn law_score_is_zero_without_match(
    key: Seq<char>,
    value: Seq<char>,
    tags: Seq<char>,
    terms: Seq<Seq<char>>,
)
    ensures
        score_of(key, value, tags, terms) >= 0,
        score_of(key, value, tags, terms) == 0 <==> forall|i: int|
            0 <= i < terms.len() ==> occurrences(key, #[trigger] terms[i]) == 0 && occurrences(
                value,
                terms[i],
            ) == 0 && occurrences(tags, terms[i]) == 0,
    decreases terms.len(),
{
    if terms.len() > 0 {
        let init = terms.drop_last();
        law_score_is_zero_without_match(key, value, tags, init);
        if score_of(key, value, tags, terms) == 0 {
            assert forall|i: int| 0 <= i < terms.len() implies occurrences(key, #[trigger] terms[i])
                == 0 && occurrences(value, terms[i]) == 0 && occurrences(tags, terms[i]) == 0 by {
                if i < init.len() {
                    assert(init[i] == terms[i]);
                }
            }
        }
        if forall|i: int|
            0 <= i < terms.len() ==> occurrences(key, #[trigger] terms[i]) == 0 && occurrences(
                value,
                terms[i],
            ) == 0 && occurrences(tags, terms[i]) == 0 {
            assert forall|i: int| 0 <= i < init.len() implies occurrences(key, #[trigger] init[i])
                == 0 && occurrences(value, init[i]) == 0 && occurrences(tags, init[i]) == 0 by {
                assert(init[i] == terms[i]);
            }
            assert(occurrences(key, terms[terms.len() - 1]) == 0);
        }
    }
}

proof fn lemma_score_grows(
    key: Seq<char>,
    value: Seq<char>,
    tags: Seq<char>,
    terms: Seq<Seq<char>>,
    i: int,
)
    requires
        0 <= i <= terms.len(),
    ensures
        0 <= score_of(key, value, tags, terms.take(i)) <= score_of(key, value, tags, terms),
    decreases terms.len(),
{
    law_score_is_zero_without_match(key, value, tags, terms);
    if i == terms.len() {
        assert(terms.take(i) =~= terms);
    } else {
        lemma_score_grows(key, value, tags, terms.drop_last(), i);
        assert(terms.drop_last().take(i) =~= terms.take(i));
    }
}

/// Scores texts that are in lower case already.
pub fn score_lowered(key: &str, value: &str, tags: &str, terms: &Vec<String>) -> (r: u32)
    ensures
        r == capped(score_of(key@, value@, tags@, text::texts(terms@))),
{
    let ghost all = text::texts(terms@);
    let mut total: u32 = 0;
    let mut i: usize = 0;
    assert(all.take(0) =~= Seq::<Seq<char>>::empty());
    while i < terms.len()
        invariant
            i <= terms.len(),
            all == text::texts(terms@),
            total == capped(score_of(key@, value@, tags@, all.take(i as int))),
            score_of(key@, value@, tags@, all.take(i as int)) >= 0,
        decreases terms.len() - i,
    {
        proof {
            assert(all.take(i + 1).drop_last() =~= all.take(i as int));
            assert(all.take(i + 1).last() == terms@[i as int]@);
            lemma_score_grows(key@, value@, tags@, all, i + 1);
        }
        let term = terms[i].as_str();
        let k: u64 = count_occurrences(key, term) as u64;
        let v: u64 = count_occurrences(value, term) as u64;
        let t: u64 = count_occurrences(tags, term) as u64;
        if k + v + t > 0 {
            let sum: u64 = total as u64 + k * 3 + v * 2 + t + 5;
            total = if sum > u32::MAX as u64 {
                u32::MAX
            } else {
                sum as u32
            };
        }
        i = i + 1;
    }
    assert(all.take(i as int) =~= all);
    total
}

/// The score of a record; 0 leaves it out of the results.
pub fn score(record: &Searchable, terms: &Vec<String>) -> (r: u32)
    ensures
        r == capped(record_score(*record, text::texts(terms@))),
{
    let key = record.key.to_lowercase();
    let value = record.value.to_lowercase();
    let tags = text::join(&record.tags, " ").to_lowercase();
    score_lowered(key.as_str(), value.as_str(), tags.as_str(), terms)
}

// ---------------------------------------------------------------------------
// Ranking
// ---------------------------------------------------------------------------

/// A record that matches: its score, its key and its position.
#[derive(Debug, PartialEq, Eq)]
pub struct Hit {
    pub score: u32,
    pub key: String,
    pub index: usize,
}

/// Higher scores first; equal ones in the order of their keys.
impl Ranked for Hit {
    open spec fn le(&self, other: &Hit) -> bool {
        self.score > other.score || (self.score == other.score && !text::text_less(
            other.key@,
            self.key@,
        ))
    }

    proof fn le_total(a: &Hit, b: &Hit) {
        if text::text_less(b.key@, a.key@) {
            text::lemma_text_less_asymmetric(b.key@, a.key@);
        }
    }

    proof fn le_transitive(a: &Hit, b: &Hit, c: &Hit) {
        if a.score == b.score && b.score == c.score && text::text_less(c.key@, a.key@) {
            text::lemma_text_less_total(a.key@, b.key@);
            if text::text_less(a.key@, b.key@) {
                text::lemma_text_less_transitive(c.key@, a.key@, b.key@);
            }
        }
    }

    fn may_precede(&self, other: &Hit) -> (r: bool) {
        self.score > other.score || (self.score == other.score && !text::less(
            other.key.as_str(),
            self.key.as_str(),
        ))
    }
}

/// The score of the record at a position.
pub open spec fn score_at(records: Seq<Searchable>, terms: Seq<Seq<char>>, i: int) -> u32 {
    capped(record_score(records[i], terms))
}

/// The record at `a` comes before the one at `b` in the results: by score, then
/// by key, then by position.
pub open spec fn outranks(records: Seq<Searchable>, terms: Seq<Seq<char>>, a: int, b: int) -> bool {
    let x = score_at(records, terms, a);
    let y = score_at(records, terms, b);
    x > y || (x == y && (text::text_less(records[a].key@, records[b].key@) || (records[a].key@
        == records[b].key@ && a < b)))
}

/// The record at `x` is among the results, or they are full and all come first.
pub open spec fn accounted(
    records: Seq<Searchable>,
    terms: Seq<Seq<char>>,
    limit: nat,
    hits: Seq<Hit>,
    x: int,
) -> bool {
    ||| exists|i: int| 0 <= i < hits.len() && (#[trigger] hits[i]).index == x
    ||| hits.len() == limit && forall|i: int|
        0 <= i < hits.len() ==> outranks(records, terms, (#[trigger] hits[i]).index as int, x)
}

/// A result states the score and the key of its record.
pub open spec fn is_hit(records: Seq<Searchable>, terms: Seq<Seq<char>>, h: Hit) -> bool {
    &&& h.index < records.len()
    &&& h.score == score_at(records, terms, h.index as int)
    &&& h.key@ == records[h.index as int].key@
}

/// The results of a search: records with a score above 0, best first, at most
/// `limit`, and none left out that comes before one of them.
pub open spec fn are_results(
    records: Seq<Searchable>,
    terms: Seq<Seq<char>>,
    limit: nat,
    hits: Seq<Hit>,
) -> bool {
    &&& hits.len() <= limit
    &&& forall|i: int|
        0 <= i < hits.len() ==> is_hit(records, terms, #[trigger] hits[i]) && hits[i].score > 0
    &&& forall|i: int, j: int|
        0 <= i < j < hits.len() ==> outranks(
            records,
            terms,
            (#[trigger] hits[i]).index as int,
            (#[trigger] hits[j]).index as int,
        )
    &&& forall|x: int|
        0 <= x < records.len() && score_at(records, terms, x) > 0 ==> #[trigger] accounted(
            records,
            terms,
            limit,
            hits,
            x,
        )
}

proof fn lemma_hit_order(
    records: Seq<Searchable>,
    terms: Seq<Seq<char>>,
    all: Seq<Hit>,
    a: int,
    b: int,
)
    requires
        all.len() == records.len(),
        forall|i: int|
            0 <= i < all.len() ==> is_hit(records, terms, #[trigger] all[i]) && all[i].index == i,
        0 <= a < all.len(),
        0 <= b < all.len(),
        ranking::comes_first(all, a, b),
    ensures
        outranks(records, terms, a, b),
{
    let x = all[a];
    let y = all[b];
    assert(is_hit(records, terms, x) && is_hit(records, terms, y));
    if x.score == y.score {
        text::lemma_text_less_total(x.key@, y.key@);
        if x.key@ == y.key@ {
            text::lemma_text_less_irreflexive(x.key@);
        }
    }
}

/// Searches a list of records.
pub fn search(records: &Vec<Searchable>, terms: &Vec<String>, limit: usize) -> (r: Vec<Hit>)
    ensures
        are_results(records@, text::texts(terms@), limit as nat, r@),
{
    let ghost ts = text::texts(terms@);
    let mut all: Vec<Hit> = Vec::new();
    let mut keep: Vec<bool> = Vec::new();
    let mut i: usize = 0;
    while i < records.len()
        invariant
            i <= records.len(),
            ts == text::texts(terms@),
            all.len() == i,
            keep.len() == i,
            forall|k: int|
                0 <= k < i ==> is_hit(records@, ts, #[trigger] all@[k]) && all@[k].index == k,
            forall|k: int| 0 <= k < i ==> #[trigger] keep@[k] == (score_at(records@, ts, k) > 0),
        decreases records.len() - i,
    {
        let s = score(&records[i], terms);
        all.push(Hit { score: s, key: records[i].key.clone(), index: i });
        keep.push(s > 0);
        i = i + 1;
    }
    let order = ranking::pick(&all, &keep, limit);
    let mut out: Vec<Hit> = Vec::new();
    let mut j: usize = 0;
    while j < order.len()
        invariant
            j <= order.len(),
            all.len() == records.len(),
            ranking::is_pick(all@, keep@, limit as nat, order@),
            forall|k: int|
                0 <= k < all@.len() ==> is_hit(records@, ts, #[trigger] all@[k]) && all@[k].index
                    == k,
            out@.len() == j,
            forall|k: int|
                0 <= k < j ==> is_hit(records@, ts, #[trigger] out@[k]) && out@[k].index
                    == order@[k],
        decreases order.len() - j,
    {
        let h = &all[order[j]];
        out.push(Hit { score: h.score, key: h.key.clone(), index: h.index });
        j = j + 1;
    }
    proof {
        assert forall|i: int| 0 <= i < out@.len() implies is_hit(records@, ts, #[trigger] out@[i])
            && out@[i].score > 0 by {
            assert(keep@[order@[i] as int]);
        }
        assert forall|i: int, j: int| 0 <= i < j < out@.len() implies outranks(
            records@,
            ts,
            (#[trigger] out@[i]).index as int,
            (#[trigger] out@[j]).index as int,
        ) by {
            lemma_hit_order(records@, ts, all@, order@[i] as int, order@[j] as int);
        }
        assert forall|x: int|
            0 <= x < records@.len() && score_at(records@, ts, x) > 0 implies #[trigger] accounted(
            records@,
            ts,
            limit as nat,
            out@,
            x,
        ) by {
            assert(keep@[x]);
            if order@.contains(x as usize) {
                let i = choose|i: int| 0 <= i < order@.len() && order@[i] == x as usize;
                assert(out@[i].index == x);
            } else {
                assert forall|i: int| 0 <= i < out@.len() implies outranks(
                    records@,
                    ts,
                    (#[trigger] out@[i]).index as int,
                    x,
                ) by {
                    assert(ranking::comes_first(all@, order@[i] as int, x));
                    lemma_hit_order(records@, ts, all@, order@[i] as int, x);
                }
            }
        }
    }
    out
}

// ---------------------------------------------------------------------------
// Display
// ---------------------------------------------------------------------------

/// A text on one line in at most `max` characters.
pub open spec fn snippet_of(s: Seq<char>, max: nat) -> Seq<char> {
    let t = text::trimmed(text::replaced(s, '\n', " "@));
    if t.len() <= max {
        t
    } else if max == 0 {
        Seq::empty()
    } else {
        t.take(max - 1) + "\u{2026}"@
    }
}

pub fn snippet(s: &str, max: usize) -> (r: String)
    ensures
        r@ == snippet_of(s@, max as nat),
        r@.len() <= max,
        !r@.contains('\n'),
{
    let one_line = text::replace(s, '\n', " ");
    let t = text::trim(one_line.as_str());
    let n = t.as_str().unicode_len();
    proof {
        reveal_strlit("\u{2026}");
        reveal_strlit(" ");
        text::lemma_replaced_away(s@, '\n', " "@);
        text::lemma_trimmed_is_part(one_line@, '\n');
    }
    if n <= max {
        return t;
    }
    if max == 0 {
        let none = String::new();
        assert(none@ =~= Seq::<char>::empty());
        return none;
    }
    assert(t@.subrange(0, max - 1) =~= t@.take(max - 1));
    let r = t.as_str().substring_char(0, max - 1).to_owned().concat("\u{2026}");
    assert forall|i: int| 0 <= i < r@.len() implies r@[i] != '\n' by {
        if i < max - 1 {
            assert(t@.contains(t@[i]));
        }
    }
    r
}

/// The name of a category in the results.
pub open spec fn result_category(c: Category) -> Seq<char> {
    match c {
        Category::Gotcha => "gotcha"@,
        Category::File => "file"@,
        Category::Decision => "decision"@,
        Category::Stage => "stage"@,
        Category::Dependency => "dependency"@,
        Category::DevNote => "note"@,
        Category::Session => "session"@,
        Category::Analytics => "analytics"@,
    }
}

pub fn category_label(c: &Category) -> (r: &'static str)
    ensures
        r@ == result_category(*c),
{
    match c {
        Category::Gotcha => "gotcha",
        Category::File => "file",
        Category::Decision => "decision",
        Category::Stage => "stage",
        Category::Dependency => "dependency",
        Category::DevNote => "note",
        Category::Session => "session",
        Category::Analytics => "analytics",
    }
}

/// The two lines that show one result.
pub open spec fn hit_lines(key: Seq<char>, r: Searchable, score: u32) -> Seq<Seq<char>> {
    seq![
        "  "@ + text::padded_right(key, 42) + " ["@ + result_category(r.category) + "]"@,
        "      "@ + snippet_of(r.value@, 100) + "  (score "@ + text::dec(score as nat) + ")"@,
    ]
}

/// The lines of the first `n` results.
pub open spec fn hits_lines(records: Seq<Searchable>, hits: Seq<Hit>, n: int) -> Seq<Seq<char>>
    decreases n,
{
    if n <= 0 {
        Seq::empty()
    } else {
        let h = hits[n - 1];
        hits_lines(records, hits, n - 1) + hit_lines(h.key@, records[h.index as int], h.score)
    }
}

/// What a search prints.
pub open spec fn result_lines(
    records: Seq<Searchable>,
    terms: Seq<Seq<char>>,
    hits: Seq<Hit>,
) -> Seq<Seq<char>> {
    if hits.len() == 0 {
        seq!["No matches for \""@ + text::joined(terms, " "@) + "\"."@]
    } else {
        seq![
            text::dec(hits.len()) + " result(s) for \""@ + text::joined(terms, " "@) + "\":"@,
            ""@,
        ] + hits_lines(records, hits, hits.len() as int)
    }
}

pub fn render(records: &Vec<Searchable>, terms: &Vec<String>, hits: &Vec<Hit>) -> (r: Vec<String>)
    requires
        forall|i: int| 0 <= i < hits@.len() ==> (#[trigger] hits@[i]).index < records@.len(),
    ensures
        text::texts(r@) == result_lines(records@, text::texts(terms@), hits@),
{
    let joined = text::join(terms, " ");
    let mut out: Vec<String> = Vec::new();
    if hits.is_empty() {
        text::push_line(
            &mut out,
            "No matches for \"".to_owned().concat(joined.as_str()).concat("\"."),
        );
        assert(text::texts(out@) =~= result_lines(records@, text::texts(terms@), hits@));
        return out;
    }
    text::push_line(
        &mut out,
        text::decimal(hits.len() as u64).concat(" result(s) for \"").concat(
            joined.as_str(),
        ).concat("\":"),
    );
    text::push_line(&mut out, "".to_owned());
    let ghost head = text::texts(out@);
    let mut i: usize = 0;
    assert(head + hits_lines(records@, hits@, 0) =~= head);
    while i < hits.len()
        invariant
            i <= hits.len(),
            forall|k: int| 0 <= k < hits@.len() ==> (#[trigger] hits@[k]).index < records@.len(),
            text::texts(out@) =~= head + hits_lines(records@, hits@, i as int),
        decreases hits.len() - i,
    {
        let h = &hits[i];
        let r = &records[h.index];
        text::push_line(
            &mut out,
            "  ".to_owned().concat(text::pad_right(h.key.as_str(), 42).as_str()).concat(
                " [",
            ).concat(category_label(&r.category)).concat("]"),
        );
        text::push_line(
            &mut out,
            "      ".to_owned().concat(snippet(r.value.as_str(), 100).as_str()).concat(
                "  (score ",
            ).concat(text::decimal(h.score as u64).as_str()).concat(")"),
        );
        i = i + 1;
    }
    assert(text::texts(out@) =~= result_lines(records@, text::texts(terms@), hits@));
    out
}

/// What a search looks for, and where.
#[derive(Debug, PartialEq, Eq)]
pub struct SearchPlan {
    pub terms: Vec<String>,
    pub prefixes: Vec<String>,
}

/// The terms and the prefixes of a search. There must be a term.
pub fn plan_search(args: &SearchArgs) -> (r: Result<SearchPlan, String>)
    ensures
        ({
            let terms = terms_of(text::texts(args.query@));
            let category = json::opt_text(args.category);
            match r {
                Ok(p) => {
                    &&& terms.len() > 0
                    &&& text::texts(p.terms@) == terms
                    &&& searched_prefixes(category) == Some(text::texts(p.prefixes@))
                },
                Err(m) => if terms.len() == 0 {
                    m@ == "provide one or more search terms, e.g. `mati search fraud check`"@
                } else {
                    category matches Some(c) && searched_prefixes(category) is None && m@
                        == unknown_category(c)
                },
            }
        }),
{
    let terms = search_terms(&args.query);
    assert(text::texts(terms@).len() == terms@.len());
    if terms.is_empty() {
        return Err(
            "provide one or more search terms, e.g. `mati search fraud check`".to_owned(),
        );
    }
    let category: Option<&str> = match &args.category {
        Some(c) => Some(c.as_str()),
        None => None,
    };
    match resolve_prefixes(category) {
        Ok(prefixes) => Ok(SearchPlan { terms, prefixes }),
        Err(m) => Err(m),
    }
}

// ---------------------------------------------------------------------------
// What a search is for
// ---------------------------------------------------------------------------

proof fn lemma_occurs_in_rest(s: Seq<char>, needle: Seq<char>, i: int)
    requires
        text::occurs_at(s, needle, i),
        i > 0,
    ensures
        text::text_contains(s.skip(1), needle),
{
    assert(s.skip(1).subrange(i - 1, i - 1 + needle.len()) =~= s.subrange(i, i + needle.len()));
    assert(text::occurs_at(s.skip(1), needle, i - 1));
}

/// A term is counted exactly where the text contains it, and each time it stands in
/// front counts once.
pub proof fn law_occurrences_are_counted(s: Seq<char>, needle: Seq<char>)
    requires
        needle.len() > 0,
    ensures
        occurrences(s, needle) > 0 <==> text::text_contains(s, needle),
        occurrences(needle + s, needle) == 1 + occurrences(s, needle),
        occurrences(s, needle) * needle.len() <= s.len(),
    decreases s.len(),
{
    let w = needle + s;
    assert(w.subrange(0, needle.len() as int) =~= needle);
    assert(w.skip(needle.len() as int) =~= s);
    if s.len() >= needle.len() {
        if text::occurs_at(s, needle, 0) {
            let rest = s.skip(needle.len() as int);
            law_occurrences_are_counted(rest, needle);
            let k = occurrences(rest, needle);
            assert((1 + k) * needle.len() == needle.len() + k * needle.len()) by (nonlinear_arith);
        } else {
            let rest = s.skip(1);
            law_occurrences_are_counted(rest, needle);
            if text::text_contains(s, needle) {
                let i = choose|i: int| text::occurs_at(s, needle, i);
                lemma_occurs_in_rest(s, needle, i);
            }
            if text::text_contains(rest, needle) {
                let i = choose|i: int| text::occurs_at(rest, needle, i);
                assert(s.subrange(i + 1, i + 1 + needle.len()) =~= rest.subrange(
                    i,
                    i + needle.len(),
                ));
                assert(text::occurs_at(s, needle, i + 1));
            }
        }
    } else {
        if text::text_contains(s, needle) {
            let i = choose|i: int| text::occurs_at(s, needle, i);
        }
        assert(0 * needle.len() == 0) by (nonlinear_arith);
    }
}

/// Whether a term stands in the key, the text or the tags of a record, in lower
/// case.
pub open spec fn mentions(r: Searchable, term: Seq<char>) -> bool {
    ||| text::text_contains(text::lowercased(r.key@), term)
    ||| text::text_contains(text::lowercased(r.value@), term)
    ||| text::text_contains(
        text::lowercased(text::joined(text::texts(r.tags@), " "@)),
        term,
    )
}

/// What a search brings mentions one of the terms. The best come first, those of
/// one score by key. A record that mentions a term is left out only where the list
/// is full, and then none of those in it scores less.
pub proof fn law_search_brings_the_best_matches(
    records: Seq<Searchable>,
    terms: Seq<Seq<char>>,
    limit: nat,
    hits: Seq<Hit>,
)
    requires
        are_results(records, terms, limit, hits),
        records.len() <= usize::MAX,
        forall|k: int| 0 <= k < terms.len() ==> (#[trigger] terms[k]).len() > 0,
    ensures
        hits.len() <= limit,
        forall|i: int|
            0 <= i < hits.len() ==> (#[trigger] hits[i]).index < records.len() && exists|k: int|
                0 <= k < terms.len() && mentions(
                    records[hits[i].index as int],
                    #[trigger] terms[k],
                ),
        forall|i: int, j: int|
            0 <= i < j < hits.len() ==> (#[trigger] hits[i]).index != (#[trigger] hits[j]).index
                && hits[i].score >= hits[j].score && (hits[i].score == hits[j].score
                ==> !text::text_less(
                records[hits[j].index as int].key@,
                records[hits[i].index as int].key@,
            )),
        forall|x: int, k: int|
            0 <= x < records.len() && 0 <= k < terms.len() && mentions(
                #[trigger] records[x],
                #[trigger] terms[k],
            ) && !(exists|i: int| 0 <= i < hits.len() && (#[trigger] hits[i]).index == x)
                ==> hits.len() == limit && forall|i: int|
                0 <= i < hits.len() ==> (#[trigger] hits[i]).score >= score_at(records, terms, x),
{
    assert forall|x: int| 0 <= x < records.len() implies (#[trigger] score_at(records, terms, x) > 0
        <==> exists|k: int| 0 <= k < terms.len() && mentions(records[x], #[trigger] terms[k])) by {
        lemma_score_mentions(records[x], terms);
    }
    assert forall|i: int| 0 <= i < hits.len() implies (#[trigger] hits[i]).index < records.len()
        && exists|k: int|
        0 <= k < terms.len() && mentions(
            records[hits[i].index as int],
            #[trigger] terms[k],
        ) by {
        assert(is_hit(records, terms, hits[i]));
        assert(score_at(records, terms, hits[i].index as int) > 0);
    }
    assert forall|i: int, j: int| 0 <= i < j < hits.len() implies (#[trigger] hits[i]).index != (
    #[trigger] hits[j]).index && hits[i].score >= hits[j].score && (hits[i].score == hits[j].score
        ==> !text::text_less(
        records[hits[j].index as int].key@,
        records[hits[i].index as int].key@,
    )) by {
        assert(is_hit(records, terms, hits[i]));
        assert(is_hit(records, terms, hits[j]));
        let a = records[hits[i].index as int].key@;
        let b = records[hits[j].index as int].key@;
        assert(outranks(records, terms, hits[i].index as int, hits[j].index as int));
        text::lemma_text_less_irreflexive(a);
        if text::text_less(a, b) {
            text::lemma_text_less_asymmetric(a, b);
        }
    }
    assert forall|x: int, k: int|
        0 <= x < records.len() && 0 <= k < terms.len() && mentions(
            #[trigger] records[x],
            #[trigger] terms[k],
        ) && !(exists|i: int| 0 <= i < hits.len() && (#[trigger] hits[i]).index == x) implies
        hits.len() == limit && forall|i: int|
        0 <= i < hits.len() ==> (#[trigger] hits[i]).score >= score_at(records, terms, x) by {
        assert(score_at(records, terms, x) > 0);
        assert(accounted(records, terms, limit, hits, x));
        assert forall|i: int| 0 <= i < hits.len() implies (#[trigger] hits[i]).score >= score_at(
            records,
            terms,
            x,
        ) by {
            assert(is_hit(records, terms, hits[i]));
            assert(outranks(records, terms, hits[i].index as int, x));
        }
    }
}

proof fn lemma_score_mentions(r: Searchable, terms: Seq<Seq<char>>)
    requires
        forall|k: int| 0 <= k < terms.len() ==> (#[trigger] terms[k]).len() > 0,
    ensures
        capped(record_score(r, terms)) > 0 <==> exists|k: int|
            0 <= k < terms.len() && mentions(r, #[trigger] terms[k]),
{
    let key = text::lowercased(r.key@);
    let value = text::lowercased(r.value@);
    let tags = text::lowercased(text::joined(text::texts(r.tags@), " "@));
    law_score_is_zero_without_match(key, value, tags, terms);
    assert forall|k: int| 0 <= k < terms.len() implies (mentions(r, #[trigger] terms[k]) <==> !(
    occurrences(key, terms[k]) == 0 && occurrences(value, terms[k]) == 0 && occurrences(
        tags,
        terms[k],
    ) == 0)) by {
        law_occurrences_are_counted(key, terms[k]);
        law_occurrences_are_counted(value, terms[k]);
        law_occurrences_are_counted(tags, terms[k]);
    }
}

/// A term that is found adds five, and for each time it stands in the key three more,
/// in the text two, in the tags one. What the terms add is summed up.
pub proof fn law_the_key_weighs_most(
    key: Seq<char>,
    value: Seq<char>,
    tags: Seq<char>,
    terms: Seq<Seq<char>>,
    term: Seq<char>,
)
    requires
        term.len() > 0,
        text::text_contains(tags, term),
    ensures
        ({
            let all = terms.push(term);
            &&& score_of(key, value, tags, all) - score_of(key, value, tags, terms) == 3
                * occurrences(key, term) + 2 * occurrences(value, term) + occurrences(tags, term)
                + 5
            &&& score_of(term + key, value, tags, seq![term]) == score_of(
                key,
                value,
                tags,
                seq![term],
            ) + 3
            &&& score_of(key, term + value, tags, seq![term]) == score_of(
                key,
                value,
                tags,
                seq![term],
            ) + 2
            &&& score_of(key, value, term + tags, seq![term]) == score_of(
                key,
                value,
                tags,
                seq![term],
            ) + 1
        }),
{
    law_occurrences_are_counted(key, term);
    law_occurrences_are_counted(value, term);
    law_occurrences_are_counted(tags, term);
    let all = terms.push(term);
    assert(all.drop_last() =~= terms);
    let one = seq![term];
    let none = Seq::<Seq<char>>::empty();
    assert(one.drop_last() =~= none);
    assert(score_of(key, value, tags, none) == 0);
    assert(score_of(term + key, value, tags, none) == 0);
    assert(score_of(key, term + value, tags, none) == 0);
    assert(score_of(key, value, term + tags, none) == 0);
}

/// The terms of a query are the words of what was entered, each in lower case.
pub proof fn law_terms_are_the_words(query: Seq<Seq<char>>, word: Seq<char>)
    requires
        word.len() > 0,
        forall|i: int| 0 <= i < word.len() ==> !text::is_space(#[trigger] word[i]),
    ensures
        terms_of(query.push(word)) == terms_of(query).push(text::lowercased(word)),
        terms_of(query.push(Seq::empty())) == terms_of(query),
        terms_of(Seq::empty()).len() == 0,
{
    let none = Seq::<char>::empty();
    text::law_words_are_parted_by_space(word, ' ', none);
    text::law_words_are_parted_by_space(none, ' ', none);
    assert(query.push(word).drop_last() =~= query);
    assert(query.push(none).drop_last() =~= query);
    assert(lowered(seq![word]) =~= seq![text::lowercased(word)]);
    assert(lowered(Seq::<Seq<char>>::empty()) =~= Seq::<Seq<char>>::empty());
    assert(terms_of(query.push(word)) =~= terms_of(query).push(text::lowercased(word)));
    assert(terms_of(query.push(none)) =~= terms_of(query));
}

/// A category searches its own namespace alone, with a colon behind it or without;
/// no category searches all five, and another word is refused.
pub proof fn law_category_is_the_namespace(c: Seq<char>)
    requires
        c.len() == 0 || c.last() != ':',
    ensures
        searched_prefixes(Some(c + ":"@)) == searched_prefixes(Some(c)),
        searched_prefixes(Some(c)) is Some <==> c == "gotcha"@ || c == "decision"@ || c
            == "dev_note"@ || c == "file"@ || c == "stage"@,
        searched_prefixes(Some(c)) matches Some(p) ==> p == seq![c + ":"@],
        searched_prefixes(None) matches Some(p) && p.len() == 5 && (forall|i: int|
            0 <= i < 5 ==> searched_prefixes(Some((#[trigger] p[i]).drop_last())) == Some(
                seq![p[i]],
            )),
{
    reveal_strlit(":");
    reveal_strlit("gotcha");
    reveal_strlit("decision");
    reveal_strlit("dev_note");
    reveal_strlit("file");
    reveal_strlit("stage");
    reveal_strlit("gotcha:");
    reveal_strlit("decision:");
    reveal_strlit("dev_note:");
    reveal_strlit("file:");
    reveal_strlit("stage:");
    let d = c + ":"@;
    assert(d.drop_last() =~= c);
    let w = seq!["gotcha"@, "decision"@, "dev_note"@, "file"@, "stage"@];
    let p = record_prefixes();
    assert forall|i: int| 0 <= i < 5 implies #[trigger] p[i] == w[i] + ":"@ && w[i].last() != ':'
        && w[i].len() > 0 && p[i].drop_last() == w[i] by {
        assert("gotcha"@ + ":"@ =~= "gotcha:"@);
        assert("decision"@ + ":"@ =~= "decision:"@);
        assert("dev_note"@ + ":"@ =~= "dev_note:"@);
        assert("file"@ + ":"@ =~= "file:"@);
        assert("stage"@ + ":"@ =~= "stage:"@);
        assert(p[i].drop_last() =~= w[i]);
    }
    assert(p[0] == w[0] + ":"@ && p[1] == w[1] + ":"@ && p[2] == w[2] + ":"@ && p[3] == w[3] + ":"@
        && p[4] == w[4] + ":"@);
    if p.contains(d) {
        let i = choose|i: int| 0 <= i < p.len() && p[i] == d;
        assert(p[i].drop_last() == w[i]);
    }
    assert forall|i: int| 0 <= i < 5 implies searched_prefixes(Some((#[trigger] p[i]).drop_last()))
        == Some(seq![p[i]]) by {
        assert(trim_colons(w[i]) == w[i]);
        assert(p.contains(p[i]));
    }
    if c == "gotcha"@ {
        assert(p.contains(p[0]));
    }
    if c == "decision"@ {
        assert(p.contains(p[1]));
    }
    if c == "dev_note"@ {
        assert(p.contains(p[2]));
    }
    if c == "file"@ {
        assert(p.contains(p[3]));
    }
    if c == "stage"@ {
        assert(p.contains(p[4]));
    }
}

/// A snippet is one line within the limit. What fits is shown whole, without the
/// white space around it; what does not is cut and marked.
pub proof fn law_snippets_fit(s: Seq<char>, max: nat)
    requires
        !s.contains('\n'),
        max > 0,
    ensures
        snippet_of(s, max).len() <= max,
        text::trimmed(s).len() <= max <==> snippet_of(s, max) == text::trimmed(s),
        text::trimmed(s).len() > max ==> snippet_of(s, max).last() == '\u{2026}' && snippet_of(
            s,
            max,
        ).drop_last() == text::trimmed(s).take(max - 1),
{
    reveal_strlit("\u{2026}");
    text::law_replacing_is_by_character(s, Seq::empty(), '\n', " "@);
    let t = text::trimmed(s);
    if t.len() > max {
        assert(snippet_of(s, max).drop_last() =~= t.take(max - 1));
    }
}

/// Every result is shown with its key, and the list says how many there are.
pub proof fn law_every_result_is_shown(
    records: Seq<Searchable>,
    terms: Seq<Seq<char>>,
    hits: Seq<Hit>,
    i: int,
)
    requires
        0 <= i < hits.len(),
    ensures
        result_lines(records, terms, hits).len() == 2 + 2 * hits.len(),
        ("  "@ + hits[i].key@).is_prefix_of(result_lines(records, terms, hits)[2 + 2 * i]),
        text::text_contains(
            result_lines(records, terms, hits)[3 + 2 * i],
            snippet_of(records[hits[i].index as int].value@, 100),
        ),
        text::dec(hits.len()).is_prefix_of(result_lines(records, terms, hits)[0]),
{
    lemma_hit_lines_at(records, hits, hits.len() as int, i);
    let all = result_lines(records, terms, hits);
    let h = hits_lines(records, hits, hits.len() as int);
    assert(all[2 + 2 * i] == h[2 * i]);
    assert(all[3 + 2 * i] == h[2 * i + 1]);
    let rec = records[hits[i].index as int];
    let k = "  "@ + hits[i].key@;
    assert(all[2 + 2 * i].subrange(0, k.len() as int) =~= k);
    let s = snippet_of(rec.value@, 100);
    let tail = "  (score "@ + text::dec(hits[i].score as nat) + ")"@;
    assert(all[3 + 2 * i] =~= "      "@ + s + tail);
    text::lemma_part_occurs("      "@, s, tail);
    let d = text::dec(hits.len());
    assert(all[0].subrange(0, d.len() as int) =~= d);
}

proof fn lemma_hit_lines_at(records: Seq<Searchable>, hits: Seq<Hit>, n: int, i: int)
    requires
        0 <= i < n <= hits.len(),
    ensures
        hits_lines(records, hits, n).len() == 2 * n,
        hits_lines(records, hits, n)[2 * i] == hit_lines(
            hits[i].key@,
            records[hits[i].index as int],
            hits[i].score,
        )[0],
        hits_lines(records, hits, n)[2 * i + 1] == hit_lines(
            hits[i].key@,
            records[hits[i].index as int],
            hits[i].score,
        )[1],
    decreases n,
{
    if n > 1 {
        let j = if i < n - 1 {
            i
        } else {
            0
        };
        lemma_hit_lines_at(records, hits, n - 1, j);
    } else {
        assert(hits_lines(records, hits, 0).len() == 0);
    }
}

/// Each result is labelled by its own category.
pub proof fn law_results_are_labelled_by_category(a: Category, b: Category)
    ensures
        result_category(a) == "gotcha"@ <==> a is Gotcha,
        result_category(a) == "file"@ <==> a is File,
        result_category(a) == "decision"@ <==> a is Decision,
        result_category(a) == "stage"@ <==> a is Stage,
        result_category(a) == "note"@ <==> a is DevNote,
        result_category(a) == result_category(b) ==> a == b,
{
    reveal_strlit("gotcha");
    reveal_strlit("file");
    reveal_strlit("decision");
    reveal_strlit("stage");
    reveal_strlit("dependency");
    reveal_strlit("note");
    reveal_strlit("session");
    reveal_strlit("analytics");
    assert("gotcha"@.len() == 6 && "file"@.len() == 4 && "decision"@.len() == 8 && "stage"@.len()
        == 5 && "dependency"@.len() == 10 && "note"@.len() == 4 && "session"@.len() == 7
        && "analytics"@.len() == 9);
    assert("file"@[0] == 'f' && "note"@[0] == 'n');
}

} // verus!
