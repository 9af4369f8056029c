//! `mati gotcha`: reading what the developer enters, choosing keys, and what
//! adding, editing, deleting and confirming a gotcha comes to.
use vstd::prelude::*;
use crate::colors;
use crate::json;
use crate::json::{Json, JsonView};
use crate::proxy::GotchaPayload;
use crate::record::{Category, Priority, RecordLifecycle, RecordSource};
use crate::text;

verus! {

// ---------------------------------------------------------------------------
// Arguments
// ---------------------------------------------------------------------------

#[derive(Debug, PartialEq, Eq)]
pub struct GotchaArgs {
    pub command: GotchaCommand,
}

#[derive(Debug, PartialEq, Eq)]
pub enum GotchaCommand {
    /// Add a gotcha for a file, at once where the rule is given.
    Add { file: String, rule: Option<String>, reason: Option<String>, severity: Option<String> },
    /// Edit a gotcha; an empty answer keeps the current value.
    Edit { key: String },
    /// Delete a gotcha.
    Delete { key: String },
    /// Confirm a gotcha.
    Confirm { key: String },
}

// ---------------------------------------------------------------------------
// Keys
// ---------------------------------------------------------------------------

/// The key of a gotcha that may be given without its namespace.
pub open spec fn gotcha_key(key: Seq<char>) -> Seq<char> {
    if "gotcha:"@.is_prefix_of(key) {
        key
    } else {
        "gotcha:"@ + key
    }
}

pub fn normalize_key(key: &str) -> (r: String)
    ensures
        r@ == gotcha_key(key@),
{
    if text::starts_with(key, "gotcha:") {
        key.to_owned()
    } else {
        "gotcha:".to_owned().concat(key)
    }
}

/// A key is in its full form after it was normalized once.
pub proof fn law_normalizing_is_idempotent(key: Seq<char>)
    ensures
        gotcha_key(gotcha_key(key)) == gotcha_key(key),
        "gotcha:"@.is_prefix_of(gotcha_key(key)),
{
    assert(("gotcha:"@ + key).take("gotcha:"@.len() as int) =~= "gotcha:"@);
}

/// The slug of a text: see `slugify::slugify`.
pub uninterp spec fn slugified(
    s: Seq<char>,
    stop_words: Seq<char>,
    sep: Seq<char>,
    max_length: Option<usize>,
) -> Seq<char>;

/// Whether a slug may hold a character.
pub open spec fn slug_char(c: char, sep: char) -> bool {
    'a' <= c <= 'z' || '0' <= c <= '9' || c == sep
}

/// `slugify::slugify`: the text in ASCII letters and digits, in lower case, with
/// the first character of the separator between its words, cut at the length. The
/// result is named; that it holds no other character and is not longer than the
/// length is stated. The separator has to begin with an ASCII character.
pub assume_specification[ slugify::slugify ](
    string: &str,
    stop_words: &str,
    sep: &str,
    max_length: Option<usize>,
) -> (r: String)
    requires
        sep@.len() > 0,
        (sep@[0] as int) < 128,
    ensures
        r@ == slugified(string@, stop_words@, sep@, max_length),
        forall|i: int| 0 <= i < r@.len() ==> slug_char(#[trigger] r@[i], sep@[0]),
        max_length matches Some(n) ==> r@.len() <= n,
;

/// The slug under which a rule is filed.
pub open spec fn rule_slug(rule: Seq<char>) -> Seq<char> {
    slugified(rule, ""@, "-"@, Some(40usize))
}

/// A text of lower-case letters, digits and hyphens.
pub open spec fn is_slug(s: Seq<char>) -> bool {
    forall|i: int| 0 <= i < s.len() ==> slug_char(#[trigger] s[i], '-')
}

pub fn slug_for_rule(rule: &str) -> (r: String)
    ensures
        r@ == rule_slug(rule@),
        is_slug(r@),
        r@.len() <= 40,
{
    proof {
        reveal_strlit("-");
    }
    slugify::slugify(rule, "", "-", Some(40))
}

/// The key of the gotcha that is filed as the `suffix`th under a slug.
pub open spec fn numbered_key(slug: Seq<char>, suffix: nat) -> Seq<char> {
    if suffix == 1 {
        "gotcha:"@ + slug
    } else {
        "gotcha:"@ + slug + ":"@ + text::dec(suffix)
    }
}

/// Two gotchas that say the same.
pub open spec fn same_gotcha(a: GotchaPayload, b: GotchaPayload) -> bool {
    &&& a.rule@ == b.rule@
    &&& a.reason@ == b.reason@
    &&& a.severity == b.severity
    &&& text::texts(a.affected_files@) == text::texts(b.affected_files@)
    &&& json::opt_text(a.ref_url) == json::opt_text(b.ref_url)
}

/// A stored gotcha: whether it is active, and its payload where it can be read.
#[derive(Debug, PartialEq, Eq)]
pub struct StoredGotcha {
    pub active: bool,
    pub payload: Option<GotchaPayload>,
}

/// Whether a stored gotcha is active and says the same as the candidate.
pub open spec fn is_duplicate(stored: StoredGotcha, candidate: GotchaPayload) -> bool {
    stored.active && (stored.payload matches Some(p) && same_gotcha(p, candidate))
}

fn same_lists(a: &Vec<String>, b: &Vec<String>) -> (r: bool)
    ensures
        r == (text::texts(a@) == text::texts(b@)),
{
    if a.len() != b.len() {
        assert(text::texts(a@).len() != text::texts(b@).len());
        return false;
    }
    let mut i: usize = 0;
    while i < a.len()
        invariant
            i <= a.len(),
            a.len() == b.len(),
            forall|k: int| 0 <= k < i ==> (#[trigger] a@[k])@ == b@[k]@,
        decreases a.len() - i,
    {
        if !text::same(a[i].as_str(), b[i].as_str()) {
            assert(text::texts(a@)[i as int] != text::texts(b@)[i as int]);
            return false;
        }
        i = i + 1;
    }
    assert(text::texts(a@) =~= text::texts(b@));
    true
}

fn same_url(a: &Option<String>, b: &Option<String>) -> (r: bool)
    ensures
        r == (json::opt_text(*a) == json::opt_text(*b)),
{
    match a {
        Some(x) => match b {
            Some(y) => text::same(x.as_str(), y.as_str()),
            None => false,
        },
        None => b.is_none(),
    }
}

pub fn manual_gotcha_matches(stored: &StoredGotcha, candidate: &GotchaPayload) -> (r: bool)
    ensures
        r == is_duplicate(*stored, *candidate),
{
    if !stored.active {
        return false;
    }
    match &stored.payload {
        Some(p) => text::same(p.rule.as_str(), candidate.rule.as_str()) && text::same(
            p.reason.as_str(),
            candidate.reason.as_str(),
        ) && p.severity == candidate.severity && same_lists(
            &p.affected_files,
            &candidate.affected_files,
        ) && same_url(&p.ref_url, &candidate.ref_url),
        None => false,
    }
}

/// The search for a free key.
#[derive(Debug, PartialEq, Eq)]
pub struct KeyChoice {
    pub slug: String,
    pub suffix: u64,
}

/// What a look at the current key leads to.
#[derive(Debug, PartialEq, Eq)]
pub enum KeyStep {
    /// The key is free.
    Take(String),
    /// The gotcha is there already.
    Duplicate(String),
    /// Look at the next key.
    Next,
}

/// What a look at a key leads to, as texts.
#[verifier::ext_equal]
pub enum KeyStepView {
    Take(Seq<char>),
    Duplicate(Seq<char>),
    Next,
}

impl View for KeyStep {
    type V = KeyStepView;

    open spec fn view(&self) -> KeyStepView {
        match self {
            KeyStep::Take(k) => KeyStepView::Take(k@),
            KeyStep::Duplicate(m) => KeyStepView::Duplicate(m@),
            KeyStep::Next => KeyStepView::Next,
        }
    }
}

pub open spec fn duplicate_text(key: Seq<char>) -> Seq<char> {
    "a matching gotcha already exists as '"@ + key + "'. Use `mati gotcha edit "@ + key
        + "` to update it."@
}

/// What the record under a key, or its absence, leads to.
pub open spec fn key_step(
    key: Seq<char>,
    stored: Option<StoredGotcha>,
    candidate: GotchaPayload,
) -> KeyStepView {
    match stored {
        None => KeyStepView::Take(key),
        Some(s) => if is_duplicate(s, candidate) {
            KeyStepView::Duplicate(duplicate_text(key))
        } else {
            KeyStepView::Next
        },
    }
}

/// The number that the search looks at after a step.
pub open spec fn suffix_after(suffix: nat, step: KeyStepView) -> nat {
    if step is Next {
        suffix + 1
    } else {
        suffix
    }
}

impl KeyChoice {
    pub fn new(slug: String) -> (r: KeyChoice)
        ensures
            r.slug == slug,
            r.suffix == 1,
    {
        KeyChoice { slug, suffix: 1 }
    }

    /// The key to look at.
    pub fn key(&self) -> (r: String)
        ensures
            r@ == numbered_key(self.slug@, self.suffix as nat),
    {
        let base = "gotcha:".to_owned().concat(self.slug.as_str());
        if self.suffix == 1 {
            base
        } else {
            base.concat(":").concat(text::decimal(self.suffix).as_str())
        }
    }

    /// Takes what is stored under the current key: a free key is taken, a gotcha
    /// that says the same stops the search, another one sends it to the next key.
    pub fn on_lookup(&mut self, stored: &Option<StoredGotcha>, candidate: &GotchaPayload) -> (r:
        KeyStep)
        requires
            old(self).suffix < u64::MAX,
        ensures
            final(self).slug == old(self).slug,
            r@ == key_step(
                numbered_key(old(self).slug@, old(self).suffix as nat),
                *stored,
                *candidate,
            ),
            final(self).suffix as nat == suffix_after(old(self).suffix as nat, r@),
    {
        match stored {
            None => KeyStep::Take(self.key()),
            Some(s) => if manual_gotcha_matches(s, candidate) {
                let k = self.key();
                KeyStep::Duplicate(
                    "a matching gotcha already exists as '".to_owned().concat(k.as_str()).concat(
                        "'. Use `mati gotcha edit ",
                    ).concat(k.as_str()).concat("` to update it."),
                )
            } else {
                self.suffix = self.suffix + 1;
                KeyStep::Next
            },
        }
    }
}

/// One look of a search: the key that was looked at and what was stored there.
pub struct Look {
    pub key: Seq<char>,
    pub stored: Option<StoredGotcha>,
}

/// The number that a search looks at after `n` looks. It begins at 1.
pub open spec fn suffix_at(looks: Seq<Look>, candidate: GotchaPayload, n: int) -> nat
    decreases n,
{
    if n <= 0 {
        1
    } else {
        suffix_after(
            suffix_at(looks, candidate, n - 1),
            key_step(looks[n - 1].key, looks[n - 1].stored, candidate),
        )
    }
}

/// Whether these are the looks of a search under a slug: each is at the key that
/// the search is at, and none but the last ends it.
pub open spec fn is_search(slug: Seq<char>, candidate: GotchaPayload, looks: Seq<Look>) -> bool {
    forall|j: int|
        0 <= j < looks.len() ==> {
            &&& (#[trigger] looks[j]).key == numbered_key(slug, suffix_at(looks, candidate, j))
            &&& j < looks.len() - 1 ==> key_step(
                looks[j].key,
                looks[j].stored,
                candidate,
            ) is Next
        }
}

/// Whether a look found another gotcha than the candidate.
pub open spec fn found_another(look: Look, candidate: GotchaPayload) -> bool {
    look.stored matches Some(s) && !is_duplicate(s, candidate)
}

/// A search that begins at a slug looks at the numbers from 1 on, one after the
/// other. It takes the key at which it ends exactly where nothing was stored
/// there, and stops as a duplicate exactly where the same gotcha was stored
/// there. Under every smaller number it has looked and found another gotcha.
pub proof fn law_search_takes_the_first_free_key(
    slug: Seq<char>,
    candidate: GotchaPayload,
    looks: Seq<Look>,
)
    requires
        looks.len() > 0,
        is_search(slug, candidate, looks),
    ensures
        forall|j: int|
            0 <= j < looks.len() ==> (#[trigger] looks[j]).key == numbered_key(
                slug,
                (j + 1) as nat,
            ),
        forall|j: int|
            0 <= j < looks.len() - 1 ==> found_another(#[trigger] looks[j], candidate),
        match key_step(looks.last().key, looks.last().stored, candidate) {
            KeyStepView::Take(k) => k == numbered_key(slug, looks.len()) && looks.last().stored
                is None,
            KeyStepView::Duplicate(m) => {
                &&& m == duplicate_text(numbered_key(slug, looks.len()))
                &&& looks.last().stored matches Some(s) && is_duplicate(s, candidate)
            },
            KeyStepView::Next => found_another(looks.last(), candidate),
        },
{
    assert forall|j: int| 0 <= j < looks.len() implies (#[trigger] looks[j]).key == numbered_key(
        slug,
        (j + 1) as nat,
    ) by {
        lemma_suffix_counts(slug, candidate, looks, j);
    }
}

proof fn lemma_suffix_counts(
    slug: Seq<char>,
    candidate: GotchaPayload,
    looks: Seq<Look>,
    n: int,
)
    requires
        is_search(slug, candidate, looks),
        0 <= n < looks.len(),
    ensures
        suffix_at(looks, candidate, n) == n + 1,
    decreases n,
{
    if n > 0 {
        lemma_suffix_counts(slug, candidate, looks, n - 1);
        assert(key_step(looks[n - 1].key, looks[n - 1].stored, candidate) is Next);
    }
}

/// In a store that does not change meanwhile, the key that a search takes is free,
/// and every smaller number holds another gotcha.
pub proof fn law_taken_key_is_the_first_free_one(
    store: Map<Seq<char>, StoredGotcha>,
    slug: Seq<char>,
    candidate: GotchaPayload,
    looks: Seq<Look>,
    k: Seq<char>,
)
    requires
        looks.len() > 0,
        is_search(slug, candidate, looks),
        forall|j: int| 0 <= j < looks.len() ==> (#[trigger] looks[j]).stored == store.get(looks[j].key),
        key_step(looks.last().key, looks.last().stored, candidate) == KeyStepView::Take(k),
    ensures
        k == numbered_key(slug, looks.len()),
        !store.dom().contains(k),
        forall|i: nat|
            1 <= i < looks.len() ==> store.dom().contains(#[trigger] numbered_key(slug, i))
                && !is_duplicate(store[numbered_key(slug, i)], candidate),
{
    law_search_takes_the_first_free_key(slug, candidate, looks);
    assert forall|i: nat| 1 <= i < looks.len() implies store.dom().contains(
        #[trigger] numbered_key(slug, i),
    ) && !is_duplicate(store[numbered_key(slug, i)], candidate) by {
        let look = looks[i - 1];
        assert(look.key == numbered_key(slug, i));
        assert(found_another(look, candidate));
    }
}

/// Every number under every slug has a key of its own, so that the search never
/// looks at a key twice.
pub proof fn law_numbered_keys_are_distinct(a: Seq<char>, m: nat, b: Seq<char>, n: nat)
    requires
        is_slug(a),
        is_slug(b),
        m >= 1,
        n >= 1,
        numbered_key(a, m) == numbered_key(b, n),
    ensures
        a == b,
        m == n,
{
    reveal_strlit(":");
    let h = "gotcha:"@;
    let k = h.len() as int;
    let x = numbered_key(a, m);
    let y = numbered_key(b, n);
    text::lemma_dec_value(m);
    text::lemma_dec_value(n);
    if m == 1 && n != 1 {
        assert(y[k + b.len()] == ':');
        assert(x[k + b.len()] == a[b.len() as int]);
        assert(slug_char(a[b.len() as int], '-'));
    } else if m != 1 && n == 1 {
        assert(x[k + a.len()] == ':');
        assert(y[k + a.len()] == b[a.len() as int]);
        assert(slug_char(b[a.len() as int], '-'));
    } else if m == 1 && n == 1 {
        assert(a =~= x.skip(k));
        assert(b =~= y.skip(k));
    } else {
        assert(x[k + a.len()] == ':');
        assert(y[k + b.len()] == ':');
        if a.len() < b.len() {
            assert(y[k + a.len()] == b[a.len() as int]);
            assert(slug_char(b[a.len() as int], '-'));
        }
        if b.len() < a.len() {
            assert(x[k + b.len()] == a[b.len() as int]);
            assert(slug_char(a[b.len() as int], '-'));
        }
        assert(a =~= x.subrange(k, k + a.len()));
        assert(b =~= y.subrange(k, k + b.len()));
        assert(text::dec(m) =~= x.skip(k + a.len() + 1));
        assert(text::dec(n) =~= y.skip(k + b.len() + 1));
    }
}

// ---------------------------------------------------------------------------
// What the developer enters
// ---------------------------------------------------------------------------

/// The severity that a word stands for; normal for any other word.
pub open spec fn severity_named(input: Seq<char>) -> Priority {
    let w = text::trimmed(text::lowercased(input));
    if w == "low"@ {
        Priority::Low
    } else if w == "high"@ {
        Priority::High
    } else if w == "critical"@ || w == "crit"@ {
        Priority::Critical
    } else {
        Priority::Normal
    }
}

/// The severity of a word in lower case without white space around it.
pub fn severity_of_word(w: &str) -> (r: Priority)
    ensures
        r == (if w@ == "low"@ {
            Priority::Low
        } else if w@ == "high"@ {
            Priority::High
        } else if w@ == "critical"@ || w@ == "crit"@ {
            Priority::Critical
        } else {
            Priority::Normal
        }),
{
    if text::same(w, "low") {
        Priority::Low
    } else if text::same(w, "high") {
        Priority::High
    } else if text::same(w, "critical") || text::same(w, "crit") {
        Priority::Critical
    } else {
        Priority::Normal
    }
}

pub fn parse_severity(input: &str) -> (r: Priority)
    ensures
        r == severity_named(input@),
{
    let lower = input.to_lowercase();
    let w = text::trim(lower.as_str());
    severity_of_word(w.as_str())
}

/// The entries of a list, without white space around them and without empty ones.
pub open spec fn filled_entries(parts: Seq<Seq<char>>, n: int) -> Seq<Seq<char>>
    decreases n,
{
    if n <= 0 {
        Seq::empty()
    } else {
        let before = filled_entries(parts, n - 1);
        let w = text::trimmed(parts[n - 1]);
        if w.len() > 0 {
            before.push(w)
        } else {
            before
        }
    }
}

/// The entries of a list with commas between them.
pub open spec fn comma_list(input: Seq<char>) -> Seq<Seq<char>> {
    let parts = text::split_on(input, ',');
    filled_entries(parts, parts.len() as int)
}

pub fn split_files(input: &str) -> (r: Vec<String>)
    ensures
        text::texts(r@) == comma_list(input@),
{
    let parts = text::split(input, ',');
    let ghost all = text::split_on(input@, ',');
    let mut out: Vec<String> = Vec::new();
    let mut i: usize = 0;
    assert(text::texts(out@) =~= Seq::<Seq<char>>::empty());
    while i < parts.len()
        invariant
            i <= parts.len(),
            all == text::texts(parts@),
            text::texts(out@) == filled_entries(all, i as int),
        decreases parts.len() - i,
    {
        assert(all[i as int] == parts@[i as int]@);
        let w = text::trim(parts[i].as_str());
        if !w.as_str().is_empty() {
            text::push_line(&mut out, w);
        }
        i = i + 1;
    }
    assert(all.len() == parts@.len());
    out
}

fn one(s: &str) -> (r: Vec<String>)
    ensures
        text::texts(r@) == seq![s@],
{
    let mut v: Vec<String> = Vec::new();
    text::push_line(&mut v, s.to_owned());
    assert(text::texts(v@) =~= seq![s@]);
    v
}

/// What a gotcha says, as plain values.
#[verifier::ext_equal]
pub struct GotchaView {
    pub rule: Seq<char>,
    pub reason: Seq<char>,
    pub severity: Priority,
    pub affected_files: Seq<Seq<char>>,
    pub ref_url: Option<Seq<char>>,
}

pub open spec fn gotcha_view(g: GotchaPayload) -> GotchaView {
    GotchaView {
        rule: g.rule@,
        reason: g.reason@,
        severity: g.severity,
        affected_files: text::texts(g.affected_files@),
        ref_url: json::opt_text(g.ref_url),
    }
}

/// The gotcha that is entered on the command line.
pub open spec fn quick_entry(
    file: Seq<char>,
    rule: Seq<char>,
    reason: Option<Seq<char>>,
    severity: Option<Seq<char>>,
) -> GotchaView {
    GotchaView {
        rule,
        reason: match reason {
            Some(s) => s,
            None => Seq::empty(),
        },
        severity: match severity {
            Some(s) => severity_named(s),
            None => Priority::Normal,
        },
        affected_files: seq![file],
        ref_url: None,
    }
}

/// The gotcha that is added at once; an empty rule is refused.
pub fn quick_add(
    file: &str,
    rule: String,
    reason: Option<String>,
    severity: Option<String>,
) -> (r: Result<GotchaPayload, String>)
    ensures
        match r {
            Ok(g) => rule@.len() > 0 && gotcha_view(g) == quick_entry(
                file@,
                rule@,
                json::opt_text(reason),
                json::opt_text(severity),
            ),
            Err(e) => rule@.len() == 0 && e@ == "rule cannot be empty"@,
        },
{
    if rule.as_str().is_empty() {
        return Err("rule cannot be empty".to_owned());
    }
    let shown_reason = match reason {
        Some(s) => s,
        None => String::new(),
    };
    let level = match severity {
        Some(s) => parse_severity(s.as_str()),
        None => Priority::Normal,
    };
    assert(reason is None ==> shown_reason@ =~= Seq::<char>::empty());
    Ok(
        GotchaPayload {
            rule,
            reason: shown_reason,
            severity: level,
            affected_files: one(file),
            ref_url: None,
        },
    )
}

/// What was answered about severity, files and URL, where these are not left at
/// their defaults.
#[derive(Debug, PartialEq, Eq)]
pub struct Extras {
    pub severity: String,
    pub files: String,
    pub url: String,
}

/// The gotcha that the answers describe.
pub open spec fn asked_entry(
    file: Seq<char>,
    rule: Seq<char>,
    reason: Seq<char>,
    extras: Option<Extras>,
) -> GotchaView {
    GotchaView {
        rule,
        reason,
        severity: match extras {
            Some(x) => severity_named(x.severity@),
            None => Priority::Normal,
        },
        affected_files: match extras {
            Some(x) => if x.files@.len() == 0 {
                seq![file]
            } else {
                comma_list(x.files@)
            },
            None => seq![file],
        },
        ref_url: match extras {
            Some(x) => json::filled_text(Some(x.url@)),
            None => None,
        },
    }
}

/// The gotcha that is added after the questions; an empty rule is refused.
/// Without extras it is a normal one on the file.
pub fn interactive_add(file: &str, rule: String, reason: String, extras: Option<Extras>) -> (r:
    Result<GotchaPayload, String>)
    ensures
        match r {
            Ok(g) => rule@.len() > 0 && gotcha_view(g) == asked_entry(
                file@,
                rule@,
                reason@,
                extras,
            ),
            Err(e) => rule@.len() == 0 && e@ == "rule cannot be empty"@,
        },
{
    if rule.as_str().is_empty() {
        return Err("rule cannot be empty".to_owned());
    }
    match extras {
        Some(x) => {
            let severity = parse_severity(x.severity.as_str());
            let affected_files = if x.files.as_str().is_empty() {
                one(file)
            } else {
                split_files(x.files.as_str())
            };
            let ref_url = json::filled(Some(x.url));
            Ok(GotchaPayload { rule, reason, severity, affected_files, ref_url })
        },
        None => Ok(
            GotchaPayload {
                rule,
                reason,
                severity: Priority::Normal,
                affected_files: one(file),
                ref_url: None,
            },
        ),
    }
}

/// The answers to the questions of an edit.
#[derive(Debug, PartialEq, Eq)]
pub struct EditInput {
    pub rule: String,
    pub reason: String,
    pub severity: String,
    pub files: String,
    pub url: String,
}

pub open spec fn kept_or(old: Seq<char>, input: Seq<char>) -> Seq<char> {
    if input.len() == 0 {
        old
    } else {
        input
    }
}

/// An edited gotcha: an empty answer keeps the value, a hyphen clears the URL.
pub open spec fn edited(old: GotchaView, i: EditInput) -> GotchaView {
    GotchaView {
        rule: kept_or(old.rule, i.rule@),
        reason: kept_or(old.reason, i.reason@),
        severity: if i.severity@.len() == 0 {
            old.severity
        } else {
            severity_named(i.severity@)
        },
        affected_files: if i.files@.len() == 0 {
            old.affected_files
        } else {
            comma_list(i.files@)
        },
        ref_url: if i.url@.len() == 0 {
            old.ref_url
        } else if i.url@ == "-"@ {
            None
        } else {
            Some(i.url@)
        },
    }
}

/// Applies the answers of an edit.
pub fn apply_edit(old: GotchaPayload, input: EditInput) -> (r: GotchaPayload)
    ensures
        gotcha_view(r) == edited(gotcha_view(old), input),
{
    let rule = if input.rule.as_str().is_empty() {
        old.rule
    } else {
        input.rule
    };
    let reason = if input.reason.as_str().is_empty() {
        old.reason
    } else {
        input.reason
    };
    let severity = if input.severity.as_str().is_empty() {
        old.severity
    } else {
        parse_severity(input.severity.as_str())
    };
    let affected_files = if input.files.as_str().is_empty() {
        old.affected_files
    } else {
        split_files(input.files.as_str())
    };
    let ref_url = if input.url.as_str().is_empty() {
        old.ref_url
    } else if text::same(input.url.as_str(), "-") {
        None
    } else {
        Some(input.url)
    };
    GotchaPayload { rule, reason, severity, affected_files, ref_url }
}

/// An edit with nothing but empty answers changes nothing.
pub proof fn law_empty_edit_changes_nothing(old: GotchaView, i: EditInput)
    requires
        i.rule@.len() == 0,
        i.reason@.len() == 0,
        i.severity@.len() == 0,
        i.files@.len() == 0,
        i.url@.len() == 0,
    ensures
        edited(old, i) == old,
{
}

/// The text of a gotcha record: the rule, and the reason where there is one.
pub open spec fn value_of(rule: Seq<char>, reason: Seq<char>) -> Seq<char> {
    if reason.len() == 0 {
        rule
    } else {
        rule + " because "@ + reason
    }
}

pub fn value_text(rule: &str, reason: &str) -> (r: String)
    ensures
        r@ == value_of(rule@, reason@),
{
    if reason.is_empty() {
        rule.to_owned()
    } else {
        rule.to_owned().concat(" because ").concat(reason)
    }
}

/// Whether an answer agrees to a deletion.
pub open spec fn agrees(answer: Seq<char>) -> bool {
    text::lowercased(answer) == "y"@ || text::lowercased(answer) == "yes"@
}

/// Whether an answer in lower case agrees.
pub fn is_yes(lower: &str) -> (r: bool)
    ensures
        r == (lower@ == "y"@ || lower@ == "yes"@),
{
    text::same(lower, "y") || text::same(lower, "yes")
}

pub fn agrees_to_delete(answer: &str) -> (r: bool)
    ensures
        r == agrees(answer@),
{
    let lower = answer.to_lowercase();
    is_yes(lower.as_str())
}

/// A line that was entered, without white space around it; nothing where the
/// input has ended.
pub fn entered(line: Option<&str>) -> (r: String)
    ensures
        r@ == (match line {
            Some(l) => text::trimmed(l@),
            None => Seq::empty(),
        }),
{
    match line {
        Some(l) => text::trim(l),
        None => {
            let s = String::new();
            assert(s@ =~= Seq::<char>::empty());
            s
        },
    }
}

// ---------------------------------------------------------------------------
// Existing gotchas of a file
// ---------------------------------------------------------------------------

/// Whether a stored gotcha is active and affects a file.
pub open spec fn affects(stored: StoredGotcha, file: Seq<char>) -> bool {
    stored.active && (stored.payload matches Some(p) && text::texts(p.affected_files@).contains(
        file,
    ))
}

/// The positions, below `n`, of the gotchas that affect a file.
pub open spec fn affecting(v: Seq<StoredGotcha>, file: Seq<char>, n: int) -> Seq<int>
    decreases n,
{
    if n <= 0 {
        Seq::empty()
    } else {
        let before = affecting(v, file, n - 1);
        if affects(v[n - 1], file) {
            before.push(n - 1)
        } else {
            before
        }
    }
}

pub fn existing_gotchas_for_file(v: &Vec<StoredGotcha>, file: &str) -> (r: Vec<usize>)
    ensures
        r@.map_values(|i: usize| i as int) == affecting(v@, file@, v@.len() as int),
{
    let mut out: Vec<usize> = Vec::new();
    let mut i: usize = 0;
    assert(out@.map_values(|i: usize| i as int) =~= Seq::<int>::empty());
    while i < v.len()
        invariant
            i <= v.len(),
            out@.map_values(|i: usize| i as int) == affecting(v@, file@, i as int),
        decreases v.len() - i,
    {
        let ghost before = out@;
        let hit = v[i].active && (match &v[i].payload {
            Some(p) => text::list_contains(&p.affected_files, file),
            None => false,
        });
        if hit {
            out.push(i);
            assert(out@.map_values(|i: usize| i as int) =~= before.map_values(
                |i: usize| i as int,
            ).push(i as int));
        }
        i = i + 1;
    }
    out
}

/// What becomes of the question whether to update one of the gotchas of a file.
#[derive(Debug, PartialEq, Eq)]
pub enum ExistingChoice {
    /// A new one is added.
    AddNew,
    /// This one is edited.
    Edit(String),
    /// The answer names none of them: that is said, and a new one is added.
    NotFound(String),
}

/// Whether an answer chooses `r` among the gotchas of a file.
pub open spec fn chooses(input: Seq<char>, keys: Seq<Seq<char>>, r: ExistingChoice) -> bool {
    if input.len() == 0 {
        r is AddNew
    } else if keys.contains(gotcha_key(input)) {
        r matches ExistingChoice::Edit(k) && k@ == gotcha_key(input)
    } else {
        r matches ExistingChoice::NotFound(m) && m@ == "  Key '"@ + gotcha_key(input)
            + "' not found for this file \u{2014} adding new record."@
    }
}

/// Reads the answer; `keys` are those of the gotchas of the file.
pub fn choose_existing(input: &str, keys: &Vec<String>) -> (r: ExistingChoice)
    ensures
        chooses(input@, text::texts(keys@), r),
{
    if input.is_empty() {
        return ExistingChoice::AddNew;
    }
    let key = normalize_key(input);
    if text::list_contains(keys, key.as_str()) {
        ExistingChoice::Edit(key)
    } else {
        ExistingChoice::NotFound(
            "  Key '".to_owned().concat(key.as_str()).concat(
                "' not found for this file \u{2014} adding new record.",
            ),
        )
    }
}

/// The line above the table of what is known of a file.
pub fn existing_header(file: &str, n: u64, use_color: bool) -> (r: String)
    ensures
        r@ == "\n  "@ + colors::shade(use_color, colors::BLUE@) + "Existing knowledge for "@ + file@
            + colors::shade(use_color, colors::RESET@) + "  ("@ + text::dec(n as nat) + " "@ + (
        if n == 1 {
            "gotcha"@
        } else {
            "gotchas"@
        }) + ")"@,
{
    "\n  ".to_owned().concat(colors::tint(use_color, colors::BLUE)).concat(
        "Existing knowledge for ",
    ).concat(file).concat(colors::tint(use_color, colors::RESET)).concat("  (").concat(
        text::decimal(n).as_str(),
    ).concat(" ").concat(
        if n == 1 {
            "gotcha"
        } else {
            "gotchas"
        },
    ).concat(")")
}

/// A rule in the table: at most 60 characters.
pub open spec fn table_rule(rule: Seq<char>) -> Seq<char> {
    if rule.len() > 60 {
        rule.take(59) + "\u{2026}"@
    } else {
        rule
    }
}

pub fn short_rule(rule: &str) -> (r: String)
    ensures
        r@ == table_rule(rule@),
{
    let v = text::chars(rule);
    if v.len() > 60 {
        let cut = text::string_of(&v, 0, 59);
        assert(cut@ =~= rule@.take(59));
        cut.concat("\u{2026}")
    } else {
        rule.to_owned()
    }
}

// ---------------------------------------------------------------------------
// Confirming
// ---------------------------------------------------------------------------

/// The namespace of a key that is no gotcha's.
pub open spec fn other_namespace(key: Seq<char>) -> Option<Seq<char>> {
    if "file:"@.is_prefix_of(key) {
        Some("file"@)
    } else if "decision:"@.is_prefix_of(key) {
        Some("decision"@)
    } else if "dev_note:"@.is_prefix_of(key) {
        Some("dev_note"@)
    } else if "dep:"@.is_prefix_of(key) {
        Some("dep"@)
    } else if "stage:"@.is_prefix_of(key) {
        Some("stage"@)
    } else {
        None
    }
}

/// The refusal to confirm a key of another namespace.
pub open spec fn wrong_namespace(key: Seq<char>, category: Seq<char>) -> Seq<char> {
    "'"@ + key + "' has category '"@ + category
        + "', not 'gotcha'.\nPass just the slug (e.g., '"@ + key.skip(category.len() as int + 1)
        + "') or the full gotcha: key."@
}

fn refuse_namespace(key: &str, category: &str, slug: &str) -> (r: String)
    requires
        slug@ == key@.skip(category@.len() as int + 1),
    ensures
        r@ == wrong_namespace(key@, category@),
{
    "'".to_owned().concat(key).concat("' has category '").concat(category).concat(
        "', not 'gotcha'.\nPass just the slug (e.g., '",
    ).concat(slug).concat("') or the full gotcha: key.")
}

/// The key to confirm, in its full form; a key of another namespace is refused.
pub fn confirm_target(key: &str) -> (r: Result<String, String>)
    ensures
        match r {
            Ok(k) => other_namespace(key@) is None && k@ == gotcha_key(key@),
            Err(e) => other_namespace(key@) matches Some(c) && e@ == wrong_namespace(key@, c),
        },
{
    proof {
        reveal_strlit("file:");
        reveal_strlit("file");
        reveal_strlit("decision:");
        reveal_strlit("decision");
        reveal_strlit("dev_note:");
        reveal_strlit("dev_note");
        reveal_strlit("dep:");
        reveal_strlit("dep");
        reveal_strlit("stage:");
        reveal_strlit("stage");
    }
    if let Some(slug) = text::strip_prefix(key, "file:") {
        return Err(refuse_namespace(key, "file", slug));
    }
    if let Some(slug) = text::strip_prefix(key, "decision:") {
        return Err(refuse_namespace(key, "decision", slug));
    }
    if let Some(slug) = text::strip_prefix(key, "dev_note:") {
        return Err(refuse_namespace(key, "dev_note", slug));
    }
    if let Some(slug) = text::strip_prefix(key, "dep:") {
        return Err(refuse_namespace(key, "dep", slug));
    }
    if let Some(slug) = text::strip_prefix(key, "stage:") {
        return Err(refuse_namespace(key, "stage", slug));
    }
    Ok(normalize_key(key))
}

/// What is looked at of a record before it is confirmed.
#[derive(Debug, PartialEq, Eq)]
pub struct ConfirmState {
    pub category: Category,
    pub lifecycle: RecordLifecycle,
}

pub open spec fn category_word(c: Category) -> Seq<char> {
    match c {
        Category::Gotcha => "Gotcha"@,
        Category::File => "File"@,
        Category::Decision => "Decision"@,
        Category::Stage => "Stage"@,
        Category::Dependency => "Dependency"@,
        Category::DevNote => "DevNote"@,
        Category::Session => "Session"@,
        Category::Analytics => "Analytics"@,
    }
}

fn category_name(c: Category) -> (r: &'static str)
    ensures
        r@ == category_word(c),
{
    match c {
        Category::Gotcha => "Gotcha",
        Category::File => "File",
        Category::Decision => "Decision",
        Category::Stage => "Stage",
        Category::Dependency => "Dependency",
        Category::DevNote => "DevNote",
        Category::Session => "Session",
        Category::Analytics => "Analytics",
    }
}

/// Why a record cannot be confirmed; only an active gotcha can.
pub open spec fn confirm_error(key: Seq<char>, state: Option<ConfirmState>) -> Option<Seq<char>> {
    match state {
        None => Some("no record found for '"@ + key + "'"@),
        Some(s) => if s.category != Category::Gotcha {
            Some(
                "'"@ + key + "' is not a Gotcha record (category: "@ + category_word(s.category)
                    + ")"@,
            )
        } else if !(s.lifecycle is Active) {
            Some("'"@ + key + "' is tombstoned \u{2014} cannot confirm a deleted record"@)
        } else {
            None
        },
    }
}

pub fn confirm_refusal(key: &str, state: &Option<ConfirmState>) -> (r: Option<String>)
    ensures
        json::opt_text(r) == confirm_error(key@, *state),
{
    match state {
        None => Some("no record found for '".to_owned().concat(key).concat("'")),
        Some(s) => {
            if s.category != Category::Gotcha {
                return Some(
                    "'".to_owned().concat(key).concat("' is not a Gotcha record (category: ").concat(
                        category_name(s.category),
                    ).concat(")"),
                );
            }
            match s.lifecycle {
                RecordLifecycle::Active => None,
                _ => Some(
                    "'".to_owned().concat(key).concat(
                        "' is tombstoned \u{2014} cannot confirm a deleted record",
                    ),
                ),
            }
        },
    }
}

/// A payload whose severity is in lower case.
pub open spec fn with_plain_severity(m: Seq<(Seq<char>, JsonView)>) -> Seq<(Seq<char>, JsonView)> {
    match json::text_value(json::lookup(m, "severity"@)) {
        Some(s) => json::put(m, "severity"@, JsonView::Str(text::lowercased(s))),
        None => m,
    }
}

/// A payload that can be read as a gotcha though its severity was capitalized.
pub open spec fn plain_payload(p: JsonView) -> JsonView {
    match p {
        JsonView::Object(m) => JsonView::Object(with_plain_severity(m)),
        other => other,
    }
}

fn plain_severity(m: &mut Vec<(String, Json)>)
    ensures
        json::members(final(m)@) == with_plain_severity(json::members(old(m)@)),
{
    let severity = match json::member_index(m, "severity") {
        Some(i) => m[i].1.as_text(),
        None => None,
    };
    if let Some(s) = severity {
        let lower = s.as_str().to_lowercase();
        json::put_member(m, "severity", Json::Str(lower));
    }
}

/// Puts the severity of a payload into lower case.
pub fn normalize_payload(p: Json) -> (r: Json)
    ensures
        r@ == plain_payload(p@),
{
    match p {
        Json::Object(m) => {
            let mut m = m;
            proof {
                json::lemma_object_view(m);
            }
            plain_severity(&mut m);
            proof {
                json::lemma_object_view(m);
            }
            Json::Object(m)
        },
        other => other,
    }
}

/// The payload of a gotcha that is confirmed.
pub open spec fn confirmed_payload(p: JsonView) -> JsonView {
    match p {
        JsonView::Object(m) => JsonView::Object(
            json::put(with_plain_severity(m), "confirmed"@, JsonView::Bool(true)),
        ),
        other => other,
    }
}

/// Marks a payload as confirmed.
pub fn confirm_payload(p: Json) -> (r: Json)
    ensures
        r@ == confirmed_payload(p@),
{
    match p {
        Json::Object(m) => {
            let mut m = m;
            proof {
                json::lemma_object_view(m);
            }
            plain_severity(&mut m);
            json::put_member(&mut m, "confirmed", Json::Bool(true));
            proof {
                json::lemma_object_view(m);
            }
            Json::Object(m)
        },
        other => other,
    }
}

/// After a confirmation the payload says so, and every member but the severity
/// and the confirmation is as before.
pub proof fn law_confirming_marks_and_keeps(m: Seq<(Seq<char>, JsonView)>, name: Seq<char>)
    ensures
        ({
            let after = confirmed_payload(JsonView::Object(m));
            &&& json::is_true(json::member(after, "confirmed"@))
            &&& name != "confirmed"@ && name != "severity"@ ==> json::member(after, name)
                == json::lookup(m, name)
        }),
{
    let p = with_plain_severity(m);
    json::lemma_put_lookup(p, "confirmed"@, JsonView::Bool(true), "confirmed"@);
    json::lemma_put_lookup(p, "confirmed"@, JsonView::Bool(true), name);
    if let Some(s) = json::text_value(json::lookup(m, "severity"@)) {
        json::lemma_put_lookup(m, "severity"@, JsonView::Str(text::lowercased(s)), name);
    }
}

// ---------------------------------------------------------------------------
// Texts
// ---------------------------------------------------------------------------

/// A question, in colour where that is on.
pub fn prompt(msg: &str, use_color: bool) -> (r: String)
    ensures
        r@ == colors::shade(use_color, colors::BLUE@) + msg@ + colors::shade(
            use_color,
            colors::RESET@,
        ) + " "@,
{
    colors::tint(use_color, colors::BLUE).to_owned().concat(msg).concat(
        colors::tint(use_color, colors::RESET),
    ).concat(" ")
}

pub open spec fn severity_word(p: Priority) -> Seq<char> {
    match p {
        Priority::Low => "Low"@,
        Priority::Normal => "Normal"@,
        Priority::High => "High"@,
        Priority::Critical => "Critical"@,
    }
}

pub fn severity_name(p: Priority) -> (r: &'static str)
    ensures
        r@ == severity_word(p),
{
    match p {
        Priority::Low => "Low",
        Priority::Normal => "Normal",
        Priority::High => "High",
        Priority::Critical => "Critical",
    }
}

/// What an edit begins with.
pub open spec fn edit_text(key: Seq<char>, old: GotchaView, on: bool) -> Seq<Seq<char>> {
    seq![
        ""@,
        "  "@ + colors::shade(on, colors::BLUE@) + "Editing "@ + key + colors::shade(
            on,
            colors::RESET@,
        ),
        "  \u{2500}\u{2500}\u{2500}\u{2500}\u{2500}\u{2500}\u{2500}\u{2500}\u{2500}\u{2500}\u{2500}\u{2500}\u{2500}\u{2500}\u{2500}\u{2500}\u{2500}\u{2500}\u{2500}\u{2500}\u{2500}\u{2500}\u{2500}\u{2500}\u{2500}\u{2500}\u{2500}\u{2500}\u{2500}\u{2500}\u{2500}\u{2500}\u{2500}\u{2500}\u{2500}\u{2500}\u{2500}\u{2500}\u{2500}\u{2500}\u{2500}\u{2500}\u{2500}\u{2500}\u{2500}\u{2500}\u{2500}\u{2500}\u{2500}"@,
        "  Rule:     "@ + old.rule,
        "  Reason:   "@ + old.reason,
        "  Severity: "@ + severity_word(old.severity),
        "  Files:    "@ + text::joined(old.affected_files, ", "@),
    ] + (match old.ref_url {
        Some(u) => seq!["  Ref:      "@ + u],
        None => Seq::empty(),
    }) + seq![
        "  (Leave any field blank to keep current value. Enter \"-\" to clear a URL.)"@,
        ""@,
    ]
}

/// The lines that an edit begins with.
pub fn edit_header(key: &str, old: &GotchaPayload, use_color: bool) -> (r: Vec<String>)
    ensures
        text::texts(r@) == edit_text(key@, gotcha_view(*old), use_color),
{
    let mut out: Vec<String> = Vec::new();
    text::push_line(&mut out, "".to_owned());
    text::push_line(
        &mut out,
        "  ".to_owned().concat(colors::tint(use_color, colors::BLUE)).concat("Editing ").concat(
            key,
        ).concat(colors::tint(use_color, colors::RESET)),
    );
    text::push_line(
        &mut out,
        "  \u{2500}\u{2500}\u{2500}\u{2500}\u{2500}\u{2500}\u{2500}\u{2500}\u{2500}\u{2500}\u{2500}\u{2500}\u{2500}\u{2500}\u{2500}\u{2500}\u{2500}\u{2500}\u{2500}\u{2500}\u{2500}\u{2500}\u{2500}\u{2500}\u{2500}\u{2500}\u{2500}\u{2500}\u{2500}\u{2500}\u{2500}\u{2500}\u{2500}\u{2500}\u{2500}\u{2500}\u{2500}\u{2500}\u{2500}\u{2500}\u{2500}\u{2500}\u{2500}\u{2500}\u{2500}\u{2500}\u{2500}\u{2500}\u{2500}".to_owned(),
    );
    text::push_line(&mut out, "  Rule:     ".to_owned().concat(old.rule.as_str()));
    text::push_line(&mut out, "  Reason:   ".to_owned().concat(old.reason.as_str()));
    text::push_line(&mut out, "  Severity: ".to_owned().concat(severity_name(old.severity)));
    text::push_line(
        &mut out,
        "  Files:    ".to_owned().concat(text::join(&old.affected_files, ", ").as_str()),
    );
    if let Some(u) = &old.ref_url {
        text::push_line(&mut out, "  Ref:      ".to_owned().concat(u.as_str()));
    }
    text::push_line(
        &mut out,
        "  (Leave any field blank to keep current value. Enter \"-\" to clear a URL.)".to_owned(),
    );
    text::push_line(&mut out, "".to_owned());
    assert(text::texts(out@) =~= edit_text(key@, gotcha_view(*old), use_color));
    out
}

/// What is shown before a deletion.
pub open spec fn delete_text(key: Seq<char>, g: GotchaView, on: bool) -> Seq<Seq<char>> {
    seq![
        ""@,
        "  "@ + colors::shade(on, colors::YELLOW@) + key + colors::shade(on, colors::RESET@),
        "  Rule:   "@ + g.rule,
        "  Reason: "@ + g.reason,
        "  Files:  "@ + text::joined(g.affected_files, ", "@),
        ""@,
    ]
}

pub fn delete_header(key: &str, g: &GotchaPayload, use_color: bool) -> (r: Vec<String>)
    ensures
        text::texts(r@) == delete_text(key@, gotcha_view(*g), use_color),
{
    let mut out: Vec<String> = Vec::new();
    text::push_line(&mut out, "".to_owned());
    text::push_line(
        &mut out,
        "  ".to_owned().concat(colors::tint(use_color, colors::YELLOW)).concat(key).concat(
            colors::tint(use_color, colors::RESET),
        ),
    );
    text::push_line(&mut out, "  Rule:   ".to_owned().concat(g.rule.as_str()));
    text::push_line(&mut out, "  Reason: ".to_owned().concat(g.reason.as_str()));
    text::push_line(
        &mut out,
        "  Files:  ".to_owned().concat(text::join(&g.affected_files, ", ").as_str()),
    );
    text::push_line(&mut out, "".to_owned());
    assert(text::texts(out@) =~= delete_text(key@, gotcha_view(*g), use_color));
    out
}

/// The links of a new gotcha.
pub open spec fn link_texts(key: Seq<char>, files: Seq<Seq<char>>) -> Seq<Seq<char>> {
    files.map_values(|f: Seq<char>| "  -> file:"@ + f + " HasGotcha "@ + key)
}

/// What is printed of a new gotcha; the scores come with two decimals.
pub fn created_lines(key: &str, quality: &str, confidence: &str, files: &Vec<String>) -> (r: Vec<
    String,
>)
    ensures
        text::texts(r@) == seq![
            "Created "@ + key@ + "  (quality: "@ + quality@ + ", confidence: "@ + confidence@
                + ")"@,
        ] + link_texts(key@, text::texts(files@)),
{
    let mut out: Vec<String> = Vec::new();
    let ghost first = seq![
        "Created "@ + key@ + "  (quality: "@ + quality@ + ", confidence: "@ + confidence@ + ")"@,
    ];
    text::push_line(
        &mut out,
        "Created ".to_owned().concat(key).concat("  (quality: ").concat(quality).concat(
            ", confidence: ",
        ).concat(confidence).concat(")"),
    );
    let ghost all = text::texts(files@);
    let mut i: usize = 0;
    assert(text::texts(out@) =~= first + link_texts(key@, all.take(0)));
    while i < files.len()
        invariant
            i <= files.len(),
            all == text::texts(files@),
            text::texts(out@) == first + link_texts(key@, all.take(i as int)),
        decreases files.len() - i,
    {
        assert(all[i as int] == files@[i as int]@);
        text::push_line(
            &mut out,
            "  -> file:".to_owned().concat(files[i].as_str()).concat(" HasGotcha ").concat(key),
        );
        assert(text::texts(out@) =~= first + link_texts(key@, all.take(i + 1)));
        i = i + 1;
    }
    assert(all.take(i as int) =~= all);
    out
}

// ---------------------------------------------------------------------------
// What a record remembers of its writes
// ---------------------------------------------------------------------------

#[derive(Debug, Clone, Copy, PartialEq, Eq, Structural)]
pub struct Stamps {
    pub source: RecordSource,
    pub confirmations: u32,
    pub updated_at: u64,
    pub logical_clock: u64,
    pub wall_clock: u64,
}

/// Of a gotcha that a developer adds.
pub open spec fn first_stamps(now: u64) -> Stamps {
    Stamps {
        source: RecordSource::DeveloperManual,
        confirmations: 1,
        updated_at: now,
        logical_clock: 1,
        wall_clock: now,
    }
}

/// After an edit.
pub open spec fn edited_stamps(s: Stamps, now: u64) -> Stamps {
    Stamps {
        updated_at: now,
        logical_clock: (s.logical_clock + 1) as u64,
        wall_clock: now,
        ..s
    }
}

/// After a confirmation.
pub open spec fn confirmed_stamps(s: Stamps, now: u64) -> Stamps {
    Stamps {
        source: RecordSource::DeveloperManual,
        confirmations: (s.confirmations + 1) as u32,
        updated_at: now,
        logical_clock: (s.logical_clock + 1) as u64,
        wall_clock: now,
    }
}

impl Stamps {
    /// Of a gotcha that a developer adds, which counts as a confirmation.
    pub fn created(now: u64) -> (r: Stamps)
        ensures
            r == first_stamps(now),
    {
        Stamps {
            source: RecordSource::DeveloperManual,
            confirmations: 1,
            updated_at: now,
            logical_clock: 1,
            wall_clock: now,
        }
    }

    /// After an edit: the source and the confirmations stay.
    pub fn edited(&mut self, now: u64)
        requires
            old(self).logical_clock < u64::MAX,
        ensures
            *final(self) == edited_stamps(*old(self), now),
    {
        self.updated_at = now;
        self.logical_clock = self.logical_clock + 1;
        self.wall_clock = now;
    }

    /// After a confirmation, which makes the gotcha the developer's own.
    pub fn confirmed(&mut self, now: u64)
        requires
            old(self).logical_clock < u64::MAX,
            old(self).confirmations < u32::MAX,
        ensures
            *final(self) == confirmed_stamps(*old(self), now),
    {
        self.source = RecordSource::DeveloperManual;
        self.confirmations = self.confirmations + 1;
        self.edited(now);
    }
}

/// A gotcha record as the commands of a developer write it. Its priority is the
/// severity of the gotcha, and its reference that of the gotcha.
#[derive(Debug, PartialEq, Eq)]
pub struct GotchaWrite {
    pub value: String,
    pub gotcha: GotchaPayload,
    /// When the gotcha was found, in seconds.
    pub discovered: u64,
    pub confirmed: bool,
    pub stamps: Stamps,
}

/// The record of a gotcha that a developer adds: it is confirmed from the start.
pub fn new_gotcha(g: GotchaPayload, now: u64) -> (r: GotchaWrite)
    ensures
        r.gotcha == g,
        r.value@ == value_of(g.rule@, g.reason@),
        r.discovered == now,
        r.confirmed,
        r.stamps == first_stamps(now),
{
    GotchaWrite {
        value: value_text(g.rule.as_str(), g.reason.as_str()),
        gotcha: g,
        discovered: now,
        confirmed: true,
        stamps: Stamps::created(now),
    }
}

/// The record after an edit: when it was found, whether it is confirmed, its source
/// and its confirmations stay.
pub fn edit_gotcha(old: GotchaWrite, input: EditInput, now: u64) -> (r: GotchaWrite)
    requires
        old.stamps.logical_clock < u64::MAX,
    ensures
        gotcha_view(r.gotcha) == edited(gotcha_view(old.gotcha), input),
        r.value@ == value_of(r.gotcha.rule@, r.gotcha.reason@),
        r.discovered == old.discovered,
        r.confirmed == old.confirmed,
        r.stamps == edited_stamps(old.stamps, now),
{
    let g = apply_edit(old.gotcha, input);
    let mut stamps = old.stamps;
    stamps.edited(now);
    GotchaWrite {
        value: value_text(g.rule.as_str(), g.reason.as_str()),
        gotcha: g,
        discovered: old.discovered,
        confirmed: old.confirmed,
        stamps,
    }
}

// ---------------------------------------------------------------------------
// What the commands are for
// ---------------------------------------------------------------------------

/// A key keeps what was entered and gets the namespace in front exactly where it
/// lacks it.
pub proof fn law_key_keeps_what_was_entered(key: Seq<char>)
    ensures
        key.is_suffix_of(gotcha_key(key)),
        gotcha_key("gotcha:"@ + key) == "gotcha:"@ + key,
        !"gotcha:"@.is_prefix_of(key) ==> gotcha_key(key) == "gotcha:"@ + key,
{
    let p = "gotcha:"@;
    assert((p + key).subrange(0, p.len() as int) =~= p);
    let k = gotcha_key(key);
    assert(k.subrange(k.len() - key.len(), k.len() as int) =~= key);
}

/// A gotcha counts as there already exactly where a stored one is active, can be
/// read, and agrees in rule, reason, severity, files and reference.
pub proof fn law_only_the_same_gotcha_is_a_duplicate(
    stored: StoredGotcha,
    candidate: GotchaPayload,
    key: Seq<char>,
)
    ensures
        key_step(key, Some(stored), candidate) is Duplicate <==> stored.active && (
        stored.payload matches Some(p) && gotcha_view(p) == gotcha_view(candidate)),
        key_step(key, Some(stored), candidate) is Duplicate || key_step(
            key,
            Some(stored),
            candidate,
        ) is Next,
        key_step(key, None, candidate) == KeyStepView::Take(key),
        key_step(key, Some(stored), candidate) matches KeyStepView::Duplicate(m)
            ==> text::text_contains(m, "mati gotcha edit "@ + key),
        forall|n: nat| ("gotcha:"@ + key).is_prefix_of(#[trigger] numbered_key(key, n)),
{
    if let Some(p) = stored.payload {
        let a = gotcha_view(p);
        let b = gotcha_view(candidate);
        if same_gotcha(p, candidate) {
            assert(a =~= b);
        }
    }
    let call = "mati gotcha edit "@ + key;
    reveal_strlit("mati gotcha edit ");
    reveal_strlit("'. Use `mati gotcha edit ");
    let lead = "'. Use `mati gotcha edit "@;
    let head = "a matching gotcha already exists as '"@ + key + lead.take(8);
    assert(duplicate_text(key) =~= head + call + "` to update it."@);
    text::lemma_part_occurs(head, call, "` to update it."@);
    assert forall|n: nat| ("gotcha:"@ + key).is_prefix_of(#[trigger] numbered_key(key, n)) by {
        let h = "gotcha:"@ + key;
        assert(numbered_key(key, n).subrange(0, h.len() as int) =~= h);
    }
}

/// A severity is read from its name in any case and with white space around it;
/// anything else is normal.
pub proof fn law_severity_is_read_by_name(input: Seq<char>)
    ensures
        ({
            let w = text::trimmed(text::lowercased(input));
            &&& severity_named(input) == Priority::Low <==> w == "low"@
            &&& severity_named(input) == Priority::High <==> w == "high"@
            &&& severity_named(input) == Priority::Critical <==> w == "critical"@ || w == "crit"@
            &&& severity_named(input) == Priority::Normal <==> w != "low"@ && w != "high"@ && w
                != "critical"@ && w != "crit"@
        }),
{
    reveal_strlit("low");
    reveal_strlit("high");
    reveal_strlit("critical");
    reveal_strlit("crit");
    assert("low"@.len() == 3 && "high"@.len() == 4 && "crit"@.len() == 4 && "critical"@.len() == 8);
    assert("high"@[0] == 'h' && "crit"@[0] == 'c');
}

proof fn lemma_filled_prefix(a: Seq<Seq<char>>, b: Seq<Seq<char>>, n: int)
    requires
        0 <= n <= b.len(),
    ensures
        filled_entries(a + b, a.len() + n) == filled_entries(a, a.len() as int) + filled_entries(
            b,
            n,
        ),
    decreases n,
{
    if n > 0 {
        lemma_filled_prefix(a, b, n - 1);
        assert((a + b)[a.len() + n - 1] == b[n - 1]);
        assert(filled_entries(a + b, a.len() + n) =~= filled_entries(a, a.len() as int)
            + filled_entries(b, n));
    } else {
        lemma_filled_same(a, a + b, a.len() as int);
        assert(filled_entries(a + b, a.len() as int) =~= filled_entries(a, a.len() as int)
            + filled_entries(b, 0));
    }
}

proof fn lemma_filled_same(a: Seq<Seq<char>>, b: Seq<Seq<char>>, n: int)
    requires
        0 <= n <= a.len() <= b.len(),
        forall|i: int| 0 <= i < n ==> a[i] == #[trigger] b[i],
    ensures
        filled_entries(a, n) == filled_entries(b, n),
    decreases n,
{
    if n > 0 {
        lemma_filled_same(a, b, n - 1);
        assert(a[n - 1] == b[n - 1]);
    }
}

/// The entries of a list with commas are those of its parts; an entry is taken
/// without the white space around it, and one that is empty is passed over.
pub proof fn law_lists_are_read_part_by_part(a: Seq<char>, b: Seq<char>)
    ensures
        comma_list(a + seq![','] + b) == comma_list(a) + comma_list(b),
        !a.contains(',') ==> comma_list(a) == (if text::trimmed(a).len() == 0 {
            Seq::<Seq<char>>::empty()
        } else {
            seq![text::trimmed(a)]
        }),
{
    text::lemma_split_on_append(a, b, ',');
    let x = text::split_on(a, ',');
    let y = text::split_on(b, ',');
    lemma_filled_prefix(x, y, y.len() as int);
    if !a.contains(',') {
        text::lemma_split_on_plain(a, ',');
        reveal_with_fuel(filled_entries, 2);
        assert(comma_list(a) =~= (if text::trimmed(a).len() == 0 {
            Seq::<Seq<char>>::empty()
        } else {
            seq![text::trimmed(a)]
        }));
    }
}

/// What is entered becomes the gotcha: the rule and the reason word for word, and
/// the file it is about. What is left out is normal severity and no reference.
pub proof fn law_entered_gotcha_is_kept(
    file: Seq<char>,
    rule: Seq<char>,
    reason: Seq<char>,
    severity: Option<Seq<char>>,
    x: Extras,
)
    ensures
        ({
            let g = quick_entry(file, rule, Some(reason), severity);
            &&& g.rule == rule && g.reason == reason
            &&& g.affected_files == seq![file]
            &&& g.ref_url is None
            &&& severity is None ==> g.severity == Priority::Normal
            &&& severity matches Some(s) ==> g.severity == severity_named(s)
        }),
        quick_entry(file, rule, None, severity).reason.len() == 0,
        asked_entry(file, rule, reason, None) == quick_entry(file, rule, Some(reason), None),
        ({
            let g = asked_entry(file, rule, reason, Some(x));
            &&& g.rule == rule && g.reason == reason
            &&& g.severity == severity_named(x.severity@)
            &&& x.files@.len() == 0 ==> g.affected_files == seq![file]
            &&& x.files@.len() > 0 ==> g.affected_files == comma_list(x.files@)
            &&& x.url@.len() == 0 ==> g.ref_url is None
            &&& x.url@.len() > 0 ==> g.ref_url == Some(x.url@)
        }),
{
    assert(asked_entry(file, rule, reason, None) =~= quick_entry(file, rule, Some(reason), None));
}

/// An edit changes exactly the fields that were entered, to what was entered; a
/// hyphen takes the reference away.
pub proof fn law_edit_changes_what_was_entered(old: GotchaView, i: EditInput)
    ensures
        ({
            let g = edited(old, i);
            &&& i.rule@.len() == 0 ==> g.rule == old.rule
            &&& i.rule@.len() > 0 ==> g.rule == i.rule@
            &&& i.reason@.len() == 0 ==> g.reason == old.reason
            &&& i.reason@.len() > 0 ==> g.reason == i.reason@
            &&& i.severity@.len() == 0 ==> g.severity == old.severity
            &&& i.severity@.len() > 0 ==> g.severity == severity_named(i.severity@)
            &&& i.files@.len() == 0 ==> g.affected_files == old.affected_files
            &&& i.files@.len() > 0 ==> g.affected_files == comma_list(i.files@)
            &&& i.url@.len() == 0 ==> g.ref_url == old.ref_url
            &&& i.url@ == seq!['-'] ==> g.ref_url is None
            &&& i.url@.len() > 0 && i.url@ != seq!['-'] ==> g.ref_url == Some(i.url@)
        }),
{
    reveal_strlit("-");
    assert("-"@ =~= seq!['-']);
}

/// The text of a gotcha begins with its rule and ends with its reason, where it has
/// one.
pub proof fn law_value_holds_rule_and_reason(rule: Seq<char>, reason: Seq<char>)
    ensures
        rule.is_prefix_of(value_of(rule, reason)),
        reason.is_suffix_of(value_of(rule, reason)),
        reason.len() == 0 <==> value_of(rule, reason) == rule,
        reason.len() > 0 ==> value_of(rule, reason).len() == rule.len() + 9 + reason.len(),
{
    reveal_strlit(" because ");
    let v = value_of(rule, reason);
    assert(v.subrange(0, rule.len() as int) =~= rule);
    assert(v.subrange(v.len() - reason.len(), v.len() as int) =~= reason);
}

/// Only `y` and `yes`, in any case, agree.
pub proof fn law_only_yes_agrees(answer: Seq<char>)
    ensures
        agrees(answer) <==> text::lowercased(answer) == seq!['y'] || text::lowercased(answer)
            == seq!['y', 'e', 's'],
{
    reveal_strlit("y");
    reveal_strlit("yes");
    assert("y"@ =~= seq!['y']);
    assert("yes"@ =~= seq!['y', 'e', 's']);
}

/// The gotchas of a file are the active ones that can be read and name it, in order.
pub proof fn law_gotchas_of_a_file_name_it(v: Seq<StoredGotcha>, file: Seq<char>, n: int)
    requires
        0 <= n <= v.len(),
    ensures
        forall|k: int|
            #[trigger] affecting(v, file, n).contains(k) <==> 0 <= k < n && v[k].active && (
            v[k].payload matches Some(p) && text::texts(p.affected_files@).contains(file)),
        forall|a: int, b: int|
            0 <= a < b < affecting(v, file, n).len() ==> #[trigger] affecting(v, file, n)[a]
                < #[trigger] affecting(v, file, n)[b],
    decreases n,
{
    if n > 0 {
        law_gotchas_of_a_file_name_it(v, file, n - 1);
        let before = affecting(v, file, n - 1);
        let all = affecting(v, file, n);
        assert forall|k: int|
            #[trigger] all.contains(k) <==> 0 <= k < n && v[k].active && (v[k].payload matches Some(
                p,
            ) && text::texts(p.affected_files@).contains(file)) by {
            if all.contains(k) {
                let j = choose|j: int| 0 <= j < all.len() && all[j] == k;
                if j < before.len() {
                    assert(before[j] == k);
                    assert(before.contains(k));
                }
            }
            if before.contains(k) {
                let j = choose|j: int| 0 <= j < before.len() && before[j] == k;
                assert(all[j] == k);
            }
            if k == n - 1 && affects(v[k], file) {
                assert(all[before.len() as int] == k);
            }
        }
        assert forall|a: int, b: int| 0 <= a < b < all.len() implies #[trigger] all[a]
            < #[trigger] all[b] by {
            if b < before.len() {
                assert(before[a] < before[b]);
            } else {
                assert(before.contains(before[a]));
            }
        }
    }
}

/// A gotcha is edited only where it is one of the file's, under the key that was
/// entered with or without the namespace; an empty answer adds a new one.
pub proof fn law_only_listed_gotchas_are_edited(
    input: Seq<char>,
    keys: Seq<Seq<char>>,
    r: ExistingChoice,
)
    requires
        chooses(input, keys, r),
    ensures
        r is AddNew <==> input.len() == 0,
        r matches ExistingChoice::Edit(k) ==> keys.contains(k@) && (k@ == input || k@ == "gotcha:"@
            + input),
        r is NotFound <==> input.len() > 0 && !keys.contains(gotcha_key(input)),
{
}

/// A rule in a table has at most sixty characters; one that is too long is cut and
/// marked, another one is shown whole.
pub proof fn law_table_rules_are_short(rule: Seq<char>)
    ensures
        table_rule(rule).len() <= 60,
        rule.len() <= 60 <==> table_rule(rule) == rule,
        rule.len() > 60 ==> table_rule(rule).drop_last() == rule.take(59),
{
    reveal_strlit("\u{2026}");
    assert(rule.len() > 60 ==> table_rule(rule).drop_last() =~= rule.take(59));
}

/// A key of another namespace is refused and told apart; a gotcha's key, with or
/// without its namespace, never is.
pub proof fn law_only_gotchas_are_confirmed(key: Seq<char>)
    ensures
        other_namespace(key) is Some <==> {
            ||| "file:"@.is_prefix_of(key)
            ||| "decision:"@.is_prefix_of(key)
            ||| "dev_note:"@.is_prefix_of(key)
            ||| "dep:"@.is_prefix_of(key)
            ||| "stage:"@.is_prefix_of(key)
        },
        other_namespace("gotcha:"@ + key) is None,
        other_namespace(key) matches Some(c) ==> (c + ":"@).is_prefix_of(key) && text::text_contains(
            wrong_namespace(key, c),
            key.skip(c.len() as int + 1),
        ),
{
    reveal_strlit("gotcha:");
    reveal_strlit("file:");
    reveal_strlit("decision:");
    reveal_strlit("dev_note:");
    reveal_strlit("dep:");
    reveal_strlit("stage:");
    reveal_strlit("file");
    reveal_strlit("decision");
    reveal_strlit("dev_note");
    reveal_strlit("dep");
    reveal_strlit("stage");
    reveal_strlit(":");
    let g = "gotcha:"@ + key;
    assert(g[0] == 'g');
    if "file:"@.is_prefix_of(g) {
        assert(g.subrange(0, 5)[0] == "file:"@[0]);
    }
    if "decision:"@.is_prefix_of(g) {
        assert(g.subrange(0, 9)[0] == "decision:"@[0]);
    }
    if "dev_note:"@.is_prefix_of(g) {
        assert(g.subrange(0, 9)[0] == "dev_note:"@[0]);
    }
    if "dep:"@.is_prefix_of(g) {
        assert(g.subrange(0, 4)[0] == "dep:"@[0]);
    }
    if "stage:"@.is_prefix_of(g) {
        assert(g.subrange(0, 6)[0] == "stage:"@[0]);
    }
    assert("file"@ + ":"@ =~= "file:"@);
    assert("decision"@ + ":"@ =~= "decision:"@);
    assert("dev_note"@ + ":"@ =~= "dev_note:"@);
    assert("dep"@ + ":"@ =~= "dep:"@);
    assert("stage"@ + ":"@ =~= "stage:"@);
    if let Some(c) = other_namespace(key) {
        let slug = key.skip(c.len() as int + 1);
        let head = "'"@ + key + "' has category '"@ + c
            + "', not 'gotcha'.\nPass just the slug (e.g., '"@;
        text::lemma_part_occurs(head, slug, "') or the full gotcha: key."@);
    }
}

/// A record is confirmed exactly where it is there, is a gotcha and was not deleted.
pub proof fn law_only_active_gotchas_are_confirmed(key: Seq<char>, state: Option<ConfirmState>)
    ensures
        confirm_error(key, state) is None <==> (state matches Some(s) && s.category
            == Category::Gotcha && s.lifecycle is Active),
        confirm_error(key, state) matches Some(e) ==> text::text_contains(e, "'"@ + key + "'"@),
{
    let q = "'"@ + key + "'"@;
    let none = Seq::<char>::empty();
    reveal_strlit("'");
    reveal_strlit("no record found for '");
    reveal_strlit("' is not a Gotcha record (category: ");
    reveal_strlit("' is tombstoned \u{2014} cannot confirm a deleted record");
    if let Some(e) = confirm_error(key, state) {
        match state {
            None => {
                let head = "no record found for '"@.drop_last();
                assert(e =~= head + q + none);
                text::lemma_part_occurs(head, q, none);
            },
            Some(s) => if s.category != Category::Gotcha {
                let tail = "' is not a Gotcha record (category: "@.skip(1) + category_word(
                    s.category,
                ) + ")"@;
                assert(e =~= none + q + tail);
                text::lemma_part_occurs(none, q, tail);
            } else {
                let tail = "' is tombstoned \u{2014} cannot confirm a deleted record"@.skip(1);
                assert(e =~= none + q + tail);
                text::lemma_part_occurs(none, q, tail);
            },
        }
    }
}

/// Reading a stored gotcha puts its severity into lower case and keeps everything
/// else; confirming does the same and marks it confirmed.
pub proof fn law_stored_severity_is_put_in_lower_case(
    m: Seq<(Seq<char>, JsonView)>,
    name: Seq<char>,
)
    ensures
        ({
            let read = plain_payload(JsonView::Object(m));
            let after = confirmed_payload(JsonView::Object(m));
            &&& name != "severity"@ ==> json::member(read, name) == json::lookup(m, name)
            &&& json::lookup(m, "severity"@) matches Some(JsonView::Str(s)) ==> json::member(
                read,
                "severity"@,
            ) == Some(JsonView::Str(text::lowercased(s)))
            &&& json::member(after, "severity"@) == json::member(read, "severity"@)
            &&& json::member(after, "confirmed"@) == Some(JsonView::Bool(true))
        }),
{
    reveal_strlit("severity");
    reveal_strlit("confirmed");
    assert("severity"@.len() != "confirmed"@.len());
    let w = with_plain_severity(m);
    json::lemma_put_lookup(w, "confirmed"@, JsonView::Bool(true), "severity"@);
    json::lemma_put_lookup(w, "confirmed"@, JsonView::Bool(true), "confirmed"@);
    if let Some(s) = json::text_value(json::lookup(m, "severity"@)) {
        let v = JsonView::Str(text::lowercased(s));
        json::lemma_put_lookup(m, "severity"@, v, name);
        json::lemma_put_lookup(m, "severity"@, v, "severity"@);
    }
}

/// A gotcha that a developer adds is their own and confirmed once. Each write moves
/// its clock on by one and dates it anew; only a confirmation adds to the
/// confirmations, and only it makes the gotcha the developer's own.
pub proof fn law_writes_move_the_clock(s: Stamps, now: u64)
    requires
        s.logical_clock < u64::MAX,
        s.confirmations < u32::MAX,
    ensures
        ({
            let e = edited_stamps(s, now);
            let c = confirmed_stamps(s, now);
            let f = first_stamps(now);
            &&& e.logical_clock == s.logical_clock + 1 && c.logical_clock == s.logical_clock + 1
            &&& e.updated_at == now && c.updated_at == now && f.updated_at == now
            &&& e.wall_clock == now && c.wall_clock == now && f.wall_clock == now
            &&& e.source == s.source && e.confirmations == s.confirmations
            &&& c.source == RecordSource::DeveloperManual && c.confirmations == s.confirmations + 1
            &&& f.source == RecordSource::DeveloperManual && f.confirmations == 1
                && f.logical_clock == 1
        }),
{
}

/// Every file of a new gotcha has a line that links it to the key.
pub proof fn law_links_name_file_and_key(key: Seq<char>, files: Seq<Seq<char>>, i: int)
    requires
        0 <= i < files.len(),
    ensures
        link_texts(key, files).len() == files.len(),
        text::text_contains(link_texts(key, files)[i], "file:"@ + files[i]),
        key.is_suffix_of(link_texts(key, files)[i]),
{
    let l = link_texts(key, files)[i];
    let f = "file:"@ + files[i];
    reveal_strlit("  -> file:");
    reveal_strlit("file:");
    let head = "  -> file:"@.take(5);
    let tail = " HasGotcha "@ + key;
    assert(l =~= head + f + tail);
    text::lemma_part_occurs(head, f, tail);
    assert(l.subrange(l.len() - key.len(), l.len() as int) =~= key);
}

/// Before an edit or a deletion the developer sees what the gotcha says.
pub proof fn law_headers_show_the_gotcha(key: Seq<char>, g: GotchaView)
    ensures
        ({
            let e = edit_text(key, g, false);
            let d = delete_text(key, g, false);
            &&& key.is_suffix_of(e[1]) && key.is_suffix_of(d[1])
            &&& g.rule.is_suffix_of(e[3]) && g.rule.is_suffix_of(d[2])
            &&& g.reason.is_suffix_of(e[4]) && g.reason.is_suffix_of(d[3])
            &&& e[5] == "  Severity: "@ + (match g.severity {
                Priority::Low => "Low"@,
                Priority::Normal => "Normal"@,
                Priority::High => "High"@,
                Priority::Critical => "Critical"@,
            })
            &&& e[6] == "  Files:    "@ + text::joined(g.affected_files, ", "@)
            &&& d[4] == "  Files:  "@ + text::joined(g.affected_files, ", "@)
            &&& g.ref_url matches Some(u) ==> u.is_suffix_of(e[7])
        }),
{
    let e = edit_text(key, g, false);
    let d = delete_text(key, g, false);
    colors::law_painting_keeps_the_text(colors::BLUE@, key);
    colors::law_painting_keeps_the_text(colors::RESET@, key);
    colors::law_painting_keeps_the_text(colors::YELLOW@, key);
    assert(e[1].subrange(e[1].len() - key.len(), e[1].len() as int) =~= key);
    assert(d[1].subrange(d[1].len() - key.len(), d[1].len() as int) =~= key);
    assert(e[3].subrange(e[3].len() - g.rule.len(), e[3].len() as int) =~= g.rule);
    assert(d[2].subrange(d[2].len() - g.rule.len(), d[2].len() as int) =~= g.rule);
    assert(e[4].subrange(e[4].len() - g.reason.len(), e[4].len() as int) =~= g.reason);
    assert(d[3].subrange(d[3].len() - g.reason.len(), d[3].len() as int) =~= g.reason);
    if let Some(u) = g.ref_url {
        assert(e[7].subrange(e[7].len() - u.len(), e[7].len() as int) =~= u);
    }
}

} // verus!
