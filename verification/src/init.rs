//! What `mati init` decides: whether it may run, how the generated gotchas are
//! tied to the file records, what has become stale, and what is reported.
use vstd::prelude::*;
use crate::daemon::Ping;
use crate::host::Assistant;
use crate::json;
use crate::record::StalenessSignal;
use crate::signals;
use crate::signals::{GitSignals, GotchaStub, Pair};
use crate::text;

verus! {

/// Arguments of `mati init`.
#[derive(Debug, PartialEq, Eq)]
pub struct InitArgs {
    /// Path to the repository root; the current directory where it is left out.
    pub path: Option<String>,
    /// Do not install hooks.
    pub no_hooks: bool,
    /// Do not write the settings.
    pub no_settings: bool,
}

/// Why `mati init` may not run: a daemon holds the store, or may hold it.
pub open spec fn lock_holder(ping: Ping) -> Option<Seq<char>> {
    match ping {
        Ping::Answered => Some(
            "mati daemon is running and holds the store lock.\nStop it first, then re-run init:\n\n  mati daemon stop\n"@,
        ),
        Ping::Unresponsive => Some(
            "mati daemon socket exists but is not responding (may hold the store lock).\nStop it first:\n\n  mati daemon stop\n"@,
        ),
        Ping::NotRunning | Ping::StaleSocket => None,
    }
}

pub fn init_refusal(ping: Ping) -> (r: Option<String>)
    ensures
        json::opt_text(r) == lock_holder(ping),
{
    match ping {
        Ping::Answered => Some(
            "mati daemon is running and holds the store lock.\nStop it first, then re-run init:\n\n  mati daemon stop\n".to_owned(),
        ),
        Ping::Unresponsive => Some(
            "mati daemon socket exists but is not responding (may hold the store lock).\nStop it first:\n\n  mati daemon stop\n".to_owned(),
        ),
        Ping::NotRunning | Ping::StaleSocket => None,
    }
}

/// The opening line. A root without a name is called unknown.
pub fn project_line(name: Option<&str>, slug: &str) -> (r: String)
    ensures
        r@ == "\u{25c8}  mati \u{2014} project: "@ + (match name {
            Some(n) => n@,
            None => "unknown"@,
        }) + "  (slug: "@ + slug@ + ")"@,
{
    "\u{25c8}  mati \u{2014} project: ".to_owned().concat(
        match name {
            Some(n) => n,
            None => "unknown",
        },
    ).concat("  (slug: ").concat(slug).concat(")")
}

// ---------------------------------------------------------------------------
// Tying gotchas to file records
// ---------------------------------------------------------------------------

/// The gotchas that a file record refers to.
#[derive(Debug, PartialEq, Eq)]
pub struct FileKeys {
    pub path: String,
    pub gotcha_keys: Vec<String>,
}

/// Not beginning with `prefix`.
pub open spec fn outside(prefix: Seq<char>) -> spec_fn(Seq<char>) -> bool {
    |k: Seq<char>| !prefix.is_prefix_of(k)
}

/// The keys of the first `n` stubs that are attached to `path`.
pub open spec fn keys_on(stubs: Seq<signals::StubView>, path: Seq<char>, n: int) -> Seq<Seq<char>>
    decreases n,
{
    if n <= 0 {
        Seq::empty()
    } else {
        let before = keys_on(stubs, path, n - 1);
        if stubs[n - 1].source_path == path {
            before.push(stubs[n - 1].key)
        } else {
            before
        }
    }
}

/// The keys of a file after its generated gotchas of one kind, those whose keys
/// begin with `prefix`, were replaced.
pub open spec fn relinked(
    keys: Seq<Seq<char>>,
    path: Seq<char>,
    prefix: Seq<char>,
    stubs: Seq<signals::StubView>,
) -> Seq<Seq<char>> {
    keys.filter(outside(prefix)) + keys_on(stubs, path, stubs.len() as int)
}

/// Keeps the keys that do not begin with `prefix`.
fn keep_outside(keys: &Vec<String>, prefix: &str) -> (r: Vec<String>)
    ensures
        text::texts(r@) == text::texts(keys@).filter(outside(prefix@)),
{
    let ghost all = text::texts(keys@);
    let ghost f = outside(prefix@);
    let mut out: Vec<String> = Vec::new();
    let mut i: usize = 0;
    assert(all.take(0).filter(f) =~= Seq::<Seq<char>>::empty()) by {
        reveal(Seq::filter);
    }
    while i < keys.len()
        invariant
            i <= keys.len(),
            all == text::texts(keys@),
            f == outside(prefix@),
            text::texts(out@) =~= all.take(i as int).filter(f),
        decreases keys.len() - i,
    {
        proof {
            assert(all.take(i + 1) =~= all.take(i as int).push(all[i as int]));
            all.take(i as int).lemma_filter_push(all[i as int], f);
        }
        if !text::starts_with(keys[i].as_str(), prefix) {
            text::push_line(&mut out, keys[i].clone());
        }
        i = i + 1;
    }
    assert(all.take(i as int) =~= all);
    out
}

/// Replaces the generated gotchas of one kind in a file record.
pub fn link_gotchas(file: &mut FileKeys, prefix: &str, stubs: &Vec<GotchaStub>)
    ensures
        final(file).path == old(file).path,
        text::texts(final(file).gotcha_keys@) == relinked(
            text::texts(old(file).gotcha_keys@),
            old(file).path@,
            prefix@,
            signals::stub_views(stubs@),
        ),
{
    let mut keys = keep_outside(&file.gotcha_keys, prefix);
    let ghost kept = text::texts(keys@);
    let ghost views = signals::stub_views(stubs@);
    let mut i: usize = 0;
    assert(kept + keys_on(views, file.path@, 0) =~= kept);
    while i < stubs.len()
        invariant
            i <= stubs.len(),
            views == signals::stub_views(stubs@),
            *file == *old(file),
            text::texts(keys@) == kept + keys_on(views, file.path@, i as int),
        decreases stubs.len() - i,
    {
        assert(views[i as int] == stubs@[i as int]@);
        let ghost before = keys_on(views, file.path@, i as int);
        if text::same(stubs[i].source_path.as_str(), file.path.as_str()) {
            text::push_line(&mut keys, stubs[i].key.clone());
            assert((kept + before).push(views[i as int].key) =~= kept + before.push(
                views[i as int].key,
            ));
        }
        i = i + 1;
    }
    file.gotcha_keys = keys;
}

/// Linking replaces keys of its own kind only: the others stay, in their order.
pub proof fn law_linking_keeps_other_keys(
    keys: Seq<Seq<char>>,
    path: Seq<char>,
    prefix: Seq<char>,
    stubs: Seq<signals::StubView>,
)
    requires
        forall|k: int| 0 <= k < stubs.len() ==> prefix.is_prefix_of((#[trigger] stubs[k]).key),
    ensures
        relinked(keys, path, prefix, stubs).filter(outside(prefix)) == keys.filter(outside(prefix)),
{
    let f = outside(prefix);
    let a = keys.filter(f);
    let b = keys_on(stubs, path, stubs.len() as int);
    lemma_keys_on_have_prefix(path, prefix, stubs, stubs.len() as int);
    Seq::filter_distributes_over_add(a, b, f);
    lemma_filter_all(a, f);
    lemma_filter_none(b, f);
    assert(a.filter(f) + b.filter(f) =~= a);
}

/// Linking twice is the same as linking once.
pub proof fn law_linking_is_idempotent(
    keys: Seq<Seq<char>>,
    path: Seq<char>,
    prefix: Seq<char>,
    stubs: Seq<signals::StubView>,
)
    requires
        forall|k: int| 0 <= k < stubs.len() ==> prefix.is_prefix_of((#[trigger] stubs[k]).key),
    ensures
        ({
            let once = relinked(keys, path, prefix, stubs);
            relinked(once, path, prefix, stubs) == once
        }),
{
    law_linking_keeps_other_keys(keys, path, prefix, stubs);
}

proof fn lemma_keys_on_have_prefix(
    path: Seq<char>,
    prefix: Seq<char>,
    stubs: Seq<signals::StubView>,
    n: int,
)
    requires
        0 <= n <= stubs.len(),
        forall|k: int| 0 <= k < stubs.len() ==> prefix.is_prefix_of((#[trigger] stubs[k]).key),
    ensures
        forall|k: int|
            0 <= k < keys_on(stubs, path, n).len() ==> !outside(prefix)(
                #[trigger] keys_on(stubs, path, n)[k],
            ),
    decreases n,
{
    if n > 0 {
        lemma_keys_on_have_prefix(path, prefix, stubs, n - 1);
        assert(prefix.is_prefix_of(stubs[n - 1].key));
        let before = keys_on(stubs, path, n - 1);
        let all = keys_on(stubs, path, n);
        assert forall|k: int| 0 <= k < all.len() implies !outside(prefix)(#[trigger] all[k]) by {
            if k < before.len() {
                assert(all[k] == before[k]);
            }
        }
    }
}

proof fn lemma_filter_none(s: Seq<Seq<char>>, f: spec_fn(Seq<char>) -> bool)
    requires
        forall|k: int| 0 <= k < s.len() ==> !f(#[trigger] s[k]),
    ensures
        s.filter(f) == Seq::<Seq<char>>::empty(),
    decreases s.len(),
{
    reveal(Seq::filter);
    if s.len() > 0 {
        let init = s.drop_last();
        assert forall|k: int| 0 <= k < init.len() implies !f(#[trigger] init[k]) by {
            assert(init[k] == s[k]);
        }
        assert(!f(s[s.len() - 1]));
        lemma_filter_none(init, f);
    }
}

/// What passed a filter passes it again.
proof fn lemma_filter_all(a: Seq<Seq<char>>, f: spec_fn(Seq<char>) -> bool)
    requires
        exists|s: Seq<Seq<char>>| a == #[trigger] s.filter(f),
    ensures
        a.filter(f) == a,
{
    let s = choose|s: Seq<Seq<char>>| a == #[trigger] s.filter(f);
    assert forall|k: int| 0 <= k < a.len() implies f(#[trigger] a[k]) by {
        s.lemma_filter_pred(f, k);
    }
    lemma_filter_keeps(a, f);
}

proof fn lemma_filter_keeps(a: Seq<Seq<char>>, f: spec_fn(Seq<char>) -> bool)
    requires
        forall|k: int| 0 <= k < a.len() ==> f(#[trigger] a[k]),
    ensures
        a.filter(f) == a,
    decreases a.len(),
{
    reveal(Seq::filter);
    if a.len() > 0 {
        let init = a.drop_last();
        assert forall|k: int| 0 <= k < init.len() implies f(#[trigger] init[k]) by {
            assert(init[k] == a[k]);
        }
        assert(f(a[a.len() - 1]));
        lemma_filter_keeps(init, f);
        assert(init.push(a.last()) =~= a);
    }
}

/// Being none of the keys.
pub open spec fn not_among(keys: Seq<Seq<char>>) -> spec_fn(Seq<char>) -> bool {
    |k: Seq<char>| !keys.contains(k)
}

/// The keys of stubs.
pub open spec fn keys_of(stubs: Seq<signals::StubView>) -> Seq<Seq<char>> {
    stubs.map_values(|g: signals::StubView| g.key)
}

fn has_key(stubs: &Vec<GotchaStub>, key: &str) -> (r: bool)
    ensures
        r == keys_of(signals::stub_views(stubs@)).contains(key@),
{
    let ghost all = keys_of(signals::stub_views(stubs@));
    let mut i: usize = 0;
    while i < stubs.len()
        invariant
            i <= stubs.len(),
            all == keys_of(signals::stub_views(stubs@)),
            forall|k: int| 0 <= k < i ==> #[trigger] all[k] != key@,
        decreases stubs.len() - i,
    {
        assert(all[i as int] == stubs@[i as int].key@);
        if text::same(stubs[i].key.as_str(), key) {
            return true;
        }
        i = i + 1;
    }
    false
}

/// The stored gotchas of one kind that the history no longer suggests.
pub fn outdated_keys(existing: &Vec<String>, stubs: &Vec<GotchaStub>) -> (r: Vec<String>)
    ensures
        text::texts(r@) == text::texts(existing@).filter(
            not_among(keys_of(signals::stub_views(stubs@))),
        ),
{
    let ghost all = text::texts(existing@);
    let ghost f = not_among(keys_of(signals::stub_views(stubs@)));
    let mut out: Vec<String> = Vec::new();
    let mut i: usize = 0;
    assert(all.take(0).filter(f) =~= Seq::<Seq<char>>::empty()) by {
        reveal(Seq::filter);
    }
    while i < existing.len()
        invariant
            i <= existing.len(),
            all == text::texts(existing@),
            f == not_among(keys_of(signals::stub_views(stubs@))),
            text::texts(out@) =~= all.take(i as int).filter(f),
        decreases existing.len() - i,
    {
        proof {
            assert(all.take(i + 1) =~= all.take(i as int).push(all[i as int]));
            all.take(i as int).lemma_filter_push(all[i as int], f);
        }
        if !has_key(stubs, existing[i].as_str()) {
            text::push_line(&mut out, existing[i].clone());
        }
        i = i + 1;
    }
    assert(all.take(i as int) =~= all);
    out
}

// ---------------------------------------------------------------------------
// Staleness
// ---------------------------------------------------------------------------

/// What is compared of a file between two runs.
#[derive(Debug, PartialEq, Eq)]
pub struct FileState {
    pub content_hash: Option<String>,
    pub line_count: u32,
}

/// How many lines a file has gained or lost.
pub open spec fn line_delta(new: nat, old: nat) -> nat {
    if new < old {
        (old - new) as nat
    } else {
        (new - old) as nat
    }
}

/// Whether a file's contents have changed between two states with lines.
pub open spec fn has_changed(new: FileState, old: Option<FileState>) -> bool {
    match old {
        Some(o) => match (new.content_hash, o.content_hash) {
            (Some(a), Some(b)) => new.line_count > 0 && o.line_count > 0 && a@ != b@,
            _ => false,
        },
        None => false,
    }
}

/// The change of a file since its stored record, as the lines gained or lost and
/// the lines it had; none where it did not change or cannot be compared.
pub fn changed_lines(new: &FileState, old: &Option<FileState>) -> (r: Option<(u32, u32)>)
    ensures
        match r {
            Some((delta, before)) => {
                &&& has_changed(*new, *old)
                &&& old matches Some(o) && before == o.line_count && delta == line_delta(
                    new.line_count as nat,
                    o.line_count as nat,
                )
                &&& before > 0
            },
            None => !has_changed(*new, *old),
        },
{
    match old {
        Some(o) => {
            if let Some(a) = &new.content_hash {
                if let Some(b) = &o.content_hash {
                    if new.line_count > 0 && o.line_count > 0 && !text::same(
                        a.as_str(),
                        b.as_str(),
                    ) {
                        let delta: u32 = if new.line_count < o.line_count {
                            o.line_count - new.line_count
                        } else {
                            new.line_count - o.line_count
                        };
                        return Some((delta, o.line_count));
                    }
                }
            }
            None
        },
        None => None,
    }
}

/// Whether a change touches at least a tenth of the lines.
pub fn is_significant(delta: u32, before: u32) -> (r: bool)
    ensures
        r == (10 * delta >= before),
{
    10 * delta as u64 >= before as u64
}

/// A file whose partner has changed.
#[derive(Debug, PartialEq, Eq)]
pub struct Flag {
    pub partner: String,
    pub changed: String,
}

pub open spec fn flag_views(v: Seq<Flag>) -> Seq<(Seq<char>, Seq<char>)> {
    v.map_values(|f: Flag| (f.partner@, f.changed@))
}

/// The flags of a pair: where one of the files has changed and the other has not,
/// the other is flagged.
pub open spec fn pair_flags(p: Pair, changed: Seq<Seq<char>>) -> Seq<(Seq<char>, Seq<char>)> {
    if changed.contains(p.a@) && !changed.contains(p.b@) {
        seq![(p.b@, p.a@)]
    } else if changed.contains(p.b@) && !changed.contains(p.a@) {
        seq![(p.a@, p.b@)]
    } else {
        Seq::empty()
    }
}

pub open spec fn flags_of(pairs: Seq<Pair>, changed: Seq<Seq<char>>, n: int) -> Seq<
    (Seq<char>, Seq<char>),
>
    decreases n,
{
    if n <= 0 {
        Seq::empty()
    } else {
        flags_of(pairs, changed, n - 1) + pair_flags(pairs[n - 1], changed)
    }
}

/// The files that a significant change may have made stale though they did not
/// change themselves, in the order of the pairs.
pub fn flag_partners(pairs: &Vec<Pair>, changed: &Vec<String>) -> (r: Vec<Flag>)
    ensures
        flag_views(r@) == flags_of(pairs@, text::texts(changed@), pairs@.len() as int),
{
    let mut out: Vec<Flag> = Vec::new();
    let ghost set = text::texts(changed@);
    let mut i: usize = 0;
    assert(flag_views(out@) =~= Seq::<(Seq<char>, Seq<char>)>::empty());
    while i < pairs.len()
        invariant
            i <= pairs.len(),
            set == text::texts(changed@),
            flag_views(out@) == flags_of(pairs@, set, i as int),
        decreases pairs.len() - i,
    {
        let p = &pairs[i];
        let a = text::list_contains(changed, p.a.as_str());
        let b = text::list_contains(changed, p.b.as_str());
        let ghost before = out@;
        if a && !b {
            out.push(Flag { partner: p.b.clone(), changed: p.a.clone() });
        } else if b && !a {
            out.push(Flag { partner: p.a.clone(), changed: p.b.clone() });
        }
        assert(flag_views(out@) =~= flag_views(before) + pair_flags(*p, set));
        i = i + 1;
    }
    out
}

/// A file that has changed itself is never flagged, and what it is flagged for
/// has changed.
pub proof fn law_flags_are_implicit(pairs: Seq<Pair>, changed: Seq<Seq<char>>, n: int, k: int)
    requires
        0 <= k < flags_of(pairs, changed, n).len(),
    ensures
        !changed.contains(flags_of(pairs, changed, n)[k].0),
        changed.contains(flags_of(pairs, changed, n)[k].1),
    decreases n,
{
    if n > 0 {
        let before = flags_of(pairs, changed, n - 1);
        if k < before.len() {
            law_flags_are_implicit(pairs, changed, n - 1, k);
        }
    }
}

/// Whether a record already says that a linked file has changed.
pub open spec fn says_linked_changed(v: Seq<StalenessSignal>, path: Seq<char>) -> bool {
    exists|k: int|
        0 <= k < v.len() && (#[trigger] v[k] matches StalenessSignal::LinkedFileChanged { path: p }
            && p@ == path)
}

/// Notes on a record that a linked file has changed, once.
pub fn note_linked_change(v: &mut Vec<StalenessSignal>, path: &str)
    ensures
        if says_linked_changed(old(v)@, path@) {
            final(v)@ == old(v)@
        } else {
            &&& final(v)@.len() == old(v)@.len() + 1
            &&& final(v)@.drop_last() == old(v)@
            &&& final(v)@.last() matches StalenessSignal::LinkedFileChanged { path: p } && p@
                == path@
        },
        says_linked_changed(final(v)@, path@),
{
    let mut i: usize = 0;
    while i < v.len()
        invariant
            i <= v.len(),
            v@ == old(v)@,
            forall|k: int|
                0 <= k < i ==> !(#[trigger] v@[k] matches StalenessSignal::LinkedFileChanged {
                    path: p,
                } && p@ == path@),
        decreases v.len() - i,
    {
        if let StalenessSignal::LinkedFileChanged { path: p } = &v[i] {
            if text::same(p.as_str(), path) {
                assert(v@[i as int] matches StalenessSignal::LinkedFileChanged { path: p } && p@
                    == path@);
                return ;
            }
        }
        i = i + 1;
    }
    let s = StalenessSignal::LinkedFileChanged { path: path.to_owned() };
    v.push(s);
    assert(v@.drop_last() =~= old(v)@);
    assert(v@[v@.len() - 1] matches StalenessSignal::LinkedFileChanged { path: p } && p@ == path@);
}

// ---------------------------------------------------------------------------
// Records
// ---------------------------------------------------------------------------

/// The version of a dependency.
#[derive(Debug, PartialEq, Eq)]
pub enum DepVersion {
    Declared(String),
    Workspace,
}

#[derive(Debug, Clone, Copy, PartialEq, Eq, Structural)]
pub enum ManifestKind {
    CargoToml,
    PackageJson,
    GoMod,
}

/// The text of a dependency record.
pub open spec fn dep_text(name: Seq<char>, version: DepVersion) -> Seq<char> {
    match version {
        DepVersion::Declared(v) => name + " = \""@ + v@ + "\""@,
        DepVersion::Workspace => name + " (workspace)"@,
    }
}

pub fn dep_value(name: &str, version: &DepVersion) -> (r: String)
    ensures
        r@ == dep_text(name@, *version),
{
    match version {
        DepVersion::Declared(v) => name.to_owned().concat(" = \"").concat(v.as_str()).concat("\""),
        DepVersion::Workspace => name.to_owned().concat(" (workspace)"),
    }
}

pub open spec fn manifest_tag(m: ManifestKind) -> Seq<char> {
    match m {
        ManifestKind::CargoToml => "manifest:cargo-toml"@,
        ManifestKind::PackageJson => "manifest:package-json"@,
        ManifestKind::GoMod => "manifest:go-mod"@,
    }
}

/// The tags of a dependency record.
pub open spec fn dep_tag_texts(manifest: ManifestKind, dev: bool) -> Seq<Seq<char>> {
    seq![
        manifest_tag(manifest),
        if dev {
            "dev-dep"@
        } else {
            "dep"@
        },
    ]
}

pub fn dep_tags(manifest: ManifestKind, dev: bool) -> (r: Vec<String>)
    ensures
        text::texts(r@) == dep_tag_texts(manifest, dev),
{
    let mut v: Vec<String> = Vec::new();
    text::push_line(
        &mut v,
        match manifest {
            ManifestKind::CargoToml => "manifest:cargo-toml".to_owned(),
            ManifestKind::PackageJson => "manifest:package-json".to_owned(),
            ManifestKind::GoMod => "manifest:go-mod".to_owned(),
        },
    );
    text::push_line(
        &mut v,
        if dev {
            "dev-dep".to_owned()
        } else {
            "dep".to_owned()
        },
    );
    assert(text::texts(v@) =~= dep_tag_texts(manifest, dev));
    v
}

/// How a file record is promoted where a doc comment states its purpose: the
/// purpose becomes its value, with this confidence in hundredths. Other records
/// stay as they are.
pub fn doc_promotion(purpose: &str) -> (r: Option<(String, u32)>)
    ensures
        match r {
            Some((value, confidence)) => purpose@.len() > 0 && value@ == purpose@ && confidence
                == 45,
            None => purpose@.len() == 0,
        },
{
    if purpose.is_empty() {
        None
    } else {
        Some((purpose.to_owned(), 45))
    }
}

/// Where the logical clocks of the records of a run begin.
#[derive(Debug, Clone, Copy, PartialEq, Eq, Structural)]
pub struct Clocks {
    pub cochange: u64,
    pub revert: u64,
    pub ownership: u64,
    pub files: u64,
    pub deps: u64,
}

/// Lays the clocks of the records end to end: the imported ones come first.
pub fn clock_plan(imported: u64, cochange: u64, revert: u64, ownership: u64, files: u64) -> (r:
    Clocks)
    requires
        imported + cochange + revert + ownership + files <= u64::MAX,
    ensures
        r.cochange == imported,
        r.revert == r.cochange + cochange,
        r.ownership == r.revert + revert,
        r.files == r.ownership + ownership,
        r.deps == r.files + files,
{
    Clocks {
        cochange: imported,
        revert: imported + cochange,
        ownership: imported + cochange + revert,
        files: imported + cochange + revert + ownership,
        deps: imported + cochange + revert + ownership + files,
    }
}

/// A run that skipped no file has seen the whole repository.
pub fn is_cold(skipped: u64) -> (r: bool)
    ensures
        r == (skipped == 0),
{
    skipped == 0
}

/// Whether the graph has to be loaded: not where a warm run found no new edge.
pub fn needs_graph(edges: u64, skipped: u64) -> (r: bool)
    ensures
        r == !(edges == 0 && skipped > 0),
{
    !(edges == 0 && skipped > 0)
}

// ---------------------------------------------------------------------------
// What a run writes
// ---------------------------------------------------------------------------

/// The gotchas that the history suggests.
#[derive(Debug, PartialEq, Eq)]
pub struct Stubs {
    pub cochange: Vec<GotchaStub>,
    pub revert: Vec<GotchaStub>,
    pub ownership: Vec<GotchaStub>,
}

/// The clocks of the suggestions, which begin at `start`, can be counted.
pub open spec fn suggestions_fit(g: GitSignals, start: nat) -> bool {
    &&& signals::commits_fit(g)
    &&& start + 2 * g.co_change_pairs@.len() + g.revert_counts@.len()
        + g.author_commit_counts@.len() <= u64::MAX
}

/// `r` holds what a history suggests. The clocks of each kind begin behind those of
/// the kind before it.
pub open spec fn are_suggested(g: GitSignals, start: nat, now: nat, r: Stubs) -> bool {
    let after_cochange = start + r.cochange@.len();
    let after_revert = after_cochange + r.revert@.len();
    &&& exists|order: Seq<usize>| #[trigger]
        signals::are_cochange_gotchas(
            signals::all_candidates(g),
            order,
            start,
            now,
            signals::stub_views(r.cochange@),
        )
    &&& exists|order: Seq<usize>| #[trigger]
        signals::are_revert_gotchas(
            signals::all_contested(g),
            order,
            after_cochange,
            now,
            signals::stub_views(r.revert@),
        )
    &&& exists|order: Seq<usize>| #[trigger]
        signals::are_ownership_gotchas(
            signals::all_silos(g),
            order,
            after_revert,
            now,
            signals::stub_views(r.ownership@),
        )
}

/// Derives the gotchas of a history. Without one there are none. `imported` records
/// come before them.
pub fn suggest(history: &Option<GitSignals>, imported: u64, now: u64) -> (r: Stubs)
    requires
        history matches Some(g) ==> suggestions_fit(*g, imported as nat),
    ensures
        match *history {
            Some(g) => {
                &&& are_suggested(g, imported as nat, now as nat, r)
                &&& imported + r.cochange@.len() + r.revert@.len() + r.ownership@.len() <= u64::MAX
            },
            None => r.cochange@.len() == 0 && r.revert@.len() == 0 && r.ownership@.len() == 0,
        },
{
    match history {
        Some(g) => {
            let cochange = signals::build_cochange_gotchas(g, imported, now);
            let after_cochange: u64 = imported + cochange.len() as u64;
            let revert = signals::build_revert_gotchas(g, after_cochange, now);
            let after_revert: u64 = after_cochange + revert.len() as u64;
            let ownership = signals::build_ownership_gotchas(g, after_revert, now);
            let r = Stubs { cochange, revert, ownership };
            proof {
                let start = imported as nat;
                let j = choose|order: Seq<usize>| #[trigger]
                    signals::are_revert_gotchas(
                        signals::all_contested(*g),
                        order,
                        after_cochange as nat,
                        now as nat,
                        signals::stub_views(r.revert@),
                    );
                let l = choose|order: Seq<usize>| #[trigger]
                    signals::are_ownership_gotchas(
                        signals::all_silos(*g),
                        order,
                        after_revert as nat,
                        now as nat,
                        signals::stub_views(r.ownership@),
                    );
                let second: nat = start + r.cochange@.len();
                let third: nat = second + r.revert@.len();
                assert(second == after_cochange as nat);
                assert(third == after_revert as nat);
                assert(signals::are_revert_gotchas(
                    signals::all_contested(*g),
                    j,
                    second,
                    now as nat,
                    signals::stub_views(r.revert@),
                ));
                assert(signals::are_ownership_gotchas(
                    signals::all_silos(*g),
                    l,
                    third,
                    now as nat,
                    signals::stub_views(r.ownership@),
                ));
            }
            r
        },
        None => Stubs { cochange: Vec::new(), revert: Vec::new(), ownership: Vec::new() },
    }
}

/// The suggestions of a run have the clocks from `start` on, one each, in the order
/// co-change, revert, ownership.
pub proof fn law_suggestions_count_up(g: GitSignals, start: nat, now: nat, r: Stubs, k: int)
    requires
        are_suggested(g, start, now, r),
    ensures
        0 <= k < r.cochange@.len() ==> r.cochange@[k].logical_clock == start + k,
        0 <= k < r.revert@.len() ==> r.revert@[k].logical_clock == start + r.cochange@.len() + k,
        0 <= k < r.ownership@.len() ==> r.ownership@[k].logical_clock == start + r.cochange@.len()
            + r.revert@.len() + k,
{
    let after_cochange = start + r.cochange@.len();
    let after_revert = after_cochange + r.revert@.len();
    let a = signals::stub_views(r.cochange@);
    let b = signals::stub_views(r.revert@);
    let c = signals::stub_views(r.ownership@);
    let i = choose|order: Seq<usize>| #[trigger]
        signals::are_cochange_gotchas(signals::all_candidates(g), order, start, now, a);
    let i = signals::capped(signals::arranged(signals::all_candidates(g), i));
    assert(a == signals::cochange_stubs(i, start, now));
    let j = choose|order: Seq<usize>| #[trigger]
        signals::are_revert_gotchas(signals::all_contested(g), order, after_cochange, now, b);
    let j = signals::arranged(signals::all_contested(g), j);
    assert(b == signals::revert_stubs(j, after_cochange, now));
    let l = choose|order: Seq<usize>| #[trigger]
        signals::are_ownership_gotchas(signals::all_silos(g), order, after_revert, now, c);
    let l = signals::arranged(signals::all_silos(g), l);
    assert(c == signals::ownership_stubs(l, after_revert, now));
    if 0 <= k < r.cochange@.len() {
        assert(a[k] == r.cochange@[k]@);
        assert(a[k] == signals::cochange_stub(i[k], (start + k) as nat, now));
    }
    if 0 <= k < r.revert@.len() {
        assert(b[k] == r.revert@[k]@);
        assert(b[k] == signals::revert_stub(j[k], (after_cochange + k) as nat, now));
    }
    if 0 <= k < r.ownership@.len() {
        assert(c[k] == r.ownership@[k]@);
        assert(c[k] == signals::ownership_stub(l[k], (after_revert + k) as nat, now));
    }
}

/// A file that was parsed.
#[derive(Debug, PartialEq, Eq)]
pub struct ParsedFile {
    pub path: String,
    /// What its doc comment says it is for; empty where it says nothing.
    pub purpose: String,
    pub gotcha_keys: Vec<String>,
    pub state: FileState,
}

/// What is written of a parsed file.
#[derive(Debug, PartialEq, Eq)]
pub struct FileWrite {
    pub key: String,
    pub clock: u64,
    /// The value of the record and its confidence in hundredths, where it is promoted.
    pub promoted: Option<(String, u32)>,
    pub gotcha_keys: Vec<String>,
    /// The lines gained or lost and the lines before, where the contents changed.
    pub change: Option<(u32, u32)>,
}

#[verifier::ext_equal]
pub struct FileWriteView {
    pub key: Seq<char>,
    pub clock: nat,
    pub promoted: Option<(Seq<char>, u32)>,
    pub gotcha_keys: Seq<Seq<char>>,
    pub change: Option<(u32, u32)>,
}

impl View for FileWrite {
    type V = FileWriteView;

    open spec fn view(&self) -> FileWriteView {
        FileWriteView {
            key: self.key@,
            clock: self.clock as nat,
            promoted: match self.promoted {
                Some(p) => Some((p.0@, p.1)),
                None => None,
            },
            gotcha_keys: text::texts(self.gotcha_keys@),
            change: self.change,
        }
    }
}

/// The gotchas that a file refers to after a run: a cold run replaces the generated
/// ones of every kind, a warm run keeps them all.
pub open spec fn keys_after(f: ParsedFile, s: Stubs, cold: bool) -> Seq<Seq<char>> {
    let keys = text::texts(f.gotcha_keys@);
    if cold {
        let once = relinked(
            keys,
            f.path@,
            "gotcha:cochange:"@,
            signals::stub_views(s.cochange@),
        );
        let twice = relinked(once, f.path@, "gotcha:revert:"@, signals::stub_views(s.revert@));
        relinked(twice, f.path@, "gotcha:ownership:"@, signals::stub_views(s.ownership@))
    } else {
        keys
    }
}

/// The change of a file since its stored record; a cold run compares nothing.
pub open spec fn change_since(new: FileState, old: Option<FileState>, cold: bool) -> Option<
    (u32, u32),
> {
    if !cold && has_changed(new, old) {
        Some(
            (
                line_delta(new.line_count as nat, old.unwrap().line_count as nat) as u32,
                old.unwrap().line_count,
            ),
        )
    } else {
        None
    }
}

pub open spec fn file_write(
    f: ParsedFile,
    s: Stubs,
    old: Option<FileState>,
    cold: bool,
    clock: nat,
) -> FileWriteView {
    FileWriteView {
        key: "file:"@ + f.path@,
        clock,
        promoted: if f.purpose@.len() > 0 {
            Some((f.purpose@, 45))
        } else {
            None
        },
        gotcha_keys: keys_after(f, s, cold),
        change: change_since(f.state, old, cold),
    }
}

fn write_file(f: &ParsedFile, s: &Stubs, old: &Option<FileState>, cold: bool, clock: u64) -> (r:
    FileWrite)
    ensures
        r@ == file_write(*f, *s, *old, cold, clock as nat),
{
    let mut keys = FileKeys { path: f.path.clone(), gotcha_keys: copies(&f.gotcha_keys) };
    if cold {
        link_gotchas(&mut keys, "gotcha:cochange:", &s.cochange);
        link_gotchas(&mut keys, "gotcha:revert:", &s.revert);
        link_gotchas(&mut keys, "gotcha:ownership:", &s.ownership);
    }
    let change = if cold {
        None
    } else {
        changed_lines(&f.state, old)
    };
    FileWrite {
        key: "file:".to_owned().concat(f.path.as_str()),
        clock,
        promoted: doc_promotion(f.purpose.as_str()),
        gotcha_keys: keys.gotcha_keys,
        change,
    }
}

fn copies(v: &Vec<String>) -> (r: Vec<String>)
    ensures
        text::texts(r@) == text::texts(v@),
{
    let mut out: Vec<String> = Vec::new();
    text::push_all(&mut out, v);
    assert(text::texts(out@) =~= text::texts(v@));
    out
}

/// What a run writes of the files that it parsed: `stored` holds what each of them was
/// when its record was last written. Clocks count up from `clock`.
pub fn file_writes(
    files: &Vec<ParsedFile>,
    stubs: &Stubs,
    stored: &Vec<Option<FileState>>,
    cold: bool,
    clock: u64,
) -> (r: Vec<FileWrite>)
    requires
        stored@.len() == files@.len(),
        clock + files@.len() <= u64::MAX,
    ensures
        r@.len() == files@.len(),
        forall|i: int|
            0 <= i < r@.len() ==> (#[trigger] r@[i])@ == file_write(
                files@[i],
                *stubs,
                stored@[i],
                cold,
                (clock + i) as nat,
            ),
{
    let mut out: Vec<FileWrite> = Vec::new();
    let mut i: usize = 0;
    while i < files.len()
        invariant
            i <= files.len(),
            out@.len() == i,
            stored@.len() == files@.len(),
            clock + files@.len() <= u64::MAX,
            forall|k: int|
                0 <= k < i ==> (#[trigger] out@[k])@ == file_write(
                    files@[k],
                    *stubs,
                    stored@[k],
                    cold,
                    (clock + k) as nat,
                ),
        decreases files.len() - i,
    {
        let w = write_file(&files[i], stubs, &stored[i], cold, clock + i as u64);
        out.push(w);
        i = i + 1;
    }
    out
}

/// Whether a written file changed in at least a tenth of its lines.
pub open spec fn changed_much(w: FileWrite) -> bool {
    w.change matches Some(c) && 10 * c.0 >= c.1
}

/// The paths, below `n`, of the files that changed much.
pub open spec fn much_changed(files: Seq<ParsedFile>, writes: Seq<FileWrite>, n: int) -> Seq<
    Seq<char>,
>
    decreases n,
{
    if n <= 0 {
        Seq::empty()
    } else {
        let before = much_changed(files, writes, n - 1);
        if changed_much(writes[n - 1]) {
            before.push(files[n - 1].path@)
        } else {
            before
        }
    }
}

/// The files whose partners are to be flagged.
pub fn significant_changes(files: &Vec<ParsedFile>, writes: &Vec<FileWrite>) -> (r: Vec<String>)
    requires
        files@.len() == writes@.len(),
    ensures
        text::texts(r@) == much_changed(files@, writes@, files@.len() as int),
{
    let mut out: Vec<String> = Vec::new();
    let mut i: usize = 0;
    assert(text::texts(out@) =~= Seq::<Seq<char>>::empty());
    while i < files.len()
        invariant
            i <= files.len(),
            files@.len() == writes@.len(),
            text::texts(out@) == much_changed(files@, writes@, i as int),
        decreases files.len() - i,
    {
        let much = match writes[i].change {
            Some((delta, before)) => is_significant(delta, before),
            None => false,
        };
        if much {
            text::push_line(&mut out, files[i].path.clone());
        }
        i = i + 1;
    }
    out
}

/// A dependency that a manifest declares.
#[derive(Debug, PartialEq, Eq)]
pub struct Dep {
    pub name: String,
    pub version: DepVersion,
    pub manifest: ManifestKind,
    pub dev: bool,
}

/// What is written of a dependency.
#[derive(Debug, PartialEq, Eq)]
pub struct DepWrite {
    pub key: String,
    pub clock: u64,
    pub value: String,
    pub tags: Vec<String>,
}

/// `w` is what is written of `d`.
pub open spec fn is_dep_write(d: Dep, clock: nat, w: DepWrite) -> bool {
    &&& w.key@ == "dep:"@ + d.name@
    &&& w.clock == clock
    &&& w.value@ == dep_text(d.name@, d.version)
    &&& text::texts(w.tags@) == dep_tag_texts(d.manifest, d.dev)
}

/// What a run writes of the dependencies. Clocks count up from `clock`.
pub fn dep_writes(deps: &Vec<Dep>, clock: u64) -> (r: Vec<DepWrite>)
    requires
        clock + deps@.len() <= u64::MAX,
    ensures
        r@.len() == deps@.len(),
        forall|i: int|
            0 <= i < r@.len() ==> is_dep_write(deps@[i], (clock + i) as nat, #[trigger] r@[i]),
{
    let mut out: Vec<DepWrite> = Vec::new();
    let mut i: usize = 0;
    while i < deps.len()
        invariant
            i <= deps.len(),
            out@.len() == i,
            clock + deps@.len() <= u64::MAX,
            forall|k: int|
                0 <= k < i ==> is_dep_write(deps@[k], (clock + k) as nat, #[trigger] out@[k]),
        decreases deps.len() - i,
    {
        let d = &deps[i];
        let w = DepWrite {
            key: "dep:".to_owned().concat(d.name.as_str()),
            clock: clock + i as u64,
            value: dep_value(d.name.as_str(), &d.version),
            tags: dep_tags(d.manifest, d.dev),
        };
        assert(is_dep_write(*d, (clock + i) as nat, w));
        out.push(w);
        i = i + 1;
    }
    out
}

// ---------------------------------------------------------------------------
// The report
// ---------------------------------------------------------------------------

/// The line on the parsed files.
pub open spec fn parse_text(parsed: nat, skipped: nat, ms: nat) -> Seq<char> {
    if skipped > 0 {
        "  Mtime+parse (incremental)...   "@ + text::padded_left(text::dec(parsed), 4) + " changed  "@
            + text::padded_left(text::dec(skipped), 4) + " skipped  "@ + text::padded_left(
            text::dec(ms),
            3,
        ) + "ms"@
    } else {
        "  Mtime+parse (first run)...     "@ + text::padded_left(text::dec(parsed), 4)
            + " files             "@ + text::padded_left(text::dec(ms), 3) + "ms"@
    }
}

fn number(n: u64, width: usize) -> (r: String)
    ensures
        r@ == text::padded_left(text::dec(n as nat), width as nat),
{
    let s = text::decimal(n);
    text::pad_left(s.as_str(), width)
}

pub fn parse_line(parsed: u64, skipped: u64, ms: u64) -> (r: String)
    ensures
        r@ == parse_text(parsed as nat, skipped as nat, ms as nat),
{
    if skipped > 0 {
        "  Mtime+parse (incremental)...   ".to_owned().concat(number(parsed, 4).as_str()).concat(
            " changed  ",
        ).concat(number(skipped, 4).as_str()).concat(" skipped  ").concat(
            number(ms, 3).as_str(),
        ).concat("ms")
    } else {
        "  Mtime+parse (first run)...     ".to_owned().concat(number(parsed, 4).as_str()).concat(
            " files             ",
        ).concat(number(ms, 3).as_str()).concat("ms")
    }
}

/// A step of the run with a count: its title, the count, the unit and the time.
pub fn counted_line(title: &str, count: u64, unit: &str, ms_width: usize, ms: u64) -> (r: String)
    ensures
        r@ == title@ + text::padded_left(text::dec(count as nat), 4) + unit@ + text::padded_left(
            text::dec(ms as nat),
            ms_width as nat,
        ) + "ms"@,
{
    title.to_owned().concat(number(count, 4).as_str()).concat(unit).concat(
        number(ms, ms_width).as_str(),
    ).concat("ms")
}

/// A step with its time only.
pub fn timed_line(title: &str, ms_width: usize, ms: u64) -> (r: String)
    ensures
        r@ == title@ + text::padded_left(text::dec(ms as nat), ms_width as nat) + "ms"@,
{
    title.to_owned().concat(number(ms, ms_width).as_str()).concat("ms")
}

/// A step that was skipped, and why.
pub fn skipped_line(title: &str, why: &str) -> (r: String)
    ensures
        r@ == title@ + "skipped \u{2014} "@ + why@,
{
    title.to_owned().concat("skipped \u{2014} ").concat(why)
}

/// What is suspicious in a parsed file.
#[derive(Debug, PartialEq, Eq)]
pub struct Suspects {
    pub todos: u64,
    pub unsafe_count: u64,
    pub unwrap_count: u64,
}

/// All that is suspicious in the first `n` files.
pub open spec fn suspects_in(v: Seq<Suspects>, n: int) -> nat
    decreases n,
{
    if n <= 0 {
        0
    } else {
        suspects_in(v, n - 1) + v[n - 1].todos as nat + v[n - 1].unsafe_count as nat + v[n
            - 1].unwrap_count as nat
    }
}

proof fn lemma_suspects_grow(v: Seq<Suspects>, m: int, n: int)
    requires
        0 <= m <= n <= v.len(),
    ensures
        suspects_in(v, m) <= suspects_in(v, n),
    decreases n - m,
{
    if m < n {
        lemma_suspects_grow(v, m, n - 1);
    }
}

/// The number of gotcha candidates in the parsed files.
pub fn gotcha_candidates(v: &Vec<Suspects>) -> (r: u64)
    requires
        suspects_in(v@, v@.len() as int) <= u64::MAX,
    ensures
        r == suspects_in(v@, v@.len() as int),
{
    let mut total: u64 = 0;
    let mut i: usize = 0;
    while i < v.len()
        invariant
            i <= v.len(),
            total == suspects_in(v@, i as int),
            suspects_in(v@, v@.len() as int) <= u64::MAX,
        decreases v.len() - i,
    {
        proof {
            lemma_suspects_grow(v@, i + 1, v@.len() as int);
        }
        total = total + v[i].todos + v[i].unsafe_count + v[i].unwrap_count;
        i = i + 1;
    }
    total
}

/// The counts of a run.
#[derive(Debug, Clone, Copy, PartialEq, Eq, Structural)]
pub struct Totals {
    pub files: u64,
    pub parsed: u64,
    pub skipped: u64,
    pub candidates: u64,
    pub cochange: u64,
    pub revert: u64,
    pub ownership: u64,
    pub deps: u64,
    pub edges: u64,
    pub imported: u64,
    pub hotspots: u64,
    pub total_ms: u64,
}

pub open spec fn num(n: u64, width: nat) -> Seq<char> {
    text::padded_left(text::dec(n as nat), width)
}

pub open spec fn summary_rule() -> Seq<char> {
    "  \u{2500}\u{2500}\u{2500}\u{2500}\u{2500}\u{2500}\u{2500}\u{2500}\u{2500}\u{2500}\u{2500}\u{2500}\u{2500}\u{2500}\u{2500}\u{2500}\u{2500}\u{2500}\u{2500}\u{2500}\u{2500}\u{2500}\u{2500}\u{2500}\u{2500}\u{2500}\u{2500}\u{2500}\u{2500}\u{2500}\u{2500}\u{2500}\u{2500}\u{2500}\u{2500}\u{2500}\u{2500}\u{2500}\u{2500}\u{2500}\u{2500}\u{2500}\u{2500}\u{2500}\u{2500}"@
}

/// The counts of the summary.
pub open spec fn summary_counts(t: Totals, memory: Seq<char>) -> Seq<Seq<char>> {
    seq![
        "  file records:          "@ + num(t.files, 4) + "   ("@ + text::dec(t.parsed as nat)
            + " parsed, "@ + text::dec(t.skipped as nat) + " skipped)"@,
        "  gotcha candidates:     "@ + num(t.candidates, 4)
            + "   (TODOs, unsafe, unwrap \u{2014} parsed files only)"@,
        "  co-change gotchas:     "@ + num(t.cochange, 4)
            + "   (auto-generated from git history)"@,
        "  revert stubs:          "@ + num(t.revert, 4)
            + "   (confirmed=false, surface in mati review)"@,
        "  ownership stubs:       "@ + num(t.ownership, 4)
            + "   (confirmed=false, surface in mati review)"@,
        "  dep records:           "@ + num(t.deps, 4),
        "  graph edges:           "@ + num(t.edges, 4) + "   (import + co-change)"@,
        "  imported from "@ + memory + ": "@ + num(t.imported, 2),
        "  hotspot files:         "@ + num(t.hotspots, 4),
    ]
}

/// The summary at the end.
pub open spec fn summary_text(t: Totals, name: Seq<char>, memory: Seq<char>) -> Seq<Seq<char>> {
    seq![""@, summary_rule()] + summary_counts(t, memory) + seq![
        summary_rule(),
        ""@,
        "  Total: "@ + text::dec(t.total_ms as nat) + "ms \u{b7} 0 tokens \u{b7} 0 "@ + name
            + " calls"@,
        ""@,
    ]
}

fn rule_line() -> (r: String)
    ensures
        r@ == summary_rule(),
{
    "  \u{2500}\u{2500}\u{2500}\u{2500}\u{2500}\u{2500}\u{2500}\u{2500}\u{2500}\u{2500}\u{2500}\u{2500}\u{2500}\u{2500}\u{2500}\u{2500}\u{2500}\u{2500}\u{2500}\u{2500}\u{2500}\u{2500}\u{2500}\u{2500}\u{2500}\u{2500}\u{2500}\u{2500}\u{2500}\u{2500}\u{2500}\u{2500}\u{2500}\u{2500}\u{2500}\u{2500}\u{2500}\u{2500}\u{2500}\u{2500}\u{2500}\u{2500}\u{2500}\u{2500}\u{2500}".to_owned()
}

fn push_counts(out: &mut Vec<String>, t: &Totals, host: &Assistant)
    ensures
        text::texts(final(out)@) == text::texts(old(out)@) + summary_counts(*t, host.memory@),
{
    text::push_line(
        out,
        "  file records:          ".to_owned().concat(number(t.files, 4).as_str()).concat(
            "   (",
        ).concat(text::decimal(t.parsed).as_str()).concat(" parsed, ").concat(
            text::decimal(t.skipped).as_str(),
        ).concat(" skipped)"),
    );
    text::push_line(
        out,
        "  gotcha candidates:     ".to_owned().concat(number(t.candidates, 4).as_str()).concat(
            "   (TODOs, unsafe, unwrap \u{2014} parsed files only)",
        ),
    );
    text::push_line(
        out,
        "  co-change gotchas:     ".to_owned().concat(number(t.cochange, 4).as_str()).concat(
            "   (auto-generated from git history)",
        ),
    );
    text::push_line(
        out,
        "  revert stubs:          ".to_owned().concat(number(t.revert, 4).as_str()).concat(
            "   (confirmed=false, surface in mati review)",
        ),
    );
    text::push_line(
        out,
        "  ownership stubs:       ".to_owned().concat(number(t.ownership, 4).as_str()).concat(
            "   (confirmed=false, surface in mati review)",
        ),
    );
    text::push_line(
        out,
        "  dep records:           ".to_owned().concat(number(t.deps, 4).as_str()),
    );
    text::push_line(
        out,
        "  graph edges:           ".to_owned().concat(number(t.edges, 4).as_str()).concat(
            "   (import + co-change)",
        ),
    );
    text::push_line(
        out,
        "  imported from ".to_owned().concat(host.memory.as_str()).concat(": ").concat(
            number(t.imported, 2).as_str(),
        ),
    );
    text::push_line(
        out,
        "  hotspot files:         ".to_owned().concat(number(t.hotspots, 4).as_str()),
    );
    assert(text::texts(out@) =~= text::texts(old(out)@) + summary_counts(*t, host.memory@));
}

/// The lines of the summary.
pub fn summary(t: &Totals, host: &Assistant) -> (r: Vec<String>)
    ensures
        text::texts(r@) == summary_text(*t, host.name@, host.memory@),
{
    let mut out: Vec<String> = Vec::new();
    text::push_line(&mut out, "".to_owned());
    text::push_line(&mut out, rule_line());
    assert(text::texts(out@) =~= seq![""@, summary_rule()]);
    push_counts(&mut out, t, host);
    text::push_line(&mut out, rule_line());
    text::push_line(&mut out, "".to_owned());
    text::push_line(
        &mut out,
        "  Total: ".to_owned().concat(text::decimal(t.total_ms).as_str()).concat(
            "ms \u{b7} 0 tokens \u{b7} 0 ",
        ).concat(host.name.as_str()).concat(" calls"),
    );
    text::push_line(&mut out, "".to_owned());
    assert(text::texts(out@) =~= summary_text(*t, host.name@, host.memory@));
    out
}

// ---------------------------------------------------------------------------
// What a run is for
// ---------------------------------------------------------------------------

/// A run is refused exactly while a daemon may hold the store.
pub proof fn law_run_waits_for_the_daemon(ping: Ping)
    ensures
        lock_holder(ping) is Some <==> ping == Ping::Answered || ping == Ping::Unresponsive,
{
}

proof fn lemma_keys_on_contains(
    stubs: Seq<signals::StubView>,
    path: Seq<char>,
    n: int,
    key: Seq<char>,
)
    requires
        0 <= n <= stubs.len(),
    ensures
        keys_on(stubs, path, n).contains(key) <==> exists|k: int|
            0 <= k < n && (#[trigger] stubs[k]).source_path == path && stubs[k].key == key,
    decreases n,
{
    if n > 0 {
        lemma_keys_on_contains(stubs, path, n - 1, key);
        let before = keys_on(stubs, path, n - 1);
        let all = keys_on(stubs, path, n);
        if stubs[n - 1].source_path == path {
            assert(all[before.len() as int] == stubs[n - 1].key);
            if all.contains(key) {
                let j = choose|j: int| 0 <= j < all.len() && all[j] == key;
                if j < before.len() {
                    assert(before[j] == key);
                    assert(before.contains(key));
                }
            }
            if before.contains(key) {
                let j = choose|j: int| 0 <= j < before.len() && before[j] == key;
                assert(all[j] == key);
            }
        }
    }
}

/// After linking a file names exactly the generated gotchas on it and those keys that
/// it had of other namespaces.
pub proof fn law_file_names_its_gotchas(
    keys: Seq<Seq<char>>,
    path: Seq<char>,
    prefix: Seq<char>,
    stubs: Seq<signals::StubView>,
    key: Seq<char>,
)
    ensures
        relinked(keys, path, prefix, stubs).contains(key) <==> (keys.contains(key)
            && !prefix.is_prefix_of(key)) || exists|k: int|
            0 <= k < stubs.len() && (#[trigger] stubs[k]).source_path == path && stubs[k].key
                == key,
{
    let f = outside(prefix);
    let kept = keys.filter(f);
    let own = keys_on(stubs, path, stubs.len() as int);
    lemma_keys_on_contains(stubs, path, stubs.len() as int, key);
    text::lemma_line_of_either(kept, own, key);
    if kept.contains(key) {
        let j = choose|j: int| 0 <= j < kept.len() && kept[j] == key;
        keys.lemma_filter_pred(f, j);
        keys.lemma_filter_contains_rev(f, key);
    }
    if keys.contains(key) && !prefix.is_prefix_of(key) {
        let j = choose|j: int| 0 <= j < keys.len() && keys[j] == key;
        keys.lemma_filter_contains(f, j);
    }
}

/// A generated gotcha is outdated exactly where none of the new ones has its key.
pub proof fn law_outdated_keys_were_not_made_again(
    existing: Seq<Seq<char>>,
    stubs: Seq<signals::StubView>,
    key: Seq<char>,
)
    ensures
        existing.filter(not_among(keys_of(stubs))).contains(key) <==> existing.contains(key) && !(
        exists|k: int| 0 <= k < stubs.len() && (#[trigger] stubs[k]).key == key),
{
    let names = keys_of(stubs);
    let f = not_among(names);
    let left = existing.filter(f);
    if left.contains(key) {
        let j = choose|j: int| 0 <= j < left.len() && left[j] == key;
        existing.lemma_filter_pred(f, j);
        existing.lemma_filter_contains_rev(f, key);
    }
    if existing.contains(key) && !names.contains(key) {
        let j = choose|j: int| 0 <= j < existing.len() && existing[j] == key;
        existing.lemma_filter_contains(f, j);
    }
    if exists|k: int| 0 <= k < stubs.len() && (#[trigger] stubs[k]).key == key {
        let k = choose|k: int| 0 <= k < stubs.len() && (#[trigger] stubs[k]).key == key;
        assert(names[k] == key);
    }
    if names.contains(key) {
        let k = choose|k: int| 0 <= k < names.len() && names[k] == key;
        assert(stubs[k].key == key);
    }
}

/// A file has changed exactly where its content is known before and after, is not
/// empty, and differs. On a first run nothing counts as changed; else the change is
/// measured in lines, whichever way they went.
pub proof fn law_change_is_one_of_content(new: FileState, old: FileState)
    ensures
        has_changed(new, Some(old)) <==> (new.content_hash matches Some(a) && (
        old.content_hash matches Some(b) && a@ != b@)) && new.line_count > 0 && old.line_count > 0,
        !has_changed(new, None),
        change_since(new, Some(old), true) is None,
        change_since(new, Some(old), false) is Some <==> has_changed(new, Some(old)),
        change_since(new, Some(old), false) matches Some((delta, before)) ==> before
            == old.line_count && (delta == new.line_count - old.line_count || delta
            == old.line_count - new.line_count),
{
}

/// A change of at least a tenth of the lines is a large one; the files with one are
/// named, and no others.
pub proof fn law_large_changes_are_named(
    files: Seq<ParsedFile>,
    writes: Seq<FileWrite>,
    n: int,
    path: Seq<char>,
)
    requires
        0 <= n <= files.len(),
        files.len() == writes.len(),
    ensures
        much_changed(files, writes, n).contains(path) <==> exists|k: int|
            0 <= k < n && (#[trigger] files[k]).path@ == path && (writes[k].change matches Some(
                (delta, before),
            ) && 10 * delta >= before),
    decreases n,
{
    if n > 0 {
        law_large_changes_are_named(files, writes, n - 1, path);
        let before = much_changed(files, writes, n - 1);
        let all = much_changed(files, writes, n);
        if changed_much(writes[n - 1]) {
            assert(all[before.len() as int] == files[n - 1].path@);
            if all.contains(path) {
                let j = choose|j: int| 0 <= j < all.len() && all[j] == path;
                if j < before.len() {
                    assert(before[j] == path);
                    assert(before.contains(path));
                }
            }
            if before.contains(path) {
                let j = choose|j: int| 0 <= j < before.len() && before[j] == path;
                assert(all[j] == path);
            }
        }
    }
}

/// Of two files that change together, the one that did not change is flagged for the
/// other's change; where both changed, or neither, none is.
pub proof fn law_unchanged_partners_are_flagged(
    pairs: Seq<Pair>,
    changed: Seq<Seq<char>>,
    n: int,
    x: Seq<char>,
    y: Seq<char>,
)
    requires
        0 <= n <= pairs.len(),
    ensures
        flags_of(pairs, changed, n).contains((x, y)) <==> changed.contains(y) && !changed.contains(
            x,
        ) && exists|k: int|
            0 <= k < n && (((#[trigger] pairs[k]).a@ == x && pairs[k].b@ == y) || (pairs[k].a@ == y
                && pairs[k].b@ == x)),
    decreases n,
{
    let all = flags_of(pairs, changed, n);
    if n > 0 {
        law_unchanged_partners_are_flagged(pairs, changed, n - 1, x, y);
        let before = flags_of(pairs, changed, n - 1);
        let own = pair_flags(pairs[n - 1], changed);
        if all.contains((x, y)) {
            let j = choose|j: int| 0 <= j < all.len() && all[j] == (x, y);
            if j < before.len() {
                assert(before[j] == (x, y));
                assert(before.contains((x, y)));
            } else {
                assert(own[j - before.len()] == (x, y));
            }
        }
        if before.contains((x, y)) {
            let j = choose|j: int| 0 <= j < before.len() && before[j] == (x, y);
            assert(all[j] == (x, y));
        }
        let p = pairs[n - 1];
        if changed.contains(y) && !changed.contains(x) && ((p.a@ == x && p.b@ == y) || (p.a@ == y
            && p.b@ == x)) {
            assert(own[0] == (x, y));
            assert(all[before.len() as int] == own[0]);
        }
    }
}

/// A file record has the path in its key and takes a purpose found in the source;
/// only a first run changes the gotchas it names, and then those of other origin stay.
pub proof fn law_file_record_keeps_what_it_had(
    f: ParsedFile,
    s: Stubs,
    old: Option<FileState>,
    clock: nat,
    key: Seq<char>,
)
    ensures
        file_write(f, s, old, false, clock).key == "file:"@ + f.path@,
        file_write(f, s, old, true, clock).key == "file:"@ + f.path@,
        file_write(f, s, old, false, clock).gotcha_keys == text::texts(f.gotcha_keys@),
        f.purpose@.len() > 0 ==> file_write(f, s, old, true, clock).promoted == Some(
            (f.purpose@, 45u32),
        ),
        f.purpose@.len() == 0 ==> file_write(f, s, old, true, clock).promoted is None,
        file_write(f, s, old, true, clock).change is None,
        text::texts(f.gotcha_keys@).contains(key) && !"gotcha:cochange:"@.is_prefix_of(key)
            && !"gotcha:revert:"@.is_prefix_of(key) && !"gotcha:ownership:"@.is_prefix_of(key)
            ==> file_write(f, s, old, true, clock).gotcha_keys.contains(key),
{
    let keys = text::texts(f.gotcha_keys@);
    let a = signals::stub_views(s.cochange@);
    let b = signals::stub_views(s.revert@);
    let c = signals::stub_views(s.ownership@);
    let once = relinked(keys, f.path@, "gotcha:cochange:"@, a);
    let twice = relinked(once, f.path@, "gotcha:revert:"@, b);
    law_file_names_its_gotchas(keys, f.path@, "gotcha:cochange:"@, a, key);
    law_file_names_its_gotchas(once, f.path@, "gotcha:revert:"@, b, key);
    law_file_names_its_gotchas(twice, f.path@, "gotcha:ownership:"@, c, key);
}

/// On a first run a file names every gotcha that was generated on it.
pub proof fn law_first_run_links_what_it_made(f: ParsedFile, s: Stubs, i: int)
    requires
        forall|k: int|
            0 <= k < s.cochange@.len() ==> "gotcha:cochange:"@.is_prefix_of(
                (#[trigger] s.cochange@[k]).key@,
            ),
        forall|k: int|
            0 <= k < s.revert@.len() ==> "gotcha:revert:"@.is_prefix_of(
                (#[trigger] s.revert@[k]).key@,
            ),
    ensures
        0 <= i < s.ownership@.len() && s.ownership@[i].source_path@ == f.path@ ==> keys_after(
            f,
            s,
            true,
        ).contains(s.ownership@[i].key@),
        0 <= i < s.revert@.len() && s.revert@[i].source_path@ == f.path@ ==> keys_after(
            f,
            s,
            true,
        ).contains(s.revert@[i].key@),
        0 <= i < s.cochange@.len() && s.cochange@[i].source_path@ == f.path@ ==> keys_after(
            f,
            s,
            true,
        ).contains(s.cochange@[i].key@),
{
    let keys = text::texts(f.gotcha_keys@);
    let a = signals::stub_views(s.cochange@);
    let b = signals::stub_views(s.revert@);
    let c = signals::stub_views(s.ownership@);
    let p1 = "gotcha:cochange:"@;
    let p2 = "gotcha:revert:"@;
    let p3 = "gotcha:ownership:"@;
    let once = relinked(keys, f.path@, p1, a);
    let twice = relinked(once, f.path@, p2, b);
    reveal_strlit("gotcha:cochange:");
    reveal_strlit("gotcha:revert:");
    reveal_strlit("gotcha:ownership:");
    if 0 <= i < s.ownership@.len() && s.ownership@[i].source_path@ == f.path@ {
        let key = s.ownership@[i].key@;
        assert(c[i].source_path == f.path@ && c[i].key == key);
        law_file_names_its_gotchas(twice, f.path@, p3, c, key);
    }
    if 0 <= i < s.revert@.len() && s.revert@[i].source_path@ == f.path@ {
        let key = s.revert@[i].key@;
        assert(b[i].source_path == f.path@ && b[i].key == key);
        law_file_names_its_gotchas(once, f.path@, p2, b, key);
        assert(p2.is_prefix_of(key));
        assert(key.subrange(0, p2.len() as int)[7] == 'r');
        if p3.is_prefix_of(key) {
            assert(key.subrange(0, p3.len() as int)[7] == 'o');
        }
        law_file_names_its_gotchas(twice, f.path@, p3, c, key);
    }
    if 0 <= i < s.cochange@.len() && s.cochange@[i].source_path@ == f.path@ {
        let key = s.cochange@[i].key@;
        assert(a[i].source_path == f.path@ && a[i].key == key);
        law_file_names_its_gotchas(keys, f.path@, p1, a, key);
        assert(p1.is_prefix_of(key));
        assert(key.subrange(0, p1.len() as int)[7] == 'c');
        if p2.is_prefix_of(key) {
            assert(key.subrange(0, p2.len() as int)[7] == 'r');
        }
        if p3.is_prefix_of(key) {
            assert(key.subrange(0, p3.len() as int)[7] == 'o');
        }
        law_file_names_its_gotchas(once, f.path@, p2, b, key);
        law_file_names_its_gotchas(twice, f.path@, p3, c, key);
    }
}

/// A dependency is recorded under its name, with the version it was declared with, and
/// tagged by its manifest and by whether only development needs it.
pub proof fn law_dependency_is_recorded_by_name(d: Dep, clock: nat, w: DepWrite)
    requires
        is_dep_write(d, clock, w),
    ensures
        w.key@ == "dep:"@ + d.name@,
        d.name@.is_prefix_of(w.value@),
        d.version matches DepVersion::Declared(v) ==> text::text_contains(
            w.value@,
            "\""@ + v@ + "\""@,
        ),
        text::texts(w.tags@).contains("dev-dep"@) <==> d.dev,
        text::texts(w.tags@).contains("dep"@) <==> !d.dev,
        d.manifest is CargoToml ==> text::texts(w.tags@)[0] == "manifest:cargo-toml"@,
        d.manifest is PackageJson ==> text::texts(w.tags@)[0] == "manifest:package-json"@,
        d.manifest is GoMod ==> text::texts(w.tags@)[0] == "manifest:go-mod"@,
{
    reveal_strlit("dev-dep");
    reveal_strlit("dep");
    reveal_strlit("manifest:cargo-toml");
    reveal_strlit("manifest:package-json");
    reveal_strlit("manifest:go-mod");
    let v = w.value@;
    assert(v.subrange(0, d.name@.len() as int) =~= d.name@);
    let t = text::texts(w.tags@);
    assert(t =~= dep_tag_texts(d.manifest, d.dev));
    assert("dev-dep"@.len() == 7 && "dep"@.len() == 3 && t[0].len() >= 15);
    assert(t[1] == (if d.dev {
        "dev-dep"@
    } else {
        "dep"@
    }));
    assert(t.contains(t[1]));
    if t.contains("dev-dep"@) {
        let j = choose|j: int| 0 <= j < t.len() && t[j] == "dev-dep"@;
    }
    if t.contains("dep"@) {
        let j = choose|j: int| 0 <= j < t.len() && t[j] == "dep"@;
    }
    if let DepVersion::Declared(x) = d.version {
        reveal_strlit(" = \"");
        reveal_strlit("\"");
        let q = "\""@ + x@ + "\""@;
        let head = d.name@ + " = \""@.take(3);
        let none = Seq::<char>::empty();
        assert(v =~= head + q + none);
        text::lemma_part_occurs(head, q, none);
    }
}

/// The candidates are all marks of all files.
pub proof fn law_candidates_add_up(v: Seq<Suspects>, one: Suspects)
    ensures
        suspects_in(Seq::empty(), 0) == 0,
        suspects_in(v.push(one), v.len() as int + 1) == suspects_in(v, v.len() as int) + one.todos
            + one.unsafe_count + one.unwrap_count,
{
    lemma_suspects_same(v, v.push(one), v.len() as int);
}

proof fn lemma_suspects_same(a: Seq<Suspects>, b: Seq<Suspects>, n: int)
    requires
        0 <= n <= a.len() <= b.len(),
        forall|i: int| 0 <= i < n ==> a[i] == #[trigger] b[i],
    ensures
        suspects_in(a, n) == suspects_in(b, n),
    decreases n,
{
    if n > 0 {
        lemma_suspects_same(a, b, n - 1);
        assert(a[n - 1] == b[n - 1]);
    }
}

/// Whether a count is told on a line.
pub open spec fn tells(line: Seq<char>, title: Seq<char>, n: u64) -> bool {
    title.is_prefix_of(line) && text::text_contains(line, text::dec(n as nat))
}

proof fn lemma_tells(title: Seq<char>, n: u64, width: nat, rest: Seq<char>)
    ensures
        tells(title + num(n, width) + rest, title, n),
        tells(title + num(n, width), title, n),
{
    let line = title + num(n, width) + rest;
    let d = text::dec(n as nat);
    assert(line.subrange(0, title.len() as int) =~= title);
    assert((title + num(n, width)).subrange(0, title.len() as int) =~= title);
    text::lemma_padded_contains(d, width);
    text::lemma_contains_either(title, num(n, width), d);
    text::lemma_contains_either(title + num(n, width), rest, d);
}

/// The summary tells every count on its own line.
pub proof fn law_summary_tells_every_count(t: Totals, name: Seq<char>, memory: Seq<char>)
    ensures
        ({
            let l = summary_text(t, name, memory);
            &&& tells(l[2], "  file records:          "@, t.files)
            &&& tells(l[3], "  gotcha candidates:     "@, t.candidates)
            &&& tells(l[4], "  co-change gotchas:     "@, t.cochange)
            &&& tells(l[5], "  revert stubs:          "@, t.revert)
            &&& tells(l[6], "  ownership stubs:       "@, t.ownership)
            &&& tells(l[7], "  dep records:           "@, t.deps)
            &&& tells(l[8], "  graph edges:           "@, t.edges)
            &&& tells(l[9], "  imported from "@ + memory + ": "@, t.imported)
            &&& tells(l[10], "  hotspot files:         "@, t.hotspots)
        }),
{
    let l = summary_text(t, name, memory);
    let c = summary_counts(t, memory);
    assert(l[2] == c[0] && l[3] == c[1] && l[4] == c[2] && l[5] == c[3] && l[6] == c[4] && l[7]
        == c[5] && l[8] == c[6] && l[9] == c[7] && l[10] == c[8]);
    let none = Seq::<char>::empty();
    let tail = "   ("@ + text::dec(t.parsed as nat) + " parsed, "@ + text::dec(t.skipped as nat)
        + " skipped)"@;
    assert(c[0] =~= "  file records:          "@ + num(t.files, 4) + tail);
    lemma_tells("  file records:          "@, t.files, 4, tail);
    lemma_tells(
        "  gotcha candidates:     "@,
        t.candidates,
        4,
        "   (TODOs, unsafe, unwrap \u{2014} parsed files only)"@,
    );
    lemma_tells(
        "  co-change gotchas:     "@,
        t.cochange,
        4,
        "   (auto-generated from git history)"@,
    );
    lemma_tells(
        "  revert stubs:          "@,
        t.revert,
        4,
        "   (confirmed=false, surface in mati review)"@,
    );
    lemma_tells(
        "  ownership stubs:       "@,
        t.ownership,
        4,
        "   (confirmed=false, surface in mati review)"@,
    );
    lemma_tells("  dep records:           "@, t.deps, 4, none);
    lemma_tells("  graph edges:           "@, t.edges, 4, "   (import + co-change)"@);
    lemma_tells("  imported from "@ + memory + ": "@, t.imported, 2, none);
    lemma_tells("  hotspot files:         "@, t.hotspots, 4, none);
}

/// The line on parsing tells an incremental run by its skipped files.
pub proof fn law_parsing_line_tells_the_kind_of_run(parsed: nat, skipped: nat, ms: nat)
    ensures
        skipped > 0 <==> "  Mtime+parse (incremental)"@.is_prefix_of(
            parse_text(parsed, skipped, ms),
        ),
        text::text_contains(parse_text(parsed, skipped, ms), text::dec(parsed)),
        skipped > 0 ==> text::text_contains(parse_text(parsed, skipped, ms), text::dec(skipped)),
        "ms"@.is_suffix_of(parse_text(parsed, skipped, ms)),
{
    let l = parse_text(parsed, skipped, ms);
    let inc = "  Mtime+parse (incremental)"@;
    reveal_strlit("  Mtime+parse (incremental)");
    reveal_strlit("  Mtime+parse (incremental)...   ");
    reveal_strlit("  Mtime+parse (first run)...     ");
    let p = text::dec(parsed);
    text::lemma_padded_contains(p, 4);
    let m = "ms"@;
    assert(l.subrange(l.len() - m.len(), l.len() as int) =~= m);
    let pm = text::padded_left(text::dec(ms), 3);
    if skipped > 0 {
        let k = text::dec(skipped);
        text::lemma_padded_contains(k, 4);
        let a = "  Mtime+parse (incremental)...   "@;
        let b = a + text::padded_left(p, 4);
        let c = b + " changed  "@;
        let d = c + text::padded_left(k, 4);
        let e = d + " skipped  "@;
        assert(l == e + pm + m);
        assert(l.subrange(0, inc.len() as int) =~= inc);
        text::lemma_contains_either(a, text::padded_left(p, 4), p);
        text::lemma_contains_either(b, " changed  "@, p);
        text::lemma_contains_either(c, text::padded_left(k, 4), p);
        text::lemma_contains_either(c, text::padded_left(k, 4), k);
        text::lemma_contains_either(d, " skipped  "@, p);
        text::lemma_contains_either(d, " skipped  "@, k);
        text::lemma_contains_either(e, pm, p);
        text::lemma_contains_either(e, pm, k);
        text::lemma_contains_either(e + pm, m, p);
        text::lemma_contains_either(e + pm, m, k);
    } else {
        let a = "  Mtime+parse (first run)...     "@;
        let b = a + text::padded_left(p, 4);
        let c = b + " files             "@;
        assert(l == c + pm + m);
        text::lemma_contains_either(a, text::padded_left(p, 4), p);
        text::lemma_contains_either(b, " files             "@, p);
        text::lemma_contains_either(c, pm, p);
        text::lemma_contains_either(c + pm, m, p);
        assert(l[15] == 'f');
        if inc.is_prefix_of(l) {
            assert(l.subrange(0, inc.len() as int)[15] == 'i');
        }
    }
}

} // verus!
