//! The sandbox floor: confirmed, explicitly tagged gotchas become deny rules in
//! the per-user settings file. Entries under the repository root belong to mati;
//! everything else in the file belongs to the user and is kept.
use vstd::prelude::*;
use crate::host::Assistant;
use crate::json;
use crate::json::Json;
use crate::paths;
use crate::strset;
use crate::strset::StrSet;
use crate::text;

verus! {

/// The tag that denies shell writes.
pub const TAG_DENY_WRITE: &'static str = "crown-jewel";

/// The tag that also denies shell reads.
pub const TAG_DENY_READ: &'static str = "sandbox-deny-read";

/// Arguments of `mati sandbox`.
#[derive(Debug, PartialEq, Eq)]
pub struct SandboxArgs {
    pub command: SandboxCommand,
}

#[derive(Debug, PartialEq, Eq)]
pub enum SandboxCommand {
    /// Compile crown-jewel gotchas into sandbox deny rules.
    Compile(CompileArgs),
    /// Mark a file's confirmed gotcha crown-jewel, then write the deny floor.
    Protect(ProtectArgs),
    /// Remove a file's crown-jewel protection and write the deny floor anew.
    Unprotect(ProtectArgs),
    /// Remove all deny rules that mati manages.
    Clear,
}

#[derive(Debug, PartialEq, Eq)]
pub struct CompileArgs {
    /// Write the rules; else only show them.
    pub apply: bool,
    /// Allow the removal of protections whose tag is gone.
    pub force: bool,
}

#[derive(Debug, PartialEq, Eq)]
pub struct ProtectArgs {
    /// Repo-relative path of a file with a confirmed gotcha.
    pub file: String,
    /// Deny shell reads as well.
    pub read: bool,
    /// Accept that the gotcha covers other files too.
    pub yes: bool,
}

/// Deny rules of the sandbox: repo-relative as compiled, absolute once resolved.
#[derive(Debug, PartialEq, Eq)]
pub struct SandboxRules {
    pub deny_read: StrSet,
    pub deny_write: StrSet,
}

impl Default for SandboxRules {
    fn default() -> (r: SandboxRules)
        ensures
            r.deny_read@.len() == 0,
            r.deny_write@.len() == 0,
    {
        SandboxRules { deny_read: StrSet::new(), deny_write: StrSet::new() }
    }
}

impl SandboxRules {
    pub fn is_empty(&self) -> (r: bool)
        ensures
            r == (self.deny_read@.len() == 0 && self.deny_write@.len() == 0),
    {
        self.deny_read.is_empty() && self.deny_write.is_empty()
    }
}

/// What the sandbox needs to know of one gotcha.
#[derive(Debug, PartialEq, Eq)]
pub struct GotchaSel<'a> {
    pub tags: &'a [String],
    pub active: bool,
    pub confirmed: bool,
    pub files: &'a [String],
}

// ---------------------------------------------------------------------------
// Selecting paths
// ---------------------------------------------------------------------------

/// A path without the leading run of `./` and `/`.
pub open spec fn without_lead(s: Seq<char>) -> Seq<char>
    decreases s.len(),
{
    if s.len() >= 2 && s[0] == '.' && s[1] == '/' {
        without_lead(s.skip(2))
    } else if s.len() > 0 && s[0] == '/' {
        without_lead(s.skip(1))
    } else {
        s
    }
}

/// The repo-relative form of a path: forward slashes, no leading `./` or `/`.
pub open spec fn rel_form(p: Seq<char>) -> Seq<char> {
    without_lead(text::replaced(p, '\\', "/"@))
}

proof fn lemma_without_lead(s: Seq<char>)
    ensures
        !(without_lead(s).len() > 0 && without_lead(s)[0] == '/'),
        !(without_lead(s).len() >= 2 && without_lead(s)[0] == '.' && without_lead(s)[1] == '/'),
        forall|c: char| !s.contains(c) ==> !#[trigger] without_lead(s).contains(c),
    decreases s.len(),
{
    if s.len() >= 2 && s[0] == '.' && s[1] == '/' {
        lemma_without_lead(s.skip(2));
        assert forall|c: char| !s.contains(c) implies !#[trigger] without_lead(s).contains(c) by {
            assert forall|i: int| 0 <= i < s.skip(2).len() implies s.skip(2)[i] != c by {
                assert(s.contains(s[i + 2]));
            }
        }
    } else if s.len() > 0 && s[0] == '/' {
        lemma_without_lead(s.skip(1));
        assert forall|c: char| !s.contains(c) implies !#[trigger] without_lead(s).contains(c) by {
            assert forall|i: int| 0 <= i < s.skip(1).len() implies s.skip(1)[i] != c by {
                assert(s.contains(s[i + 1]));
            }
        }
    }
}

pub fn normalize_rel(p: &str) -> (r: String)
    ensures
        r@ == rel_form(p@),
        !(r@.len() > 0 && r@[0] == '/'),
        !(r@.len() >= 2 && r@[0] == '.' && r@[1] == '/'),
        !r@.contains('\\'),
{
    let s = text::replace(p, '\\', "/");
    let v = text::chars(s.as_str());
    let mut i: usize = 0;
    assert(v@.skip(0) =~= v@);
    while i < v.len() && (v[i] == '/' || (v.len() - i >= 2 && v[i] == '.' && v[i + 1] == '/'))
        invariant
            i <= v.len(),
            without_lead(v@) == without_lead(v@.skip(i as int)),
        decreases v.len() - i,
    {
        if v[i] == '/' {
            assert(v@.skip(i as int).skip(1) =~= v@.skip(i + 1));
            i = i + 1;
        } else {
            assert(v@.skip(i as int).skip(2) =~= v@.skip(i + 2));
            i = i + 2;
        }
    }
    proof {
        reveal_strlit("/");
        assert(without_lead(v@) == v@.skip(i as int));
        assert(v@.subrange(i as int, v@.len() as int) =~= v@.skip(i as int));
        text::lemma_replaced_away(p@, '\\', "/"@);
        lemma_without_lead(v@);
    }
    text::string_of(&v, i, v.len())
}

/// Whether a list of tags holds `tag`.
pub open spec fn tagged(tags: Seq<String>, tag: Seq<char>) -> bool {
    text::texts(tags).contains(tag)
}

pub fn has_tag(tags: &[String], tag: &str) -> (r: bool)
    ensures
        r == tagged(tags@, tag@),
{
    let mut i: usize = 0;
    while i < tags.len()
        invariant
            i <= tags.len(),
            forall|k: int| 0 <= k < i ==> #[trigger] text::texts(tags@)[k] != tag@,
        decreases tags.len() - i,
    {
        if text::same(tags[i].as_str(), tag) {
            assert(text::texts(tags@)[i as int] == tag@);
            return true;
        }
        assert(text::texts(tags@)[i as int] != tag@);
        i = i + 1;
    }
    false
}

/// Whether a gotcha with this tag puts `path` under a rule: it is active,
/// confirmed and tagged, and `path` is one of its files.
pub open spec fn covers(g: GotchaSel, tag: Seq<char>, path: Seq<char>) -> bool {
    &&& g.active
    &&& g.confirmed
    &&& tagged(g.tags@, tag)
    &&& path.len() > 0
    &&& exists|i: int| 0 <= i < g.files@.len() && rel_form(#[trigger] g.files@[i]@) == path
}

/// The paths under a rule.
pub open spec fn covered(gotchas: Seq<GotchaSel>, tag: Seq<char>) -> Set<Seq<char>> {
    Set::new(
        |path: Seq<char>|
            exists|i: int| 0 <= i < gotchas.len() && covers(#[trigger] gotchas[i], tag, path),
    )
}

/// The paths that the first `n` files of a gotcha add.
spec fn file_forms(g: GotchaSel, n: int) -> Set<Seq<char>> {
    Set::new(
        |path: Seq<char>|
            path.len() > 0 && exists|i: int|
                0 <= i < n && rel_form(#[trigger] g.files@[i]@) == path,
    )
}

/// Selects the repo-relative paths and their kind of denial. Only tags count,
/// never severity, and only active, confirmed gotchas.
pub fn compile_relative(gotchas: &Vec<GotchaSel>) -> (r: SandboxRules)
    ensures
        r.deny_write@.to_set() =~= covered(gotchas@, TAG_DENY_WRITE@),
        r.deny_read@.to_set() =~= covered(gotchas@, TAG_DENY_READ@),
        strset::ascending(r.deny_write@),
        strset::ascending(r.deny_read@),
{
    let mut rules = SandboxRules::default();
    let mut i: usize = 0;
    while i < gotchas.len()
        invariant
            i <= gotchas.len(),
            rules.deny_write@.to_set() =~= covered(gotchas@.take(i as int), TAG_DENY_WRITE@),
            rules.deny_read@.to_set() =~= covered(gotchas@.take(i as int), TAG_DENY_READ@),
        decreases gotchas.len() - i,
    {
        let g = &gotchas[i];
        let ghost w0 = rules.deny_write@.to_set();
        let ghost r0 = rules.deny_read@.to_set();
        proof {
            lemma_covered_step(gotchas@, i as int, TAG_DENY_WRITE@);
            lemma_covered_step(gotchas@, i as int, TAG_DENY_READ@);
        }
        let deny_write = has_tag(g.tags, TAG_DENY_WRITE);
        let deny_read = has_tag(g.tags, TAG_DENY_READ);
        if g.active && g.confirmed && (deny_write || deny_read) {
            let mut k: usize = 0;
            assert(file_forms(*g, 0) =~= Set::empty());
            while k < g.files.len()
                invariant
                    g == &gotchas@[i as int],
                    k <= g.files@.len(),
                    rules.deny_write@.to_set() =~= (if deny_write {
                        w0.union(file_forms(*g, k as int))
                    } else {
                        w0
                    }),
                    rules.deny_read@.to_set() =~= (if deny_read {
                        r0.union(file_forms(*g, k as int))
                    } else {
                        r0
                    }),
                decreases g.files.len() - k,
            {
                let rel = normalize_rel(g.files[k].as_str());
                proof {
                    lemma_file_forms_step(*g, k as int);
                }
                if !rel.as_str().is_empty() {
                    if deny_write {
                        rules.deny_write.insert(rel.clone());
                    }
                    if deny_read {
                        rules.deny_read.insert(rel);
                    }
                }
                k = k + 1;
            }
        }
        i = i + 1;
    }
    assert(gotchas@.take(i as int) =~= gotchas@);
    let _ = rules.deny_write.items();
    let _ = rules.deny_read.items();
    rules
}

proof fn lemma_file_forms_step(g: GotchaSel, k: int)
    requires
        0 <= k < g.files@.len(),
    ensures
        file_forms(g, k + 1) =~= (if rel_form(g.files@[k]@).len() > 0 {
            file_forms(g, k).insert(rel_form(g.files@[k]@))
        } else {
            file_forms(g, k)
        }),
{
    let form = rel_form(g.files@[k]@);
    assert forall|p: Seq<char>| #[trigger] file_forms(g, k + 1).contains(p) implies (p == form
        || file_forms(g, k).contains(p)) by {
        let i = choose|i: int| 0 <= i < k + 1 && rel_form(#[trigger] g.files@[i]@) == p;
        if i < k {
            assert(rel_form(g.files@[i]@) == p);
        }
    }
    assert forall|p: Seq<char>| #[trigger] file_forms(g, k).contains(p) implies file_forms(
        g,
        k + 1,
    ).contains(p) by {
        let i = choose|i: int| 0 <= i < k && rel_form(#[trigger] g.files@[i]@) == p;
        assert(rel_form(g.files@[i]@) == p);
    }
}

proof fn lemma_covered_step(gotchas: Seq<GotchaSel>, i: int, tag: Seq<char>)
    requires
        0 <= i < gotchas.len(),
    ensures
        covered(gotchas.take(i + 1), tag) =~= (if gotchas[i].active && gotchas[i].confirmed
            && tagged(gotchas[i].tags@, tag) {
            covered(gotchas.take(i), tag).union(
                file_forms(gotchas[i], gotchas[i].files@.len() as int),
            )
        } else {
            covered(gotchas.take(i), tag)
        }),
{
    let before = gotchas.take(i);
    let after = gotchas.take(i + 1);
    assert forall|p: Seq<char>| #[trigger] covered(before, tag).contains(p) implies covered(
        after,
        tag,
    ).contains(p) by {
        let k = choose|k: int| 0 <= k < before.len() && covers(#[trigger] before[k], tag, p);
        assert(covers(after[k], tag, p));
    }
    assert forall|p: Seq<char>| #[trigger] covered(after, tag).contains(p) implies covered(
        before,
        tag,
    ).contains(p) || covers(gotchas[i], tag, p) by {
        let k = choose|k: int| 0 <= k < after.len() && covers(#[trigger] after[k], tag, p);
        if k < i {
            assert(covers(before[k], tag, p));
        }
    }
    assert(after[i] == gotchas[i]);
}

// ---------------------------------------------------------------------------
// Merging into the settings file
// ---------------------------------------------------------------------------

/// An entry belongs to mati exactly if it lies under the repository root.
pub fn is_mati_owned(entry: &str, repo_root: &str) -> (r: bool)
    ensures
        r == paths::is_under(entry@, repo_root@),
{
    paths::under(entry, repo_root)
}

/// Whether a settings value is an entry of mati.
pub open spec fn owned(v: json::JsonView, root: Seq<char>) -> bool {
    v matches json::JsonView::Str(s) && paths::is_under(s, root)
}

/// Not being an entry of mati.
pub open spec fn foreign(root: Seq<char>) -> spec_fn(json::JsonView) -> bool {
    |v: json::JsonView| !owned(v, root)
}

/// The entries of an array that are not mati's; a value of another kind has none.
pub open spec fn foreign_entries(existing: Option<json::JsonView>, root: Seq<char>) -> Seq<
    json::JsonView,
> {
    match existing {
        Some(json::JsonView::Array(a)) => a.filter(foreign(root)),
        _ => Seq::empty(),
    }
}

/// Strings as settings values.
pub open spec fn as_values(s: Seq<Seq<char>>) -> Seq<json::JsonView> {
    s.map_values(|t: Seq<char>| json::JsonView::Str(t))
}

/// The array after a write: the user's entries in their order, then mati's.
pub open spec fn owned_array(
    existing: Option<json::JsonView>,
    root: Seq<char>,
    entries: Seq<Seq<char>>,
) -> Seq<json::JsonView> {
    foreign_entries(existing, root) + as_values(entries)
}

/// The members of `sandbox.filesystem` with one array rewritten; an array that
/// would be empty is taken away.
pub open spec fn rewritten(
    m: Seq<(Seq<char>, json::JsonView)>,
    key: Seq<char>,
    root: Seq<char>,
    entries: Seq<Seq<char>>,
) -> Seq<(Seq<char>, json::JsonView)> {
    let a = owned_array(json::lookup(m, key), root, entries);
    if a.len() == 0 {
        json::without(m, key)
    } else {
        json::put(m, key, json::JsonView::Array(a))
    }
}

/// `sandbox.filesystem` with both arrays rewritten; left alone where it is no
/// object.
pub open spec fn rewritten_both(
    fs: json::JsonView,
    root: Seq<char>,
    write: Seq<Seq<char>>,
    read: Seq<Seq<char>>,
) -> json::JsonView {
    match fs {
        json::JsonView::Object(m) => json::JsonView::Object(
            rewritten(rewritten(m, "denyWrite"@, root, write), "denyRead"@, root, read),
        ),
        _ => fs,
    }
}

/// A member, or an empty object where it is absent.
pub open spec fn child(m: Seq<(Seq<char>, json::JsonView)>, key: Seq<char>) -> json::JsonView {
    match json::lookup(m, key) {
        Some(v) => v,
        None => json::JsonView::Object(Seq::empty()),
    }
}

/// The settings with mati's rules in them.
pub open spec fn applied(
    settings: json::JsonView,
    root: Seq<char>,
    write: Seq<Seq<char>>,
    read: Seq<Seq<char>>,
) -> json::JsonView {
    let top = json::members_of(settings);
    let sandbox = json::members_of(child(top, "sandbox"@));
    let fs = child(sandbox, "filesystem"@);
    json::JsonView::Object(
        json::put(
            top,
            "sandbox"@,
            json::JsonView::Object(
                json::put(sandbox, "filesystem"@, rewritten_both(fs, root, write, read)),
            ),
        ),
    )
}

/// The settings without mati's rules.
pub open spec fn cleared(settings: json::JsonView, root: Seq<char>) -> json::JsonView {
    match json::member2(settings, "sandbox"@, "filesystem"@) {
        Some(fs) => json::JsonView::Object(
            json::put(
                json::members_of(settings),
                "sandbox"@,
                json::JsonView::Object(
                    json::put(
                        json::members_of(json::member(settings, "sandbox"@)->0),
                        "filesystem"@,
                        rewritten_both(fs, root, Seq::empty(), Seq::empty()),
                    ),
                ),
            ),
        ),
        None => settings,
    }
}

/// The user's entries of an array.
fn keep_foreign(a: Vec<Json>, repo_root: &str) -> (r: Vec<Json>)
    ensures
        json::items(r@) == json::items(a@).filter(foreign(repo_root@)),
{
    let ghost all = json::items(a@);
    let ghost f = foreign(repo_root@);
    let ghost mut c: int = 0;
    let mut a = a;
    let mut i: usize = 0;
    assert(all.take(0).filter(f) =~= Seq::<json::JsonView>::empty()) by {
        reveal(Seq::filter);
    }
    assert(all.skip(0) =~= all);
    while i < a.len()
        invariant
            f == foreign(repo_root@),
            i <= a.len(),
            0 <= c <= all.len(),
            a@.len() - i == all.len() - c,
            json::items(a@) =~= all.take(c).filter(f) + all.skip(c),
            all.take(c).filter(f).len() == i,
        decreases a.len() - i,
    {
        proof {
            assert(json::items(a@)[i as int] == all.skip(c)[0]);
            assert(all.take(c + 1) =~= all.take(c).push(all[c]));
            all.take(c).lemma_filter_push(all[c], f);
        }
        let ghost before = json::items(a@);
        let mine = match a[i].as_text() {
            Some(s) => is_mati_owned(s.as_str(), repo_root),
            None => false,
        };
        assert(mine == owned(all[c], repo_root@));
        if mine {
            a.remove(i);
            assert(json::items(a@) =~= before.remove(i as int));
        } else {
            i = i + 1;
        }
        proof {
            c = c + 1;
        }
    }
    assert(all.take(c) =~= all);
    a
}

/// Rewrites one array among the members of `sandbox.filesystem`.
pub fn set_owned_array(m: &mut Vec<(String, Json)>, key: &str, repo_root: &str, entries: &Vec<String>)
    ensures
        json::members(final(m)@) == rewritten(
            json::members(old(m)@),
            key@,
            repo_root@,
            text::texts(entries@),
        ),
{
    let ghost before = json::members(m@);
    let existing = json::take_member(m, key);
    let had = existing.is_some();
    let mut kept: Vec<Json> = match existing {
        Some(Json::Array(a)) => {
            proof {
                json::lemma_array_view(a);
            }
            keep_foreign(a, repo_root)
        },
        _ => Vec::new(),
    };
    assert(json::items(kept@) =~= foreign_entries(json::lookup(before, key@), repo_root@));
    let ghost head = json::items(kept@);
    let ghost es = text::texts(entries@);
    let mut i: usize = 0;
    while i < entries.len()
        invariant
            i <= entries.len(),
            es == text::texts(entries@),
            json::items(kept@) =~= head + as_values(es.take(i as int)),
        decreases entries.len() - i,
    {
        proof {
            assert(es.take(i + 1) =~= es.take(i as int).push(es[i as int]));
        }
        let value = Json::Str(entries[i].clone());
        proof {
            assert(value@ == json::JsonView::Str(es[i as int]));
            assert(json::items(kept@.push(value)) =~= json::items(kept@).push(value@));
            assert(as_values(es.take(i + 1)) =~= as_values(es.take(i as int)).push(value@));
        }
        kept.push(value);
        i = i + 1;
    }
    assert(es.take(i as int) =~= es);
    let ghost a = owned_array(json::lookup(before, key@), repo_root@, es);
    assert(json::items(kept@) =~= a);
    if kept.is_empty() {
        json::drop_member(m, key);
        proof {
            if had {
                lemma_without_put(before, key@, json::JsonView::Null);
            }
        }
    } else {
        proof {
            json::lemma_array_view(kept);
            if had {
                json::lemma_put_put(before, key@, json::JsonView::Null, json::JsonView::Array(a));
            }
        }
        json::put_member(m, key, Json::Array(kept));
    }
}

proof fn lemma_without_put(
    m: Seq<(Seq<char>, json::JsonView)>,
    key: Seq<char>,
    v: json::JsonView,
)
    ensures
        json::without(json::put(m, key, v), key) == json::without(m, key),
    decreases m.len(),
{
    let f = json::not_named(key);
    let p = json::put(m, key, v);
    if m.len() == 0 {
        reveal(Seq::filter);
        assert(p.drop_last() =~= m);
    } else {
        assert(m =~= seq![m[0]] + m.skip(1));
        Seq::filter_distributes_over_add(seq![m[0]], m.skip(1), f);
        if m[0].0 == key {
            Seq::filter_distributes_over_add(seq![(key, v)], m.skip(1), f);
            lemma_filter_one(m[0], f);
            lemma_filter_one((key, v), f);
        } else {
            lemma_without_put(m.skip(1), key, v);
            Seq::filter_distributes_over_add(seq![m[0]], json::put(m.skip(1), key, v), f);
        }
    }
}

proof fn lemma_filter_one<A>(a: A, f: spec_fn(A) -> bool)
    ensures
        seq![a].filter(f) == (if f(a) {
            seq![a]
        } else {
            Seq::<A>::empty()
        }),
{
    let empty = Seq::<A>::empty();
    assert(seq![a] =~= empty.push(a));
    empty.lemma_filter_push(a, f);
    assert(empty.filter(f) =~= empty) by {
        reveal(Seq::filter);
    }
}

/// Rewrites both arrays of `sandbox.filesystem`.
fn rewrite_both(fs: Json, repo_root: &str, write: &Vec<String>, read: &Vec<String>) -> (r: Json)
    ensures
        r@ == rewritten_both(fs@, repo_root@, text::texts(write@), text::texts(read@)),
{
    match fs {
        Json::Object(m) => {
            proof {
                json::lemma_object_view(m);
            }
            let mut m = m;
            set_owned_array(&mut m, "denyWrite", repo_root, write);
            set_owned_array(&mut m, "denyRead", repo_root, read);
            proof {
                json::lemma_object_view(m);
            }
            Json::Object(m)
        },
        other => other,
    }
}

/// The members of an object; of a value of another kind, none.
fn into_members(j: Json) -> (r: Vec<(String, Json)>)
    ensures
        json::members(r@) == json::members_of(j@),
{
    match j {
        Json::Object(m) => {
            proof {
                json::lemma_object_view(m);
            }
            m
        },
        _ => {
            let r: Vec<(String, Json)> = Vec::new();
            assert(json::members(r@) =~= Seq::<(Seq<char>, json::JsonView)>::empty());
            r
        },
    }
}

/// Takes a member out, or makes an empty object where it is absent.
fn take_child(m: &mut Vec<(String, Json)>, key: &str) -> (r: Json)
    ensures
        r@ == child(json::members(old(m)@), key@),
        forall|v: json::JsonView|
            #[trigger] json::put(json::members(final(m)@), key@, v) == json::put(
                json::members(old(m)@),
                key@,
                v,
            ),
{
    let ghost before = json::members(m@);
    match json::take_member(m, key) {
        Some(j) => {
            proof {
                assert forall|v: json::JsonView| #[trigger]
                    json::put(json::members(m@), key@, v) == json::put(before, key@, v) by {
                    json::lemma_put_put(before, key@, json::JsonView::Null, v);
                }
            }
            j
        },
        None => {
            let e: Vec<(String, Json)> = Vec::new();
            proof {
                json::lemma_object_view(e);
                assert(json::members(e@) =~= Seq::<(Seq<char>, json::JsonView)>::empty());
            }
            Json::Object(e)
        },
    }
}

/// Merges mati's rules into the settings.
pub fn apply_into_settings(root: Json, repo_root: &str, abs: &SandboxRules) -> (r: Json)
    ensures
        r@ == applied(root@, repo_root@, abs.deny_write@, abs.deny_read@),
{
    let mut top = into_members(root);
    let sandbox = take_child(&mut top, "sandbox");
    let mut sb = into_members(sandbox);
    let fs = take_child(&mut sb, "filesystem");
    let fs = rewrite_both(fs, repo_root, abs.deny_write.items(), abs.deny_read.items());
    json::put_member(&mut sb, "filesystem", fs);
    proof {
        json::lemma_object_view(sb);
    }
    json::put_member(&mut top, "sandbox", Json::Object(sb));
    proof {
        json::lemma_object_view(top);
    }
    Json::Object(top)
}

/// Takes mati's rules out of the settings.
pub fn clear_from_settings(root: Json, repo_root: &str) -> (r: Json)
    ensures
        r@ == cleared(root@, repo_root@),
{
    let reachable = match root.get("sandbox") {
        Some(sb) => sb.get("filesystem").is_some(),
        None => false,
    };
    if !reachable {
        return root;
    }
    let ghost view = root@;
    let mut top = into_members(root);
    let sandbox = take_child(&mut top, "sandbox");
    let mut sb = into_members(sandbox);
    let fs = take_child(&mut sb, "filesystem");
    let none: Vec<String> = Vec::new();
    assert(text::texts(none@) =~= Seq::<Seq<char>>::empty());
    let fs = rewrite_both(fs, repo_root, &none, &none);
    json::put_member(&mut sb, "filesystem", fs);
    proof {
        json::lemma_object_view(sb);
    }
    json::put_member(&mut top, "sandbox", Json::Object(sb));
    proof {
        json::lemma_object_view(top);
    }
    Json::Object(top)
}

// ---------------------------------------------------------------------------
// Checking and guarding
// ---------------------------------------------------------------------------

/// What is wrong with the shape of the user's sandbox settings.
#[derive(Debug, Clone, Copy, PartialEq, Eq, Structural)]
pub enum ShapeError {
    SandboxNotObject,
    FilesystemNotObject,
    DenyReadNotArray,
    DenyWriteNotArray,
}

impl ShapeError {
    /// The message for the user.
    pub fn message(&self) -> (r: &'static str)
        ensures
            r@ == (match *self {
                ShapeError::SandboxNotObject => "settings `sandbox` is not an object"@,
                ShapeError::FilesystemNotObject => "settings `sandbox.filesystem` is not an object"@,
                ShapeError::DenyReadNotArray => "settings `sandbox.filesystem.denyRead` is not an array"@,
                ShapeError::DenyWriteNotArray => "settings `sandbox.filesystem.denyWrite` is not an array"@,
            }),
    {
        match self {
            ShapeError::SandboxNotObject => "settings `sandbox` is not an object",
            ShapeError::FilesystemNotObject => "settings `sandbox.filesystem` is not an object",
            ShapeError::DenyReadNotArray => "settings `sandbox.filesystem.denyRead` is not an array",
            ShapeError::DenyWriteNotArray => "settings `sandbox.filesystem.denyWrite` is not an array",
        }
    }
}

/// The first fault in the shape of the sandbox settings. What is absent is no
/// fault.
pub open spec fn shape_fault(settings: json::JsonView) -> Option<ShapeError> {
    match json::member(settings, "sandbox"@) {
        None => None,
        Some(sb) => if !(sb is Object) {
            Some(ShapeError::SandboxNotObject)
        } else {
            match json::member(sb, "filesystem"@) {
                None => None,
                Some(fs) => if !(fs is Object) {
                    Some(ShapeError::FilesystemNotObject)
                } else if json::member(fs, "denyRead"@) matches Some(a) && !(a is Array) {
                    Some(ShapeError::DenyReadNotArray)
                } else if json::member(fs, "denyWrite"@) matches Some(a) && !(a is Array) {
                    Some(ShapeError::DenyWriteNotArray)
                } else {
                    None
                },
            }
        },
    }
}

fn not_array(j: Option<&Json>) -> (r: bool)
    ensures
        r == (json::opt_view(j) matches Some(a) && !(a is Array)),
{
    match j {
        Some(Json::Array(_)) => false,
        Some(_) => true,
        None => false,
    }
}

/// Refuses settings whose sandbox part has the wrong shape, so that the user's
/// data is never coerced or thrown away.
pub fn validate_sandbox_shape(root: &Json) -> (r: Result<(), ShapeError>)
    ensures
        match r {
            Ok(_) => shape_fault(root@) is None,
            Err(e) => shape_fault(root@) == Some(e),
        },
{
    let sb = match root.get("sandbox") {
        Some(sb) => sb,
        None => return Ok(()),
    };
    match sb {
        Json::Object(_) => {},
        _ => return Err(ShapeError::SandboxNotObject),
    }
    let fs = match sb.get("filesystem") {
        Some(fs) => fs,
        None => return Ok(()),
    };
    match fs {
        Json::Object(_) => {},
        _ => return Err(ShapeError::FilesystemNotObject),
    }
    if not_array(fs.get("denyRead")) {
        return Err(ShapeError::DenyReadNotArray);
    }
    if not_array(fs.get("denyWrite")) {
        return Err(ShapeError::DenyWriteNotArray);
    }
    Ok(())
}

/// The array `key` of `sandbox.filesystem`; empty where there is none.
pub open spec fn deny_array(settings: json::JsonView, key: Seq<char>) -> Seq<json::JsonView> {
    match json::member2(settings, "sandbox"@, "filesystem"@) {
        Some(fs) => match json::member(fs, key) {
            Some(json::JsonView::Array(a)) => a,
            _ => Seq::empty(),
        },
        None => Seq::empty(),
    }
}

/// Whether an array holds an entry of mati that the new rules leave out.
pub open spec fn dropped(
    a: Seq<json::JsonView>,
    root: Seq<char>,
    keep: Seq<Seq<char>>,
    entry: Seq<char>,
) -> bool {
    a.contains(json::JsonView::Str(entry)) && paths::is_under(entry, root) && !keep.contains(entry)
}

/// The entries that a write of the new rules would take away.
pub open spec fn drift(
    settings: json::JsonView,
    root: Seq<char>,
    write: Seq<Seq<char>>,
    read: Seq<Seq<char>>,
) -> Set<Seq<char>> {
    Set::new(
        |e: Seq<char>|
            dropped(deny_array(settings, "denyWrite"@), root, write, e) || dropped(
                deny_array(settings, "denyRead"@),
                root,
                read,
                e,
            ),
    )
}

pub open spec fn drift_of(a: Seq<json::JsonView>, root: Seq<char>, keep: Seq<Seq<char>>) -> Set<
    Seq<char>,
> {
    Set::new(|e: Seq<char>| dropped(a, root, keep, e))
}

fn collect_drift(fs: &Json, key: &str, repo_root: &str, keep: &StrSet, out: &mut StrSet)
    ensures
        final(out)@.to_set() =~= old(out)@.to_set().union(
            drift_of(
                match json::member(fs@, key@) {
                    Some(json::JsonView::Array(a)) => a,
                    _ => Seq::empty(),
                },
                repo_root@,
                keep@,
            ),
        ),
{
    match fs.get(key) {
        Some(Json::Array(a)) => {
            proof {
                json::lemma_array_view(*a);
            }
            let ghost all = json::items(a@);
            let ghost start = out@.to_set();
            let mut i: usize = 0;
            assert(drift_of(all.take(0), repo_root@, keep@) =~= Set::empty());
            while i < a.len()
                invariant
                    i <= a.len(),
                    all == json::items(a@),
                    out@.to_set() =~= start.union(
                        drift_of(all.take(i as int), repo_root@, keep@),
                    ),
                decreases a.len() - i,
            {
                proof {
                    lemma_drift_step(all, i as int, repo_root@, keep@);
                    assert(all[i as int] == a@[i as int]@);
                }
                if let Some(s) = a[i].as_text() {
                    if is_mati_owned(s.as_str(), repo_root) && !keep.contains(s.as_str()) {
                        out.insert(s);
                    }
                }
                i = i + 1;
            }
            assert(all.take(i as int) =~= all);
        },
        _ => {
            proof {
                assert(drift_of(Seq::empty(), repo_root@, keep@) =~= Set::empty());
            }
        },
    }
}

proof fn lemma_drift_step(a: Seq<json::JsonView>, i: int, root: Seq<char>, keep: Seq<Seq<char>>)
    requires
        0 <= i < a.len(),
    ensures
        drift_of(a.take(i + 1), root, keep) =~= (match a[i] {
            json::JsonView::Str(s) => if paths::is_under(s, root) && !keep.contains(s) {
                drift_of(a.take(i), root, keep).insert(s)
            } else {
                drift_of(a.take(i), root, keep)
            },
            _ => drift_of(a.take(i), root, keep),
        }),
{
    assert(a.take(i + 1) =~= a.take(i).push(a[i]));
    assert forall|v: json::JsonView| #[trigger] a.take(i + 1).contains(v) == (a.take(i).contains(v)
        || v == a[i]) by {
        if a.take(i).contains(v) {
            let k = choose|k: int| 0 <= k < i && a.take(i)[k] == v;
            assert(a.take(i + 1)[k] == v);
        }
        if v == a[i] {
            assert(a.take(i + 1)[i] == v);
        }
        if a.take(i + 1).contains(v) {
            let t = a.take(i + 1);
            let k = choose|k: int| 0 <= k < t.len() && t[k] == v;
            if k < i {
                assert(a.take(i)[k] == v);
            }
        }
    }
}

/// The entries of mati in the settings that the new rules would drop.
pub fn drifted_removals(existing: &Json, repo_root: &str, abs: &SandboxRules) -> (r: StrSet)
    ensures
        r@.to_set() =~= drift(existing@, repo_root@, abs.deny_write@, abs.deny_read@),
{
    let mut out = StrSet::new();
    proof {
        assert(drift_of(Seq::empty(), repo_root@, abs.deny_write@) =~= Set::empty());
        assert(drift_of(Seq::empty(), repo_root@, abs.deny_read@) =~= Set::empty());
    }
    if let Some(sb) = existing.get("sandbox") {
        if let Some(fs) = sb.get("filesystem") {
            collect_drift(fs, "denyWrite", repo_root, &abs.deny_write, &mut out);
            collect_drift(fs, "denyRead", repo_root, &abs.deny_read, &mut out);
        }
    }
    out
}

/// What a write of the rules comes to.
#[derive(Debug, PartialEq, Eq)]
pub enum Materialized {
    /// Protections would be lost and nobody asked for that.
    Refused(StrSet),
    /// The settings to write, and the protections that go away with them.
    Write { settings: Json, removals: StrSet },
}

/// Whether a write of the rules comes to `r`: it is refused where it is guarded, not
/// forced and would take protections away.
pub open spec fn comes_to(
    existing: json::JsonView,
    root: Seq<char>,
    write: Seq<Seq<char>>,
    read: Seq<Seq<char>>,
    guarded: bool,
    force: bool,
    r: Materialized,
) -> bool {
    let lost = drift(existing, root, write, read);
    match r {
        Materialized::Refused(removals) => {
            &&& guarded
            &&& !force
            &&& removals@.to_set() =~= lost
            &&& removals@.len() > 0
        },
        Materialized::Write { settings, removals } => {
            &&& !guarded || force || lost =~= Set::empty()
            &&& removals@.to_set() =~= lost
            &&& settings@ == applied(existing, root, write, read)
        },
    }
}

/// Writes the rules into the settings. Where `guarded`, protections whose tag is
/// gone are taken away only if `force` says so.
pub fn materialize(
    existing: Json,
    repo_root: &str,
    abs: &SandboxRules,
    guarded: bool,
    force: bool,
) -> (r: Materialized)
    ensures
        comes_to(
            existing@,
            repo_root@,
            abs.deny_write@,
            abs.deny_read@,
            guarded,
            force,
            r,
        ),
{
    let removals = drifted_removals(&existing, repo_root, abs);
    if guarded && !removals.is_empty() && !force {
        return Materialized::Refused(removals);
    }
    proof {
        if removals@.len() == 0 {
            assert(removals@.to_set() =~= Set::empty());
        }
    }
    Materialized::Write { settings: apply_into_settings(existing, repo_root, abs), removals }
}

// ---------------------------------------------------------------------------
// Resolved rules, tags and blast radius
// ---------------------------------------------------------------------------

/// A repo-relative path and the absolute path it resolves to, if it resolves.
#[derive(Debug, PartialEq, Eq)]
pub struct Resolved {
    pub rel: String,
    pub absolute: Option<String>,
}

/// Whether a path resolves to a place under the repository root.
pub open spec fn inside(p: Resolved, root: Seq<char>) -> bool {
    p.absolute matches Some(a) && paths::is_under(a@, root)
}

/// A resolved path, clamped to the repository.
pub fn resolve_under_repo(repo_root: &str, absolute: &Option<String>) -> (r: bool)
    ensures
        r == (absolute matches Some(a) && paths::is_under(a@, repo_root@)),
{
    match absolute {
        Some(a) => paths::under(a.as_str(), repo_root),
        None => false,
    }
}

/// The absolute paths of those that lie in the repository.
pub open spec fn inside_paths(ps: Seq<Resolved>, root: Seq<char>) -> Set<Seq<char>> {
    Set::new(
        |a: Seq<char>|
            exists|i: int|
                0 <= i < ps.len() && inside(#[trigger] ps[i], root) && ps[i].absolute->0@ == a,
    )
}

/// The relative paths of those that do not.
pub open spec fn outside_paths(ps: Seq<Resolved>, root: Seq<char>) -> Set<Seq<char>> {
    Set::new(
        |p: Seq<char>|
            exists|i: int|
                0 <= i < ps.len() && !inside(#[trigger] ps[i], root) && ps[i].rel@ == p,
    )
}

proof fn lemma_resolved_step(ps: Seq<Resolved>, i: int, root: Seq<char>)
    requires
        0 <= i < ps.len(),
    ensures
        inside_paths(ps.take(i + 1), root) =~= (if inside(ps[i], root) {
            inside_paths(ps.take(i), root).insert(ps[i].absolute->0@)
        } else {
            inside_paths(ps.take(i), root)
        }),
        outside_paths(ps.take(i + 1), root) =~= (if !inside(ps[i], root) {
            outside_paths(ps.take(i), root).insert(ps[i].rel@)
        } else {
            outside_paths(ps.take(i), root)
        }),
{
    let before = ps.take(i);
    let after = ps.take(i + 1);
    assert(after[i] == ps[i]);
    assert forall|a: Seq<char>| #[trigger] inside_paths(before, root).contains(a) implies inside_paths(
        after,
        root,
    ).contains(a) by {
        let k = choose|k: int|
            0 <= k < before.len() && inside(#[trigger] before[k], root) && before[k].absolute->0@
                == a;
        assert(after[k] == before[k]);
    }
    assert forall|a: Seq<char>| #[trigger] outside_paths(before, root).contains(a) implies outside_paths(
        after,
        root,
    ).contains(a) by {
        let k = choose|k: int|
            0 <= k < before.len() && !inside(#[trigger] before[k], root) && before[k].rel@ == a;
        assert(after[k] == before[k]);
    }
    assert forall|a: Seq<char>| #[trigger] inside_paths(after, root).contains(a) implies inside_paths(
        before,
        root,
    ).contains(a) || (inside(ps[i], root) && ps[i].absolute->0@ == a) by {
        let k = choose|k: int|
            0 <= k < after.len() && inside(#[trigger] after[k], root) && after[k].absolute->0@ == a;
        if k < i {
            assert(before[k] == after[k]);
        }
    }
    assert forall|a: Seq<char>| #[trigger] outside_paths(after, root).contains(a) implies outside_paths(
        before,
        root,
    ).contains(a) || (!inside(ps[i], root) && ps[i].rel@ == a) by {
        let k = choose|k: int|
            0 <= k < after.len() && !inside(#[trigger] after[k], root) && after[k].rel@ == a;
        if k < i {
            assert(before[k] == after[k]);
        }
    }
}

fn clamp(repo_root: &str, ps: &Vec<Resolved>, skipped: &mut StrSet) -> (r: StrSet)
    ensures
        r@.to_set() =~= inside_paths(ps@, repo_root@),
        final(skipped)@.to_set() =~= old(skipped)@.to_set().union(outside_paths(ps@, repo_root@)),
{
    let mut abs = StrSet::new();
    let ghost start = skipped@.to_set();
    let mut i: usize = 0;
    assert(inside_paths(ps@.take(0), repo_root@) =~= Set::empty());
    assert(outside_paths(ps@.take(0), repo_root@) =~= Set::empty());
    while i < ps.len()
        invariant
            i <= ps.len(),
            abs@.to_set() =~= inside_paths(ps@.take(i as int), repo_root@),
            skipped@.to_set() =~= start.union(outside_paths(ps@.take(i as int), repo_root@)),
        decreases ps.len() - i,
    {
        proof {
            lemma_resolved_step(ps@, i as int, repo_root@);
        }
        if resolve_under_repo(repo_root, &ps[i].absolute) {
            if let Some(a) = &ps[i].absolute {
                abs.insert(a.clone());
            }
        } else {
            skipped.insert(ps[i].rel.clone());
        }
        i = i + 1;
    }
    assert(ps@.take(i as int) =~= ps@);
    abs
}

/// The absolute rules, and the paths left out because they resolve outside the
/// repository.
pub fn resolve_rules(repo_root: &str, write: &Vec<Resolved>, read: &Vec<Resolved>) -> (r: (
    SandboxRules,
    StrSet,
))
    ensures
        r.0.deny_write@.to_set() =~= inside_paths(write@, repo_root@),
        r.0.deny_read@.to_set() =~= inside_paths(read@, repo_root@),
        r.1@.to_set() =~= outside_paths(write@, repo_root@).union(
            outside_paths(read@, repo_root@),
        ),
        all_under(r.0.deny_write@, repo_root@),
        all_under(r.0.deny_read@, repo_root@),
{
    let mut skipped = StrSet::new();
    let deny_write = clamp(repo_root, write, &mut skipped);
    let deny_read = clamp(repo_root, read, &mut skipped);
    proof {
        lemma_inside_is_under(deny_write@, write@, repo_root@);
        lemma_inside_is_under(deny_read@, read@, repo_root@);
    }
    (SandboxRules { deny_read, deny_write }, skipped)
}

/// Every path lies under the repository root.
pub open spec fn all_under(s: Seq<Seq<char>>, root: Seq<char>) -> bool {
    forall|i: int| 0 <= i < s.len() ==> paths::is_under(#[trigger] s[i], root)
}

proof fn lemma_inside_is_under(s: Seq<Seq<char>>, ps: Seq<Resolved>, root: Seq<char>)
    requires
        s.to_set() =~= inside_paths(ps, root),
    ensures
        all_under(s, root),
{
    assert forall|i: int| 0 <= i < s.len() implies paths::is_under(#[trigger] s[i], root) by {
        assert(s.to_set().contains(s[i]));
        let k = choose|k: int|
            0 <= k < ps.len() && inside(#[trigger] ps[k], root) && ps[k].absolute->0@ == s[i];
        assert(inside(ps[k], root));
    }
}

/// Being another path than `target`.
pub open spec fn other_than(target: Seq<char>) -> spec_fn(Seq<char>) -> bool {
    |f: Seq<char>| f != target
}

/// Paths in repo-relative form.
pub open spec fn rel_forms(files: Seq<Seq<char>>) -> Seq<Seq<char>> {
    files.map_values(|f: Seq<char>| rel_form(f))
}

/// The files of a gotcha besides `target`, in repo-relative form.
pub open spec fn other_files(target: Seq<char>, files: Seq<Seq<char>>) -> Seq<Seq<char>> {
    rel_forms(files).filter(other_than(target))
}

/// The files that (un)protecting `target` through its gotcha touches as well.
pub fn blast_radius(target: &str, affected_files: &Vec<String>) -> (r: Vec<String>)
    ensures
        text::texts(r@) == other_files(target@, text::texts(affected_files@)),
{
    let ghost all = rel_forms(text::texts(affected_files@));
    let ghost p = other_than(target@);
    let mut out: Vec<String> = Vec::new();
    let mut i: usize = 0;
    assert(all.take(0).filter(p) =~= Seq::<Seq<char>>::empty()) by {
        reveal(Seq::filter);
    }
    while i < affected_files.len()
        invariant
            i <= affected_files.len(),
            all == rel_forms(text::texts(affected_files@)),
            p == other_than(target@),
            text::texts(out@) =~= all.take(i as int).filter(p),
        decreases affected_files.len() - i,
    {
        let f = normalize_rel(affected_files[i].as_str());
        proof {
            assert(all.take(i + 1) =~= all.take(i as int).push(all[i as int]));
            all.take(i as int).lemma_filter_push(all[i as int], p);
            assert(all[i as int] == f@);
        }
        if !text::same(f.as_str(), target) {
            text::push_line(&mut out, f);
        }
        i = i + 1;
    }
    assert(all.take(i as int) =~= all);
    out
}

/// The tags with those of `add` that are missing put at the end.
pub open spec fn with_tags(tags: Seq<Seq<char>>, add: Seq<Seq<char>>) -> Seq<Seq<char>>
    decreases add.len(),
{
    if add.len() == 0 {
        tags
    } else {
        let p = with_tags(tags, add.drop_last());
        if p.contains(add.last()) {
            p
        } else {
            p.push(add.last())
        }
    }
}

/// Being none of `rm`.
pub open spec fn none_of(rm: Seq<Seq<char>>) -> spec_fn(Seq<char>) -> bool {
    |t: Seq<char>| !rm.contains(t)
}

/// The tags without those of `rm`.
pub open spec fn without_tags(tags: Seq<Seq<char>>, rm: Seq<Seq<char>>) -> Seq<Seq<char>> {
    tags.filter(none_of(rm))
}

pub fn add_tags(tags: &mut Vec<String>, add: &Vec<&str>)
    ensures
        text::texts(final(tags)@) == with_tags(text::texts(old(tags)@), text::slices(add@)),
{
    let ghost start = text::texts(tags@);
    let ghost all = text::slices(add@);
    let mut i: usize = 0;
    assert(all.take(0) =~= Seq::<Seq<char>>::empty());
    while i < add.len()
        invariant
            i <= add.len(),
            all == text::slices(add@),
            text::texts(tags@) == with_tags(start, all.take(i as int)),
        decreases add.len() - i,
    {
        assert(all.take(i + 1).drop_last() =~= all.take(i as int));
        assert(all.take(i + 1).last() == add@[i as int]@);
        if !text::list_contains(tags, add[i]) {
            text::push_line(tags, add[i].to_owned());
        }
        i = i + 1;
    }
    assert(all.take(i as int) =~= all);
}

fn slice_contains(v: &Vec<&str>, s: &str) -> (r: bool)
    ensures
        r == text::slices(v@).contains(s@),
{
    let mut i: usize = 0;
    while i < v.len()
        invariant
            i <= v.len(),
            forall|k: int| 0 <= k < i ==> #[trigger] text::slices(v@)[k] != s@,
        decreases v.len() - i,
    {
        if text::same(v[i], s) {
            assert(text::slices(v@)[i as int] == s@);
            return true;
        }
        assert(text::slices(v@)[i as int] != s@);
        i = i + 1;
    }
    false
}

pub fn remove_tags(tags: &mut Vec<String>, rm: &Vec<&str>)
    ensures
        text::texts(final(tags)@) == without_tags(text::texts(old(tags)@), text::slices(rm@)),
{
    let ghost all = text::texts(tags@);
    let ghost f = none_of(text::slices(rm@));
    let ghost mut c: int = 0;
    let mut i: usize = 0;
    assert(all.take(0).filter(f) =~= Seq::<Seq<char>>::empty()) by {
        reveal(Seq::filter);
    }
    assert(all.skip(0) =~= all);
    while i < tags.len()
        invariant
            f == none_of(text::slices(rm@)),
            i <= tags.len(),
            0 <= c <= all.len(),
            tags@.len() - i == all.len() - c,
            text::texts(tags@) =~= all.take(c).filter(f) + all.skip(c),
            all.take(c).filter(f).len() == i,
        decreases tags.len() - i,
    {
        proof {
            assert(text::texts(tags@)[i as int] == all.skip(c)[0]);
            assert(all.take(c + 1) =~= all.take(c).push(all[c]));
            all.take(c).lemma_filter_push(all[c], f);
        }
        let ghost before = text::texts(tags@);
        if slice_contains(rm, tags[i].as_str()) {
            tags.remove(i);
            assert(text::texts(tags@) =~= before.remove(i as int));
        } else {
            i = i + 1;
        }
        proof {
            c = c + 1;
        }
    }
    assert(all.take(c) =~= all);
}

// ---------------------------------------------------------------------------
// The commands
// ---------------------------------------------------------------------------

/// What the sandbox commands know of one stored gotcha. A record without a
/// gotcha payload counts as unconfirmed and without files.
#[derive(Debug, PartialEq, Eq)]
pub struct SandboxGotcha {
    pub key: String,
    pub tags: Vec<String>,
    pub active: bool,
    pub confirmed: bool,
    pub files: Vec<String>,
}

/// The warning that a tagged gotcha calls for.
pub open spec fn warning_of(g: SandboxGotcha) -> Option<Seq<char>> {
    if (tagged(g.tags@, TAG_DENY_WRITE@) || tagged(g.tags@, TAG_DENY_READ@)) && g.active {
        if !g.confirmed {
            Some(
                g.key@
                    + " is tagged crown-jewel but not confirmed \u{2014} not enforced (run `mati gotcha confirm`)"@,
            )
        } else if g.files@.len() == 0 {
            Some(g.key@ + " is tagged crown-jewel but has no affected_files"@)
        } else {
            None
        }
    } else {
        None
    }
}

pub fn tag_warning(g: &SandboxGotcha) -> (r: Option<String>)
    ensures
        json::opt_text(r) == warning_of(*g),
{
    let tagged = has_tag(g.tags.as_slice(), TAG_DENY_WRITE) || has_tag(
        g.tags.as_slice(),
        TAG_DENY_READ,
    );
    if !tagged || !g.active {
        None
    } else if !g.confirmed {
        Some(
            g.key.clone().concat(
                " is tagged crown-jewel but not confirmed \u{2014} not enforced (run `mati gotcha confirm`)",
            ),
        )
    } else if g.files.is_empty() {
        Some(g.key.clone().concat(" is tagged crown-jewel but has no affected_files"))
    } else {
        None
    }
}

/// Whether a gotcha is active, confirmed and covers `file`.
pub open spec fn protects(g: SandboxGotcha, file: Seq<char>) -> bool {
    g.active && g.confirmed && exists|i: int|
        0 <= i < g.files@.len() && rel_form(#[trigger] g.files@[i]@) == file
}

pub fn covers_file(g: &SandboxGotcha, file: &str) -> (r: bool)
    ensures
        r == protects(*g, file@),
{
    if !g.active || !g.confirmed {
        return false;
    }
    let mut i: usize = 0;
    while i < g.files.len()
        invariant
            g.active && g.confirmed,
            i <= g.files.len(),
            forall|k: int| 0 <= k < i ==> rel_form(#[trigger] g.files@[k]@) != file@,
        decreases g.files.len() - i,
    {
        let f = normalize_rel(g.files[i].as_str());
        if text::same(f.as_str(), file) {
            assert(rel_form(g.files@[i as int]@) == file@);
            return true;
        }
        i = i + 1;
    }
    false
}

/// Why `protect` or `unprotect` stops, or the gotchas that it retags.
#[derive(Debug, PartialEq, Eq)]
pub enum ProtectPlan {
    /// No confirmed gotcha covers the file.
    NoGotcha,
    /// The gotcha at this position covers these other files too, and `--yes` was
    /// not given.
    TooBroad { index: usize, others: Vec<String> },
    /// The positions of the gotchas to retag, in order.
    Retag(Vec<usize>),
}

/// The positions below `n` of the gotchas that cover `file`.
pub open spec fn protecting(gs: Seq<SandboxGotcha>, file: Seq<char>, n: int) -> Seq<int>
    decreases n,
{
    if n <= 0 {
        Seq::empty()
    } else if protects(gs[n - 1], file) {
        protecting(gs, file, n - 1).push(n - 1)
    } else {
        protecting(gs, file, n - 1)
    }
}

/// Whether (un)protecting `file` through a gotcha touches other files.
pub open spec fn is_broad(g: SandboxGotcha, file: Seq<char>) -> bool {
    other_files(file, text::texts(g.files@)).len() > 0
}

pub open spec fn positions(v: Seq<usize>) -> Seq<int> {
    v.map_values(|i: usize| i as int)
}

/// Finds the gotchas that protect `file`. A gotcha that covers other files as
/// well stops the command unless `yes` accepts that.
pub fn plan_protect(gs: &Vec<SandboxGotcha>, file: &str, yes: bool) -> (r: ProtectPlan)
    ensures
        ({
            let all = protecting(gs@, file@, gs@.len() as int);
            match r {
                ProtectPlan::NoGotcha => all.len() == 0,
                ProtectPlan::TooBroad { index, others } => {
                    &&& !yes
                    &&& index < gs@.len()
                    &&& protects(gs@[index as int], file@)
                    &&& is_broad(gs@[index as int], file@)
                    &&& forall|k: int|
                        0 <= k < index && protects(#[trigger] gs@[k], file@) ==> !is_broad(
                            gs@[k],
                            file@,
                        )
                    &&& text::texts(others@) == other_files(
                        file@,
                        text::texts(gs@[index as int].files@),
                    )
                },
                ProtectPlan::Retag(list) => {
                    &&& all.len() > 0
                    &&& positions(list@) == all
                    &&& yes || forall|k: int|
                        0 <= k < gs@.len() && protects(#[trigger] gs@[k], file@) ==> !is_broad(
                            gs@[k],
                            file@,
                        )
                },
            }
        }),
{
    let mut list: Vec<usize> = Vec::new();
    let mut i: usize = 0;
    while i < gs.len()
        invariant
            i <= gs.len(),
            positions(list@) =~= protecting(gs@, file@, i as int),
            yes || forall|k: int|
                0 <= k < i && protects(#[trigger] gs@[k], file@) ==> !is_broad(gs@[k], file@),
        decreases gs.len() - i,
    {
        if covers_file(&gs[i], file) {
            let others = blast_radius(file, &gs[i].files);
            assert(text::texts(others@).len() == others@.len());
            if !others.is_empty() && !yes {
                return ProtectPlan::TooBroad { index: i, others };
            }
            list.push(i);
        }
        i = i + 1;
    }
    if list.is_empty() {
        ProtectPlan::NoGotcha
    } else {
        ProtectPlan::Retag(list)
    }
}

/// The tags of a gotcha after `protect` or `unprotect`.
pub open spec fn retagged(tags: Seq<Seq<char>>, add: bool, read: bool) -> Seq<Seq<char>> {
    if !add {
        without_tags(tags, seq![TAG_DENY_WRITE@, TAG_DENY_READ@])
    } else if read {
        with_tags(tags, seq![TAG_DENY_WRITE@, TAG_DENY_READ@])
    } else {
        with_tags(tags, seq![TAG_DENY_WRITE@])
    }
}

pub fn retag(tags: &mut Vec<String>, add: bool, read: bool)
    ensures
        text::texts(final(tags)@) == retagged(text::texts(old(tags)@), add, read),
{
    let mut names: Vec<&str> = Vec::new();
    names.push(TAG_DENY_WRITE);
    if !add || read {
        names.push(TAG_DENY_READ);
    }
    if add {
        assert(text::slices(names@) =~= (if read {
            seq![TAG_DENY_WRITE@, TAG_DENY_READ@]
        } else {
            seq![TAG_DENY_WRITE@]
        }));
        add_tags(tags, &names);
    } else {
        assert(text::slices(names@) =~= seq![TAG_DENY_WRITE@, TAG_DENY_READ@]);
        remove_tags(tags, &names);
    }
}

/// The lines that say how the rules take effect.
pub open spec fn hint_lines(product: Seq<char>) -> Seq<Seq<char>> {
    seq![
        ""@,
        "These OS-level denies cover the agent's shell and every subprocess it spawns;"@,
        "the agent can still reach the files through the consultation-gated Read/Edit"@,
        "tools (L1). They take effect only once the "@ + product + " sandbox is enabled"@,
        "(`/sandbox`, or `sandbox.enabled` in settings) on macOS / Linux / WSL2."@,
        "Run `mati sandbox clear` to remove them."@,
    ]
}

pub fn enablement_hint(host: &Assistant) -> (r: Vec<String>)
    ensures
        text::texts(r@) == hint_lines(host.product@),
{
    let mut v: Vec<String> = Vec::new();
    text::push_line(&mut v, "".to_owned());
    text::push_line(
        &mut v,
        "These OS-level denies cover the agent's shell and every subprocess it spawns;".to_owned(),
    );
    text::push_line(
        &mut v,
        "the agent can still reach the files through the consultation-gated Read/Edit".to_owned(),
    );
    text::push_line(
        &mut v,
        "tools (L1). They take effect only once the ".to_owned().concat(
            host.product.as_str(),
        ).concat(" sandbox is enabled"),
    );
    text::push_line(
        &mut v,
        "(`/sandbox`, or `sandbox.enabled` in settings) on macOS / Linux / WSL2.".to_owned(),
    );
    text::push_line(&mut v, "Run `mati sandbox clear` to remove them.".to_owned());
    assert(text::texts(v@) =~= hint_lines(host.product@));
    v
}

/// One kind of rule in the preview; nothing where there is none.
pub open spec fn section(title: Seq<char>, entries: Seq<Seq<char>>) -> Seq<Seq<char>> {
    if entries.len() == 0 {
        Seq::empty()
    } else {
        seq![title] + text::prefixed("    "@, entries)
    }
}

/// What the preview shows.
pub open spec fn preview_lines(
    write: Seq<Seq<char>>,
    read: Seq<Seq<char>>,
    path: Seq<char>,
    product: Seq<char>,
) -> Seq<Seq<char>> {
    if write.len() == 0 && read.len() == 0 {
        seq![
            "No crown-jewel gotchas resolve to in-repo files."@,
            "Tag a confirmed gotcha with `crown-jewel` (deny shell writes) or `sandbox-deny-read` (deny shell reads), then `mati sandbox compile --apply`."@,
        ]
    } else {
        seq![
            "Sandbox floor preview \u{2014} nothing written. `--apply` writes to "@ + path + "."@,
            ""@,
        ] + section("  denyWrite (shell / subprocess cannot modify):"@, write) + section(
            "  denyRead (shell / subprocess cannot read):"@,
            read,
        ) + hint_lines(product)
    }
}

fn push_section(lines: &mut Vec<String>, title: &str, entries: &Vec<String>)
    ensures
        text::texts(final(lines)@) == text::texts(old(lines)@) + section(
            title@,
            text::texts(entries@),
        ),
{
    let ghost head = text::texts(lines@);
    if !entries.is_empty() {
        text::push_line(lines, title.to_owned());
        text::push_prefixed(lines, "    ", entries);
    }
    assert(text::texts(lines@) =~= head + section(title@, text::texts(entries@)));
}

pub fn preview(abs: &SandboxRules, path: &str, host: &Assistant) -> (r: Vec<String>)
    ensures
        text::texts(r@) == preview_lines(abs.deny_write@, abs.deny_read@, path@, host.product@),
{
    let mut v: Vec<String> = Vec::new();
    if abs.is_empty() {
        text::push_line(&mut v, "No crown-jewel gotchas resolve to in-repo files.".to_owned());
        text::push_line(
            &mut v,
            "Tag a confirmed gotcha with `crown-jewel` (deny shell writes) or `sandbox-deny-read` (deny shell reads), then `mati sandbox compile --apply`.".to_owned(),
        );
        assert(text::texts(v@) =~= preview_lines(abs.deny_write@, abs.deny_read@, path@, host.product@));
        return v;
    }
    text::push_line(
        &mut v,
        "Sandbox floor preview \u{2014} nothing written. `--apply` writes to ".to_owned().concat(
            path,
        ).concat("."),
    );
    text::push_line(&mut v, "".to_owned());
    push_section(
        &mut v,
        "  denyWrite (shell / subprocess cannot modify):",
        abs.deny_write.items(),
    );
    push_section(&mut v, "  denyRead (shell / subprocess cannot read):", abs.deny_read.items());
    let hint = enablement_hint(host);
    text::push_all(&mut v, &hint);
    assert(text::texts(v@) =~= preview_lines(abs.deny_write@, abs.deny_read@, path@, host.product@));
    v
}

/// The line that reports a write.
pub fn applied_line(abs: &SandboxRules, path: &str) -> (r: String)
    ensures
        r@ == "Applied "@ + text::dec(abs.deny_write@.len()) + " denyWrite + "@ + text::dec(
            abs.deny_read@.len(),
        ) + " denyRead entr"@ + (if abs.deny_write@.len() + abs.deny_read@.len() == 1 {
            "y"@
        } else {
            "ies"@
        }) + " to "@ + path@,
{
    let w = abs.deny_write.len();
    let n = abs.deny_read.len();
    let one = (w == 1 && n == 0) || (w == 0 && n == 1);
    "Applied ".to_owned().concat(text::decimal(w as u64).as_str()).concat(" denyWrite + ").concat(
        text::decimal(n as u64).as_str(),
    ).concat(" denyRead entr").concat(if one {
        "y"
    } else {
        "ies"
    }).concat(" to ").concat(path)
}

/// The assistant's settings file of a repository.
pub fn settings_local_path(repo_root: &str, host: &Assistant) -> (r: String)
    ensures
        r@ == paths::joined_path(
            paths::joined_path(repo_root@, host.dir@),
            "settings.local.json"@,
        ),
{
    paths::join(paths::join(repo_root, host.dir.as_str()).as_str(), "settings.local.json")
}

// ---------------------------------------------------------------------------
// Laws
// ---------------------------------------------------------------------------

proof fn lemma_rewritten_lookup(
    m: Seq<(Seq<char>, json::JsonView)>,
    key: Seq<char>,
    root: Seq<char>,
    entries: Seq<Seq<char>>,
    other: Seq<char>,
)
    ensures
        json::lookup(rewritten(m, key, root, entries), other) == (if other == key {
            let a = owned_array(json::lookup(m, key), root, entries);
            if a.len() == 0 {
                None
            } else {
                Some(json::JsonView::Array(a))
            }
        } else {
            json::lookup(m, other)
        }),
{
    let a = owned_array(json::lookup(m, key), root, entries);
    json::lemma_without_lookup(m, key, other);
    json::lemma_put_lookup(m, key, json::JsonView::Array(a), other);
}

/// Filtering what was filtered, and what is all mati's, gives the first part.
proof fn lemma_foreign_again(
    existing: Option<json::JsonView>,
    root: Seq<char>,
    entries: Seq<Seq<char>>,
)
    requires
        all_under(entries, root),
    ensures
        owned_array(existing, root, entries).filter(foreign(root)) == foreign_entries(
            existing,
            root,
        ),
{
    let f = foreign(root);
    let head = foreign_entries(existing, root);
    let tail = as_values(entries);
    Seq::filter_distributes_over_add(head, tail, f);
    lemma_filter_all_in(head, f);
    lemma_filter_all_out(tail, f);
    assert(head.filter(f) + tail.filter(f) =~= head);
}

proof fn lemma_filter_all_in(s: Seq<json::JsonView>, f: spec_fn(json::JsonView) -> bool)
    requires
        exists|e: Seq<json::JsonView>| s == e.filter(f) || s.len() == 0,
    ensures
        s.filter(f) == s,
{
    if s.len() == 0 {
        reveal(Seq::filter);
        assert(s.filter(f) =~= s);
    } else {
        let e = choose|e: Seq<json::JsonView>| s == e.filter(f) || s.len() == 0;
        lemma_filter_twice(e, f);
    }
}

proof fn lemma_filter_twice<A>(e: Seq<A>, f: spec_fn(A) -> bool)
    ensures
        e.filter(f).filter(f) == e.filter(f),
    decreases e.len(),
{
    if e.len() == 0 {
        reveal(Seq::filter);
        assert(e.filter(f) =~= e);
    } else {
        lemma_filter_twice(e.drop_last(), f);
        assert(e =~= e.drop_last().push(e.last()));
        e.drop_last().lemma_filter_push(e.last(), f);
        if f(e.last()) {
            e.drop_last().filter(f).lemma_filter_push(e.last(), f);
        }
    }
}

proof fn lemma_filter_all_out<A>(s: Seq<A>, f: spec_fn(A) -> bool)
    requires
        forall|i: int| 0 <= i < s.len() ==> !f(#[trigger] s[i]),
    ensures
        s.filter(f) == Seq::<A>::empty(),
    decreases s.len(),
{
    reveal(Seq::filter);
    if s.len() > 0 {
        lemma_filter_all_out(s.drop_last(), f);
    }
}

/// Rewriting an array that holds these entries already changes nothing.
proof fn lemma_rewritten_settled(
    m: Seq<(Seq<char>, json::JsonView)>,
    key: Seq<char>,
    root: Seq<char>,
    entries: Seq<Seq<char>>,
    existing: Option<json::JsonView>,
)
    requires
        all_under(entries, root),
        ({
            let a = owned_array(existing, root, entries);
            json::lookup(m, key) == (if a.len() == 0 {
                None
            } else {
                Some(json::JsonView::Array(a))
            })
        }),
    ensures
        rewritten(m, key, root, entries) == m,
{
    let a = owned_array(existing, root, entries);
    lemma_foreign_again(existing, root, entries);
    let b = owned_array(json::lookup(m, key), root, entries);
    if a.len() == 0 {
        assert(b =~= a);
        json::lemma_without_absent(m, key);
    } else {
        assert(b =~= a);
        json::lemma_put_same(m, key, json::JsonView::Array(a));
    }
}

proof fn lemma_both_settled(
    fs: json::JsonView,
    root: Seq<char>,
    write: Seq<Seq<char>>,
    read: Seq<Seq<char>>,
)
    requires
        all_under(write, root),
        all_under(read, root),
    ensures
        rewritten_both(rewritten_both(fs, root, write, read), root, write, read) == rewritten_both(
            fs,
            root,
            write,
            read,
        ),
{
    if let json::JsonView::Object(m) = fs {
        lemma_keys_differ();
        let m1 = rewritten(m, "denyWrite"@, root, write);
        let m2 = rewritten(m1, "denyRead"@, root, read);
        lemma_rewritten_lookup(m, "denyWrite"@, root, write, "denyWrite"@);
        lemma_rewritten_lookup(m1, "denyRead"@, root, read, "denyWrite"@);
        lemma_rewritten_lookup(m1, "denyRead"@, root, read, "denyRead"@);
        lemma_rewritten_settled(m2, "denyWrite"@, root, write, json::lookup(m, "denyWrite"@));
        lemma_rewritten_settled(m2, "denyRead"@, root, read, json::lookup(m1, "denyRead"@));
    }
}

proof fn lemma_keys_differ()
    ensures
        "denyWrite"@ != "denyRead"@,
{
    reveal_strlit("denyWrite");
    reveal_strlit("denyRead");
    assert("denyWrite"@.len() != "denyRead"@.len());
}

/// Writing the same rules a second time changes nothing, as long as every rule
/// lies under the repository root.
pub proof fn law_apply_is_idempotent(
    settings: json::JsonView,
    root: Seq<char>,
    write: Seq<Seq<char>>,
    read: Seq<Seq<char>>,
)
    requires
        all_under(write, root),
        all_under(read, root),
    ensures
        applied(applied(settings, root, write, read), root, write, read) == applied(
            settings,
            root,
            write,
            read,
        ),
{
    let top = json::members_of(settings);
    let sandbox = json::members_of(child(top, "sandbox"@));
    let fs = child(sandbox, "filesystem"@);
    let fs1 = rewritten_both(fs, root, write, read);
    let sb1 = json::JsonView::Object(json::put(sandbox, "filesystem"@, fs1));
    json::lemma_put_lookup(top, "sandbox"@, sb1, "sandbox"@);
    json::lemma_put_lookup(sandbox, "filesystem"@, fs1, "filesystem"@);
    lemma_both_settled(fs, root, write, read);
    json::lemma_put_put(sandbox, "filesystem"@, fs1, fs1);
    json::lemma_put_put(top, "sandbox"@, sb1, sb1);
}

/// Writing the rules leaves every other setting as it was, in the file, under
/// `sandbox` and under `sandbox.filesystem`.
pub proof fn law_apply_keeps_other_settings(
    settings: json::JsonView,
    root: Seq<char>,
    write: Seq<Seq<char>>,
    read: Seq<Seq<char>>,
    key: Seq<char>,
)
    requires
        shape_fault(settings) is None,
        settings is Object,
    ensures
        key != "sandbox"@ ==> json::member(applied(settings, root, write, read), key)
            == json::member(settings, key),
        key != "filesystem"@ ==> json::member2(
            applied(settings, root, write, read),
            "sandbox"@,
            key,
        ) == json::member2(settings, "sandbox"@, key),
        key != "denyWrite"@ && key != "denyRead"@ ==> json::member(
            json::member2(applied(settings, root, write, read), "sandbox"@, "filesystem"@)->0,
            key,
        ) == (match json::member2(settings, "sandbox"@, "filesystem"@) {
            Some(fs) => json::member(fs, key),
            None => None,
        }),
{
    let top = json::members_of(settings);
    let sandbox = json::members_of(child(top, "sandbox"@));
    let fs = child(sandbox, "filesystem"@);
    let fs1 = rewritten_both(fs, root, write, read);
    let sb1 = json::JsonView::Object(json::put(sandbox, "filesystem"@, fs1));
    json::lemma_put_lookup(top, "sandbox"@, sb1, key);
    json::lemma_put_lookup(top, "sandbox"@, sb1, "sandbox"@);
    json::lemma_put_lookup(sandbox, "filesystem"@, fs1, key);
    json::lemma_put_lookup(sandbox, "filesystem"@, fs1, "filesystem"@);
    assert(json::lookup(Seq::<(Seq<char>, json::JsonView)>::empty(), key) is None);
    assert(json::lookup(Seq::<(Seq<char>, json::JsonView)>::empty(), "filesystem"@) is None);
    let m = json::members_of(fs);
    let m1 = rewritten(m, "denyWrite"@, root, write);
    lemma_rewritten_lookup(m, "denyWrite"@, root, write, key);
    lemma_rewritten_lookup(m1, "denyRead"@, root, read, key);
}

/// After a write each array holds the user's entries in their order and behind
/// them exactly the new rules.
pub proof fn law_apply_keeps_user_entries(
    settings: json::JsonView,
    root: Seq<char>,
    write: Seq<Seq<char>>,
    read: Seq<Seq<char>>,
)
    requires
        shape_fault(settings) is None,
        settings is Object,
    ensures
        deny_array(applied(settings, root, write, read), "denyWrite"@) == deny_array(
            settings,
            "denyWrite"@,
        ).filter(foreign(root)) + as_values(write),
        deny_array(applied(settings, root, write, read), "denyRead"@) == deny_array(
            settings,
            "denyRead"@,
        ).filter(foreign(root)) + as_values(read),
{
    lemma_arrays_after(
        settings,
        applied(settings, root, write, read),
        root,
        write,
        read,
    );
}

/// The arrays of settings whose `sandbox.filesystem` was rewritten.
proof fn lemma_arrays_after(
    settings: json::JsonView,
    after: json::JsonView,
    root: Seq<char>,
    write: Seq<Seq<char>>,
    read: Seq<Seq<char>>,
)
    requires
        shape_fault(settings) is None,
        settings is Object,
        after == applied(settings, root, write, read),
    ensures
        deny_array(after, "denyWrite"@) == deny_array(settings, "denyWrite"@).filter(foreign(root))
            + as_values(write),
        deny_array(after, "denyRead"@) == deny_array(settings, "denyRead"@).filter(foreign(root))
            + as_values(read),
{
    lemma_keys_differ();
    let top = json::members_of(settings);
    let sandbox = json::members_of(child(top, "sandbox"@));
    let fs = child(sandbox, "filesystem"@);
    let fs1 = rewritten_both(fs, root, write, read);
    let sb1 = json::JsonView::Object(json::put(sandbox, "filesystem"@, fs1));
    json::lemma_put_lookup(top, "sandbox"@, sb1, "sandbox"@);
    json::lemma_put_lookup(sandbox, "filesystem"@, fs1, "filesystem"@);
    let none = Seq::<(Seq<char>, json::JsonView)>::empty();
    assert(json::lookup(none, "filesystem"@) is None);
    assert(json::lookup(none, "denyWrite"@) is None);
    assert(json::lookup(none, "denyRead"@) is None);
    let m = json::members_of(fs);
    let m1 = rewritten(m, "denyWrite"@, root, write);
    lemma_rewritten_lookup(m, "denyWrite"@, root, write, "denyWrite"@);
    lemma_rewritten_lookup(m, "denyWrite"@, root, write, "denyRead"@);
    lemma_rewritten_lookup(m1, "denyRead"@, root, read, "denyWrite"@);
    lemma_rewritten_lookup(m1, "denyRead"@, root, read, "denyRead"@);
    let empty = Seq::<json::JsonView>::empty();
    assert(empty.filter(foreign(root)) =~= empty) by {
        reveal(Seq::filter);
    }
    assert(deny_array(after, "denyWrite"@) =~= deny_array(settings, "denyWrite"@).filter(
        foreign(root),
    ) + as_values(write));
    assert(deny_array(after, "denyRead"@) =~= deny_array(settings, "denyRead"@).filter(
        foreign(root),
    ) + as_values(read));
}

/// After a write no protection is left over: what the rules do not name is gone.
pub proof fn law_no_drift_after_apply(
    settings: json::JsonView,
    root: Seq<char>,
    write: Seq<Seq<char>>,
    read: Seq<Seq<char>>,
)
    requires
        shape_fault(settings) is None,
        settings is Object,
    ensures
        drift(applied(settings, root, write, read), root, write, read) =~= Set::empty(),
{
    let after = applied(settings, root, write, read);
    law_apply_keeps_user_entries(settings, root, write, read);
    lemma_only_entries(deny_array(settings, "denyWrite"@), root, write);
    lemma_only_entries(deny_array(settings, "denyRead"@), root, read);
}

proof fn lemma_only_entries(a: Seq<json::JsonView>, root: Seq<char>, entries: Seq<Seq<char>>)
    ensures
        forall|e: Seq<char>|
            !#[trigger] dropped(a.filter(foreign(root)) + as_values(entries), root, entries, e),
{
    let f = foreign(root);
    let whole = a.filter(f) + as_values(entries);
    assert forall|e: Seq<char>| !#[trigger] dropped(whole, root, entries, e) by {
        if whole.contains(json::JsonView::Str(e)) && paths::is_under(e, root) {
            let k = choose|k: int| 0 <= k < whole.len() && whole[k] == json::JsonView::Str(e);
            if k < a.filter(f).len() {
                a.lemma_filter_pred(f, k);
            } else {
                assert(entries[k - a.filter(f).len()] == e);
            }
        }
    }
}

/// Clearing takes every entry of mati away and keeps the user's.
pub proof fn law_clear_keeps_user_entries(settings: json::JsonView, root: Seq<char>)
    requires
        shape_fault(settings) is None,
        settings is Object,
    ensures
        deny_array(cleared(settings, root), "denyWrite"@) == deny_array(
            settings,
            "denyWrite"@,
        ).filter(foreign(root)),
        deny_array(cleared(settings, root), "denyRead"@) == deny_array(
            settings,
            "denyRead"@,
        ).filter(foreign(root)),
{
    let none = Seq::<Seq<char>>::empty();
    let nothing = Seq::<json::JsonView>::empty();
    assert(nothing.filter(foreign(root)) =~= nothing) by {
        reveal(Seq::filter);
    }
    if json::member2(settings, "sandbox"@, "filesystem"@) is Some {
        assert(cleared(settings, root) == applied(settings, root, none, none));
        lemma_arrays_after(settings, cleared(settings, root), root, none, none);
        assert(as_values(none) =~= nothing);
        assert(deny_array(settings, "denyWrite"@).filter(foreign(root)) + nothing =~= deny_array(
            settings,
            "denyWrite"@,
        ).filter(foreign(root)));
        assert(deny_array(settings, "denyRead"@).filter(foreign(root)) + nothing =~= deny_array(
            settings,
            "denyRead"@,
        ).filter(foreign(root)));
    }
}

/// Taking members away looks at them one after the other.
proof fn lemma_without_first(
    e: (Seq<char>, json::JsonView),
    rest: Seq<(Seq<char>, json::JsonView)>,
    key: Seq<char>,
)
    ensures
        json::without(seq![e] + rest, key) == (if e.0 == key {
            json::without(rest, key)
        } else {
            seq![e] + json::without(rest, key)
        }),
{
    let f = json::not_named(key);
    Seq::filter_distributes_over_add(seq![e], rest, f);
    lemma_filter_one(e, f);
    assert(Seq::<(Seq<char>, json::JsonView)>::empty() + rest.filter(f) =~= rest.filter(f));
}

/// So does setting one.
proof fn lemma_put_first(
    e: (Seq<char>, json::JsonView),
    rest: Seq<(Seq<char>, json::JsonView)>,
    key: Seq<char>,
    v: json::JsonView,
)
    ensures
        json::put(seq![e] + rest, key, v) == (if e.0 == key {
            seq![(key, v)] + rest
        } else {
            seq![e] + json::put(rest, key, v)
        }),
{
    assert((seq![e] + rest).skip(1) =~= rest);
    assert((seq![e] + rest)[0] == e);
}

/// Taking one member away and setting another can be done in either order.
proof fn lemma_without_put_other(
    m: Seq<(Seq<char>, json::JsonView)>,
    key: Seq<char>,
    other: Seq<char>,
    v: json::JsonView,
)
    requires
        key != other,
    ensures
        json::without(json::put(m, other, v), key) == json::put(json::without(m, key), other, v),
    decreases m.len(),
{
    let none = Seq::<(Seq<char>, json::JsonView)>::empty();
    assert(json::without(none, key) =~= none) by {
        reveal(Seq::filter);
    }
    if m.len() == 0 {
        assert(m =~= none);
        assert(json::put(m, other, v) =~= seq![(other, v)] + none);
        lemma_without_first((other, v), none, key);
        assert(seq![(other, v)] + none =~= seq![(other, v)]);
    } else {
        let rest = m.skip(1);
        assert(m =~= seq![m[0]] + rest);
        lemma_without_first(m[0], rest, key);
        lemma_put_first(m[0], rest, other, v);
        if m[0].0 == other {
            lemma_without_first((other, v), rest, key);
            lemma_put_first(m[0], json::without(rest, key), other, v);
        } else {
            lemma_without_put_other(rest, key, other, v);
            lemma_without_first(m[0], json::put(rest, other, v), key);
            if m[0].0 != key {
                lemma_put_first(m[0], json::without(rest, key), other, v);
            }
        }
    }
}

/// Setting a member that is there and another one can be done in either order.
proof fn lemma_put_put_other(
    m: Seq<(Seq<char>, json::JsonView)>,
    key: Seq<char>,
    b: json::JsonView,
    other: Seq<char>,
    a: json::JsonView,
)
    requires
        key != other,
        json::lookup(m, key) is Some,
    ensures
        json::put(json::put(m, other, a), key, b) == json::put(json::put(m, key, b), other, a),
    decreases m.len(),
{
    if m.len() > 0 {
        let rest = m.skip(1);
        assert(m =~= seq![m[0]] + rest);
        lemma_put_first(m[0], rest, other, a);
        lemma_put_first(m[0], rest, key, b);
        if m[0].0 == key {
            lemma_put_first(m[0], json::put(rest, other, a), key, b);
            lemma_put_first((key, b), rest, other, a);
        } else if m[0].0 == other {
            lemma_put_first((other, a), rest, key, b);
            lemma_put_first(m[0], json::put(rest, key, b), other, a);
        } else {
            lemma_put_put_other(rest, key, b, other, a);
            lemma_put_first(m[0], json::put(rest, other, a), key, b);
            lemma_put_first(m[0], json::put(rest, key, b), other, a);
        }
    }
}

/// Two members can be taken away in either order.
proof fn lemma_without_both(
    m: Seq<(Seq<char>, json::JsonView)>,
    key: Seq<char>,
    other: Seq<char>,
)
    ensures
        json::without(json::without(m, other), key) == json::without(
            json::without(m, key),
            other,
        ),
    decreases m.len(),
{
    let none = Seq::<(Seq<char>, json::JsonView)>::empty();
    assert(json::without(none, key) =~= none && json::without(none, other) =~= none) by {
        reveal(Seq::filter);
    }
    if m.len() == 0 {
        assert(m =~= none);
    } else {
        let rest = m.skip(1);
        assert(m =~= seq![m[0]] + rest);
        lemma_without_both(rest, key, other);
        lemma_without_first(m[0], rest, key);
        lemma_without_first(m[0], rest, other);
        lemma_without_first(m[0], json::without(rest, other), key);
        lemma_without_first(m[0], json::without(rest, key), other);
    }
}

/// Emptying an array of mati's entries forgets which of them were there.
proof fn lemma_emptied_again(
    m: Seq<(Seq<char>, json::JsonView)>,
    key: Seq<char>,
    root: Seq<char>,
    entries: Seq<Seq<char>>,
)
    requires
        all_under(entries, root),
    ensures
        rewritten(rewritten(m, key, root, entries), key, root, Seq::empty()) == rewritten(
            m,
            key,
            root,
            Seq::empty(),
        ),
{
    let existing = json::lookup(m, key);
    let a = owned_array(existing, root, entries);
    let m1 = rewritten(m, key, root, entries);
    lemma_rewritten_lookup(m, key, root, entries, key);
    lemma_foreign_again(existing, root, entries);
    assert(as_values(Seq::empty()) =~= Seq::<json::JsonView>::empty());
    let b = owned_array(existing, root, Seq::empty());
    assert(b =~= foreign_entries(existing, root));
    assert(owned_array(json::lookup(m1, key), root, Seq::empty()) =~= b);
    if a.len() == 0 {
        json::lemma_without_lookup(m, key, key);
        json::lemma_without_absent(json::without(m, key), key);
    } else {
        lemma_without_put(m, key, json::JsonView::Array(a));
        json::lemma_put_put(m, key, json::JsonView::Array(a), json::JsonView::Array(b));
    }
}

/// Emptying one array and rewriting another can be done in either order.
proof fn lemma_emptied_other(
    m: Seq<(Seq<char>, json::JsonView)>,
    key: Seq<char>,
    other: Seq<char>,
    root: Seq<char>,
    entries: Seq<Seq<char>>,
)
    requires
        key != other,
    ensures
        rewritten(rewritten(m, other, root, entries), key, root, Seq::empty()) == rewritten(
            rewritten(m, key, root, Seq::empty()),
            other,
            root,
            entries,
        ),
{
    let a = owned_array(json::lookup(m, other), root, entries);
    let b = owned_array(json::lookup(m, key), root, Seq::empty());
    assert(as_values(Seq::empty()) =~= Seq::<json::JsonView>::empty());
    lemma_rewritten_lookup(m, other, root, entries, key);
    lemma_rewritten_lookup(m, key, root, Seq::empty(), other);
    let av = json::JsonView::Array(a);
    let bv = json::JsonView::Array(b);
    if a.len() == 0 && b.len() == 0 {
        lemma_without_both(m, key, other);
    } else if a.len() == 0 {
        lemma_without_put_other(m, other, key, bv);
    } else if b.len() == 0 {
        lemma_without_put_other(m, key, other, av);
    } else {
        assert(json::lookup(m, key) is Some);
        lemma_put_put_other(m, key, bv, other, av);
    }
}

proof fn lemma_both_emptied(
    fs: json::JsonView,
    root: Seq<char>,
    write: Seq<Seq<char>>,
    read: Seq<Seq<char>>,
)
    requires
        all_under(write, root),
        all_under(read, root),
    ensures
        rewritten_both(rewritten_both(fs, root, write, read), root, Seq::empty(), Seq::empty())
            == rewritten_both(fs, root, Seq::empty(), Seq::empty()),
{
    if let json::JsonView::Object(m) = fs {
        lemma_keys_differ();
        let m1 = rewritten(m, "denyWrite"@, root, write);
        lemma_emptied_other(m1, "denyWrite"@, "denyRead"@, root, read);
        lemma_emptied_again(m, "denyWrite"@, root, write);
        lemma_emptied_again(
            rewritten(m, "denyWrite"@, root, Seq::empty()),
            "denyRead"@,
            root,
            read,
        );
    }
}

/// Clearing undoes a write: it leaves what clearing the settings before the write
/// leaves. The one trace is an empty `sandbox.filesystem` where there was none.
pub proof fn law_clear_undoes_apply(
    settings: json::JsonView,
    root: Seq<char>,
    write: Seq<Seq<char>>,
    read: Seq<Seq<char>>,
)
    requires
        shape_fault(settings) is None,
        settings is Object,
        all_under(write, root),
        all_under(read, root),
    ensures
        cleared(applied(settings, root, write, read), root) == (match json::member2(
            settings,
            "sandbox"@,
            "filesystem"@,
        ) {
            Some(_) => cleared(settings, root),
            None => json::JsonView::Object(
                json::put(
                    json::members_of(settings),
                    "sandbox"@,
                    json::JsonView::Object(
                        json::put(
                            json::members_of(child(json::members_of(settings), "sandbox"@)),
                            "filesystem"@,
                            json::JsonView::Object(Seq::empty()),
                        ),
                    ),
                ),
            ),
        }),
{
    let top = json::members_of(settings);
    let sandbox = json::members_of(child(top, "sandbox"@));
    let fs = child(sandbox, "filesystem"@);
    let none = Seq::<Seq<char>>::empty();
    let fs1 = rewritten_both(fs, root, write, read);
    let fs2 = rewritten_both(fs, root, none, none);
    let sb1 = json::JsonView::Object(json::put(sandbox, "filesystem"@, fs1));
    let sb2 = json::JsonView::Object(json::put(sandbox, "filesystem"@, fs2));
    json::lemma_put_lookup(top, "sandbox"@, sb1, "sandbox"@);
    json::lemma_put_lookup(sandbox, "filesystem"@, fs1, "filesystem"@);
    lemma_both_emptied(fs, root, write, read);
    json::lemma_put_put(sandbox, "filesystem"@, fs1, fs2);
    json::lemma_put_put(top, "sandbox"@, sb1, sb2);
    let bare = Seq::<(Seq<char>, json::JsonView)>::empty();
    assert(json::lookup(bare, "filesystem"@) is None);
    if json::member2(settings, "sandbox"@, "filesystem"@) is None {
        assert(fs == json::JsonView::Object(bare));
        assert(as_values(none) =~= Seq::<json::JsonView>::empty());
        json::lemma_without_absent(bare, "denyWrite"@);
        json::lemma_without_absent(bare, "denyRead"@);
        assert(fs2 == json::JsonView::Object(bare));
    }
}

/// Clearing leaves every other setting as it was, in the file, under `sandbox` and
/// under `sandbox.filesystem`.
pub proof fn law_clear_keeps_other_settings(
    settings: json::JsonView,
    root: Seq<char>,
    key: Seq<char>,
)
    requires
        shape_fault(settings) is None,
        settings is Object,
    ensures
        key != "sandbox"@ ==> json::member(cleared(settings, root), key) == json::member(
            settings,
            key,
        ),
        key != "filesystem"@ ==> json::member2(cleared(settings, root), "sandbox"@, key)
            == json::member2(settings, "sandbox"@, key),
        key != "denyWrite"@ && key != "denyRead"@ ==> (match json::member2(
            settings,
            "sandbox"@,
            "filesystem"@,
        ) {
            Some(fs) => {
                &&& json::member2(cleared(settings, root), "sandbox"@, "filesystem"@) is Some
                &&& json::member(
                    json::member2(cleared(settings, root), "sandbox"@, "filesystem"@)->0,
                    key,
                ) == json::member(fs, key)
            },
            None => json::member2(cleared(settings, root), "sandbox"@, "filesystem"@) is None,
        }),
{
    let none = Seq::<Seq<char>>::empty();
    if json::member2(settings, "sandbox"@, "filesystem"@) is Some {
        let top = json::members_of(settings);
        let sandbox = json::members_of(child(top, "sandbox"@));
        let fs1 = rewritten_both(child(sandbox, "filesystem"@), root, none, none);
        let sb1 = json::JsonView::Object(json::put(sandbox, "filesystem"@, fs1));
        json::lemma_put_lookup(top, "sandbox"@, sb1, "sandbox"@);
        json::lemma_put_lookup(sandbox, "filesystem"@, fs1, "filesystem"@);
        assert(cleared(settings, root) == applied(settings, root, none, none));
        law_apply_keeps_other_settings(settings, root, none, none, key);
    }
}

/// Adding tags a second time changes nothing.
pub proof fn law_add_tags_is_idempotent(tags: Seq<Seq<char>>, add: Seq<Seq<char>>)
    ensures
        with_tags(with_tags(tags, add), add) == with_tags(tags, add),
{
    lemma_with_tags_has(tags, add);
    lemma_with_present(with_tags(tags, add), add);
}

proof fn lemma_with_tags_has(tags: Seq<Seq<char>>, add: Seq<Seq<char>>)
    ensures
        forall|i: int| 0 <= i < add.len() ==> with_tags(tags, add).contains(#[trigger] add[i]),
        forall|t: Seq<char>| #[trigger] tags.contains(t) ==> with_tags(tags, add).contains(t),
    decreases add.len(),
{
    if add.len() > 0 {
        lemma_with_tags_has(tags, add.drop_last());
        let p = with_tags(tags, add.drop_last());
        let w = with_tags(tags, add);
        assert forall|t: Seq<char>| #[trigger] p.contains(t) implies w.contains(t) by {
            let k = choose|k: int| 0 <= k < p.len() && p[k] == t;
            assert(w[k] == t);
        }
        assert(w.contains(add.last())) by {
            if !p.contains(add.last()) {
                assert(w[p.len() as int] == add.last());
            }
        }
        assert forall|i: int| 0 <= i < add.len() implies w.contains(#[trigger] add[i]) by {
            if i < add.len() - 1 {
                assert(add.drop_last()[i] == add[i]);
            }
        }
    }
}

proof fn lemma_with_present(tags: Seq<Seq<char>>, add: Seq<Seq<char>>)
    requires
        forall|i: int| 0 <= i < add.len() ==> tags.contains(#[trigger] add[i]),
    ensures
        with_tags(tags, add) == tags,
    decreases add.len(),
{
    if add.len() > 0 {
        assert forall|i: int| 0 <= i < add.drop_last().len() implies tags.contains(
            #[trigger] add.drop_last()[i],
        ) by {
            assert(add.drop_last()[i] == add[i]);
        }
        lemma_with_present(tags, add.drop_last());
        assert(tags.contains(add[add.len() - 1]));
    }
}

/// Taking tags away undoes adding them, where none of them was there before.
pub proof fn law_remove_tags_undoes_add(tags: Seq<Seq<char>>, add: Seq<Seq<char>>)
    requires
        forall|i: int| 0 <= i < tags.len() ==> !add.contains(#[trigger] tags[i]),
    ensures
        without_tags(with_tags(tags, add), add) == tags,
{
    lemma_remove_undoes(tags, add, add);
}

proof fn lemma_remove_undoes(tags: Seq<Seq<char>>, add: Seq<Seq<char>>, rm: Seq<Seq<char>>)
    requires
        forall|i: int| 0 <= i < tags.len() ==> !rm.contains(#[trigger] tags[i]),
        forall|i: int| 0 <= i < add.len() ==> rm.contains(#[trigger] add[i]),
    ensures
        without_tags(with_tags(tags, add), rm) == tags,
    decreases add.len(),
{
    let f = none_of(rm);
    if add.len() == 0 {
        lemma_filter_keeps_all(tags, f);
    } else {
        assert forall|i: int| 0 <= i < add.drop_last().len() implies rm.contains(
            #[trigger] add.drop_last()[i],
        ) by {
            assert(add.drop_last()[i] == add[i]);
        }
        lemma_remove_undoes(tags, add.drop_last(), rm);
        let p = with_tags(tags, add.drop_last());
        p.lemma_filter_push(add.last(), f);
        assert(rm.contains(add[add.len() - 1]));
    }
}

proof fn lemma_filter_keeps_all<A>(s: Seq<A>, f: spec_fn(A) -> bool)
    requires
        forall|i: int| 0 <= i < s.len() ==> f(#[trigger] s[i]),
    ensures
        s.filter(f) == s,
    decreases s.len(),
{
    reveal(Seq::filter);
    if s.len() > 0 {
        lemma_filter_keeps_all(s.drop_last(), f);
        assert(s =~= s.drop_last().push(s.last()));
    }
}

/// Unprotecting takes both tags away, whatever was asked of reads, and leaves every
/// other tag in its place.
pub proof fn law_unprotecting_removes_both_tags(tags: Seq<Seq<char>>, read: bool)
    ensures
        !retagged(tags, false, read).contains("crown-jewel"@),
        !retagged(tags, false, read).contains("sandbox-deny-read"@),
        retagged(tags, false, read) == tags.filter(
            |t: Seq<char>| t != "crown-jewel"@ && t != "sandbox-deny-read"@,
        ),
{
    let rm = seq![TAG_DENY_WRITE@, TAG_DENY_READ@];
    let f = none_of(rm);
    let g = |t: Seq<char>| t != "crown-jewel"@ && t != "sandbox-deny-read"@;
    assert forall|t: Seq<char>| #[trigger] f(t) == g(t) by {
        assert(rm[0] == "crown-jewel"@ && rm[1] == "sandbox-deny-read"@);
        if rm.contains(t) {
            let k = choose|k: int| 0 <= k < rm.len() && rm[k] == t;
        }
    }
    assert(f =~= g);
    let r = retagged(tags, false, read);
    if r.contains("crown-jewel"@) {
        let k = choose|k: int| 0 <= k < r.len() && r[k] == "crown-jewel"@;
        tags.lemma_filter_pred(f, k);
        assert(rm[0] == "crown-jewel"@);
    }
    if r.contains("sandbox-deny-read"@) {
        let k = choose|k: int| 0 <= k < r.len() && r[k] == "sandbox-deny-read"@;
        tags.lemma_filter_pred(f, k);
        assert(rm[1] == "sandbox-deny-read"@);
    }
}

/// Protecting adds the tag that denies writes, and the one that denies reads where
/// that was asked for. Every tag that was there keeps its place, and no other tag
/// is added.
pub proof fn law_protecting_adds_the_tags(tags: Seq<Seq<char>>, read: bool)
    ensures
        retagged(tags, true, read).contains("crown-jewel"@),
        read ==> retagged(tags, true, read).contains("sandbox-deny-read"@),
        tags.is_prefix_of(retagged(tags, true, read)),
        forall|t: Seq<char>| #[trigger]
            retagged(tags, true, read).contains(t) ==> tags.contains(t) || t == "crown-jewel"@ || (
            read && t == "sandbox-deny-read"@),
{
    let add = if read {
        seq![TAG_DENY_WRITE@, TAG_DENY_READ@]
    } else {
        seq![TAG_DENY_WRITE@]
    };
    lemma_with_tags_has(tags, add);
    lemma_with_tags_only(tags, add);
    assert(add[0] == "crown-jewel"@);
    if read {
        assert(add[1] == "sandbox-deny-read"@);
    }
    assert forall|t: Seq<char>| #[trigger] retagged(tags, true, read).contains(t) implies
        tags.contains(t) || t == "crown-jewel"@ || (read && t == "sandbox-deny-read"@) by {
        if !tags.contains(t) {
            assert(add.contains(t));
            let k = choose|k: int| 0 <= k < add.len() && add[k] == t;
        }
    }
}

proof fn lemma_with_tags_only(tags: Seq<Seq<char>>, add: Seq<Seq<char>>)
    ensures
        tags.is_prefix_of(with_tags(tags, add)),
        forall|t: Seq<char>| #[trigger]
            with_tags(tags, add).contains(t) ==> tags.contains(t) || add.contains(t),
    decreases add.len(),
{
    if add.len() > 0 {
        let rest = add.drop_last();
        lemma_with_tags_only(tags, rest);
        let p = with_tags(tags, rest);
        let w = with_tags(tags, add);
        assert(w.subrange(0, tags.len() as int) =~= p.subrange(0, tags.len() as int));
        assert forall|t: Seq<char>| #[trigger] w.contains(t) implies tags.contains(t)
            || add.contains(t) by {
            let k = choose|k: int| 0 <= k < w.len() && w[k] == t;
            if k < p.len() {
                assert(p.contains(t));
                if rest.contains(t) {
                    let j = choose|j: int| 0 <= j < rest.len() && rest[j] == t;
                    assert(add[j] == t);
                }
            } else {
                assert(add[add.len() - 1] == t);
            }
        }
    }
}

/// Unprotecting undoes protecting, whatever was asked of reads either time: a file
/// that held neither tag has its tags back.
pub proof fn law_unprotecting_undoes_protecting(tags: Seq<Seq<char>>, read1: bool, read2: bool)
    requires
        !tags.contains("crown-jewel"@),
        !tags.contains("sandbox-deny-read"@),
    ensures
        retagged(retagged(tags, true, read1), false, read2) == tags,
{
    let rm = seq![TAG_DENY_WRITE@, TAG_DENY_READ@];
    let add = if read1 {
        rm
    } else {
        seq![TAG_DENY_WRITE@]
    };
    assert forall|i: int| 0 <= i < tags.len() implies !rm.contains(#[trigger] tags[i]) by {
        if rm.contains(tags[i]) {
            let k = choose|k: int| 0 <= k < rm.len() && rm[k] == tags[i];
            assert(tags.contains(rm[k]));
        }
    }
    assert forall|i: int| 0 <= i < add.len() implies rm.contains(#[trigger] add[i]) by {
        assert(add[i] == rm[i]);
    }
    lemma_remove_undoes(tags, add, rm);
}

/// Only active, confirmed gotchas that hold the tag put files under a rule: of such
/// a gotcha each file that has a repo-relative form, of any other none.
pub proof fn law_only_tagged_confirmed_gotchas_protect(g: GotchaSel, path: Seq<char>)
    ensures
        covered(seq![g], "crown-jewel"@).contains(path) ==> g.active && g.confirmed && text::texts(
            g.tags@,
        ).contains("crown-jewel"@) && path.len() > 0,
        g.active && g.confirmed && text::texts(g.tags@).contains("crown-jewel"@)
            ==> forall|i: int|
            0 <= i < g.files@.len() && rel_form(#[trigger] g.files@[i]@).len() > 0 ==> covered(
                seq![g],
                TAG_DENY_WRITE@,
            ).contains(rel_form(g.files@[i]@)),
        g.active && g.confirmed && text::texts(g.tags@).contains("sandbox-deny-read"@)
            ==> forall|i: int|
            0 <= i < g.files@.len() && rel_form(#[trigger] g.files@[i]@).len() > 0 ==> covered(
                seq![g],
                TAG_DENY_READ@,
            ).contains(rel_form(g.files@[i]@)),
        covered(seq![g], TAG_DENY_WRITE@).contains(path) || covered(
            seq![g],
            TAG_DENY_READ@,
        ).contains(path) ==> g.active && g.confirmed && exists|i: int|
            0 <= i < g.files@.len() && rel_form(#[trigger] g.files@[i]@) == path,
        covered(seq![g], TAG_DENY_WRITE@).contains(path) ==> text::texts(g.tags@).contains(
            "crown-jewel"@,
        ),
        covered(seq![g], TAG_DENY_READ@).contains(path) ==> text::texts(g.tags@).contains(
            "sandbox-deny-read"@,
        ),
{
    let one = seq![g];
    assert(one[0] == g);
    if g.active && g.confirmed && text::texts(g.tags@).contains("crown-jewel"@) {
        assert forall|i: int|
            0 <= i < g.files@.len() && rel_form(#[trigger] g.files@[i]@).len() > 0 implies covered(
            one,
            TAG_DENY_WRITE@,
        ).contains(rel_form(g.files@[i]@)) by {
            assert(covers(one[0], TAG_DENY_WRITE@, rel_form(g.files@[i]@)));
        }
    }
    if g.active && g.confirmed && text::texts(g.tags@).contains("sandbox-deny-read"@) {
        assert forall|i: int|
            0 <= i < g.files@.len() && rel_form(#[trigger] g.files@[i]@).len() > 0 implies covered(
            one,
            TAG_DENY_READ@,
        ).contains(rel_form(g.files@[i]@)) by {
            assert(covers(one[0], TAG_DENY_READ@, rel_form(g.files@[i]@)));
        }
    }
}

/// A file is under a rule exactly where one of the gotchas puts it there.
pub proof fn law_rules_are_those_of_the_gotchas(
    a: Seq<GotchaSel>,
    b: Seq<GotchaSel>,
    tag: Seq<char>,
)
    ensures
        covered(a + b, tag) =~= covered(a, tag).union(covered(b, tag)),
        covered(Seq::empty(), tag) =~= Set::<Seq<char>>::empty(),
        forall|i: int|
            0 <= i < a.len() ==> covered(seq![#[trigger] a[i]], tag).subset_of(covered(a, tag)),
{
    let c = a + b;
    assert forall|p: Seq<char>| #[trigger] covered(c, tag).contains(p) implies covered(
        a,
        tag,
    ).contains(p) || covered(b, tag).contains(p) by {
        let i = choose|i: int| 0 <= i < c.len() && covers(#[trigger] c[i], tag, p);
        if i < a.len() {
            assert(covers(a[i], tag, p));
        } else {
            assert(covers(b[i - a.len()], tag, p));
        }
    }
    assert forall|p: Seq<char>|
        covered(a, tag).contains(p) || covered(b, tag).contains(p) implies #[trigger] covered(
        c,
        tag,
    ).contains(p) by {
        if covered(a, tag).contains(p) {
            let i = choose|i: int| 0 <= i < a.len() && covers(#[trigger] a[i], tag, p);
            assert(covers(c[i], tag, p));
        } else {
            let i = choose|i: int| 0 <= i < b.len() && covers(#[trigger] b[i], tag, p);
            assert(covers(c[i + a.len()], tag, p));
        }
    }
    assert forall|i: int| 0 <= i < a.len() implies covered(seq![#[trigger] a[i]], tag).subset_of(
        covered(a, tag),
    ) by {
        let one = seq![a[i]];
        assert forall|p: Seq<char>| #[trigger] covered(one, tag).contains(p) implies covered(
            a,
            tag,
        ).contains(p) by {
            let k = choose|k: int| 0 <= k < one.len() && covers(#[trigger] one[k], tag, p);
            assert(covers(a[i], tag, p));
        }
    }
}

/// A lead of `./` or `/` does not matter, a backslash counts as a slash, and a path
/// without any of these is its own form.
pub proof fn law_relative_form_ignores_the_lead(p: Seq<char>)
    ensures
        rel_form(seq!['.', '/'] + p) == rel_form(p),
        rel_form(seq!['/'] + p) == rel_form(p),
        rel_form(text::replaced(p, '\\', "/"@)) == rel_form(p),
        !p.contains('\\') && !(p.len() > 0 && p[0] == '/') && !(p.len() >= 2 && p[0] == '.' && p[1]
            == '/') ==> rel_form(p) == p,
{
    reveal_strlit("/");
    let to = "/"@;
    assert(to =~= seq!['/']);
    let q = text::replaced(p, '\\', to);
    lemma_replaced_first('/', p, '\\', to);
    lemma_replaced_first('.', seq!['/'] + p, '\\', to);
    assert(seq!['.', '/'] + p =~= seq!['.'] + (seq!['/'] + p));
    assert((seq!['/'] + q).skip(1) =~= q);
    let d = seq!['.'] + (seq!['/'] + q);
    assert(d.skip(2) =~= q);
    assert(d[0] == '.' && d[1] == '/');
    text::lemma_replaced_away(p, '\\', to);
    lemma_nothing_to_replace(q, '\\', to);
    if !p.contains('\\') {
        lemma_nothing_to_replace(p, '\\', to);
    }
}

proof fn lemma_replaced_first(c: char, rest: Seq<char>, from: char, to: Seq<char>)
    requires
        c != from,
    ensures
        text::replaced(seq![c] + rest, from, to) == seq![c] + text::replaced(rest, from, to),
    decreases rest.len(),
{
    let s = seq![c] + rest;
    if rest.len() == 0 {
        assert(s =~= seq![c]);
        assert(s.drop_last() =~= Seq::<char>::empty());
        assert(text::replaced(Seq::<char>::empty(), from, to) =~= Seq::<char>::empty());
        assert(s.skip(1) =~= Seq::<char>::empty());
        assert(text::replaced(rest, from, to) =~= Seq::<char>::empty());
        assert(text::replaced(s, from, to) =~= seq![c]);
    } else {
        assert(s.drop_last() =~= seq![c] + rest.drop_last());
        assert(s.last() == rest.last());
        assert(s.skip(1) =~= rest);
        lemma_replaced_first(c, rest.drop_last(), from, to);
        assert(text::replaced(s, from, to) =~= seq![c] + text::replaced(rest, from, to));
    }
}

proof fn lemma_nothing_to_replace(s: Seq<char>, from: char, to: Seq<char>)
    requires
        !s.contains(from),
    ensures
        text::replaced(s, from, to) == s,
    decreases s.len(),
{
    if s.len() > 0 {
        assert(s.contains(s.last()));
        assert(s.contains(s[0]));
        assert forall|i: int| 0 <= i < s.len() - 1 implies s.drop_last()[i] != from by {
            assert(s.contains(s[i]));
        }
        assert forall|i: int| 0 <= i < s.len() - 1 implies s.skip(1)[i] != from by {
            assert(s.contains(s[i + 1]));
        }
        lemma_nothing_to_replace(s.drop_last(), from, to);
        lemma_nothing_to_replace(s.skip(1), from, to);
        assert(text::replaced(s, from, to) =~= s);
    } else {
        assert(text::replaced(s, from, to) =~= s);
    }
}

/// The drift is what a write takes away: an entry belongs to it exactly if it is in
/// one of the arrays before the write and no longer in the same one after it.
pub proof fn law_drift_is_what_a_write_takes_away(
    settings: json::JsonView,
    root: Seq<char>,
    write: Seq<Seq<char>>,
    read: Seq<Seq<char>>,
    e: Seq<char>,
)
    requires
        shape_fault(settings) is None,
        settings is Object,
    ensures
        ({
            let after = applied(settings, root, write, read);
            let s = json::JsonView::Str(e);
            drift(settings, root, write, read).contains(e) <==> {
                ||| deny_array(settings, "denyWrite"@).contains(s) && !deny_array(
                    after,
                    "denyWrite"@,
                ).contains(s)
                ||| deny_array(settings, "denyRead"@).contains(s) && !deny_array(
                    after,
                    "denyRead"@,
                ).contains(s)
            }
        }),
{
    law_apply_keeps_user_entries(settings, root, write, read);
    lemma_lost_is_dropped(deny_array(settings, "denyWrite"@), root, write, e);
    lemma_lost_is_dropped(deny_array(settings, "denyRead"@), root, read, e);
}

proof fn lemma_lost_is_dropped(
    a: Seq<json::JsonView>,
    root: Seq<char>,
    keep: Seq<Seq<char>>,
    e: Seq<char>,
)
    ensures
        dropped(a, root, keep, e) <==> a.contains(json::JsonView::Str(e)) && !(a.filter(
            foreign(root),
        ) + as_values(keep)).contains(json::JsonView::Str(e)),
{
    let s = json::JsonView::Str(e);
    let f = foreign(root);
    let kept = a.filter(f);
    let vals = as_values(keep);
    let after = kept + vals;
    if keep.contains(e) {
        let k = choose|k: int| 0 <= k < keep.len() && keep[k] == e;
        assert(after[kept.len() + k] == s);
    }
    if a.contains(s) && !paths::is_under(e, root) {
        let k = choose|k: int| 0 <= k < a.len() && a[k] == s;
        a.lemma_filter_contains(f, k);
        let j = choose|j: int| 0 <= j < kept.len() && kept[j] == s;
        assert(after[j] == s);
    }
    if after.contains(s) {
        let j = choose|j: int| 0 <= j < after.len() && after[j] == s;
        if j < kept.len() {
            a.lemma_filter_pred(f, j);
        } else {
            assert(keep[j - kept.len()] == e);
        }
    }
}

/// A guarded write takes no protection away unless it is forced: every entry of
/// the arrays is still there. It is refused exactly where one would be lost, and
/// names what would be.
pub proof fn law_guarded_write_loses_nothing(
    existing: json::JsonView,
    root: Seq<char>,
    write: Seq<Seq<char>>,
    read: Seq<Seq<char>>,
    guarded: bool,
    force: bool,
    r: Materialized,
    e: Seq<char>,
)
    requires
        shape_fault(existing) is None,
        existing is Object,
        comes_to(existing, root, write, read, guarded, force, r),
    ensures
        r matches Materialized::Write { settings, .. } ==> {
            &&& guarded && !force && deny_array(existing, "denyWrite"@).contains(
                json::JsonView::Str(e),
            ) ==> deny_array(settings@, "denyWrite"@).contains(json::JsonView::Str(e))
            &&& guarded && !force && deny_array(existing, "denyRead"@).contains(
                json::JsonView::Str(e),
            ) ==> deny_array(settings@, "denyRead"@).contains(json::JsonView::Str(e))
            &&& write.contains(e) ==> deny_array(settings@, "denyWrite"@).contains(
                json::JsonView::Str(e),
            )
            &&& read.contains(e) ==> deny_array(settings@, "denyRead"@).contains(
                json::JsonView::Str(e),
            )
        },
        r matches Materialized::Refused(lost) ==> {
            &&& guarded && !force
            &&& lost@.len() > 0
            &&& lost@.contains(e) ==> deny_array(existing, "denyWrite"@).contains(
                json::JsonView::Str(e),
            ) || deny_array(existing, "denyRead"@).contains(json::JsonView::Str(e))
        },
        !guarded || force ==> r is Write,
{
    law_drift_is_what_a_write_takes_away(existing, root, write, read, e);
    let lost = drift(existing, root, write, read);
    match r {
        Materialized::Write { settings, .. } => {
            law_apply_keeps_user_entries(existing, root, write, read);
            if write.contains(e) {
                let a = deny_array(existing, "denyWrite"@).filter(foreign(root));
                let k = choose|k: int| 0 <= k < write.len() && write[k] == e;
                assert((a + as_values(write))[a.len() + k] == json::JsonView::Str(e));
            }
            if read.contains(e) {
                let a = deny_array(existing, "denyRead"@).filter(foreign(root));
                let k = choose|k: int| 0 <= k < read.len() && read[k] == e;
                assert((a + as_values(read))[a.len() + k] == json::JsonView::Str(e));
            }
            if guarded && !force {
                assert(!lost.contains(e));
            }
        },
        Materialized::Refused(l) => {
            if l@.contains(e) {
                assert(l@.to_set().contains(e));
                assert(lost.contains(e));
            }
        },
    }
}

/// A write and a compile agree on which gotchas protect a file: those that are
/// retagged are exactly the active, confirmed ones that name it, in order.
pub proof fn law_retagged_gotchas_name_the_file(gs: Seq<SandboxGotcha>, file: Seq<char>, n: int)
    requires
        0 <= n <= gs.len(),
    ensures
        forall|k: int|
            #[trigger] protecting(gs, file, n).contains(k) <==> 0 <= k < n && gs[k].active
                && gs[k].confirmed && exists|i: int|
                0 <= i < gs[k].files@.len() && rel_form(#[trigger] gs[k].files@[i]@) == file,
        forall|a: int, b: int|
            0 <= a < b < protecting(gs, file, n).len() ==> #[trigger] protecting(gs, file, n)[a]
                < #[trigger] protecting(gs, file, n)[b],
    decreases n,
{
    if n > 0 {
        law_retagged_gotchas_name_the_file(gs, file, n - 1);
        let before = protecting(gs, file, n - 1);
        let all = protecting(gs, file, n);
        assert forall|k: int|
            #[trigger] all.contains(k) <==> 0 <= k < n && gs[k].active && gs[k].confirmed && exists|
                i: int,
            |
                0 <= i < gs[k].files@.len() && rel_form(#[trigger] gs[k].files@[i]@) == file by {
            if all.contains(k) {
                let j = choose|j: int| 0 <= j < all.len() && all[j] == k;
                if j < before.len() {
                    assert(before[j] == k);
                    assert(before.contains(k));
                }
            }
            if before.contains(k) {
                let j = choose|j: int| 0 <= j < before.len() && before[j] == k;
                assert(all[j] == k);
            }
            if k == n - 1 && protects(gs[k], file) {
                assert(all[before.len() as int] == k);
            }
        }
        assert forall|a: int, b: int| 0 <= a < b < all.len() implies #[trigger] all[a]
            < #[trigger] all[b] by {
            if b < before.len() {
                assert(before[a] < before[b]);
            } else {
                assert(before.contains(before[a]));
            }
        }
    }
}

/// A gotcha is broad exactly where it names a file besides the one in question.
pub proof fn law_broad_gotcha_names_another_file(g: SandboxGotcha, file: Seq<char>)
    ensures
        is_broad(g, file) <==> exists|i: int|
            0 <= i < g.files@.len() && rel_form(#[trigger] g.files@[i]@) != file,
        !other_files(file, text::texts(g.files@)).contains(file),
{
    let fs = text::texts(g.files@);
    let forms = rel_forms(fs);
    let p = other_than(file);
    let others = other_files(file, fs);
    assert(others == forms.filter(p));
    if is_broad(g, file) {
        forms.lemma_filter_pred(p, 0);
        assert(others.contains(others[0]));
        forms.lemma_filter_contains_rev(p, others[0]);
        let i = choose|i: int| 0 <= i < forms.len() && forms[i] == others[0];
        assert(rel_form(g.files@[i]@) != file);
    }
    if exists|i: int| 0 <= i < g.files@.len() && rel_form(#[trigger] g.files@[i]@) != file {
        let i = choose|i: int|
            0 <= i < g.files@.len() && rel_form(#[trigger] g.files@[i]@) != file;
        assert(forms[i] == rel_form(g.files@[i]@));
        forms.lemma_filter_contains(p, i);
    }
    if others.contains(file) {
        let k = choose|k: int| 0 <= k < others.len() && others[k] == file;
        forms.lemma_filter_pred(p, k);
    }
}

/// An active gotcha that holds one of the tags is warned of exactly where it
/// protects nothing because it is not confirmed or names no file; no other gotcha
/// is warned of. The warning names the gotcha.
pub proof fn law_useless_tags_are_warned_of(g: SandboxGotcha)
    ensures
        warning_of(g) is Some <==> {
            &&& g.active
            &&& text::texts(g.tags@).contains("crown-jewel"@) || text::texts(g.tags@).contains(
                "sandbox-deny-read"@,
            )
            &&& !g.confirmed || g.files@.len() == 0
        },
        warning_of(g) matches Some(w) ==> g.key@.is_prefix_of(w),
{
    if let Some(w) = warning_of(g) {
        assert(w.subrange(0, g.key@.len() as int) =~= g.key@);
    }
}

/// Settings are refused exactly where `sandbox` or `sandbox.filesystem` is there
/// and no object, or one of the two arrays is there and no array.
pub proof fn law_wrong_shapes_are_refused(settings: json::JsonView)
    ensures
        shape_fault(settings) is Some <==> {
            ||| json::member(settings, "sandbox"@) matches Some(sb) && !(sb is Object)
            ||| json::member2(settings, "sandbox"@, "filesystem"@) matches Some(fs) && !(fs
                is Object)
            ||| json::member2(settings, "sandbox"@, "filesystem"@) matches Some(fs) && (
            json::member(fs, "denyRead"@) matches Some(a) && !(a is Array))
            ||| json::member2(settings, "sandbox"@, "filesystem"@) matches Some(fs) && (
            json::member(fs, "denyWrite"@) matches Some(a) && !(a is Array))
        },
{
}

/// The rules keep to the repository: a path that resolves outside is never denied,
/// and it is told instead.
pub proof fn law_rules_keep_to_the_repository(ps: Seq<Resolved>, root: Seq<char>, i: int)
    requires
        0 <= i < ps.len(),
    ensures
        forall|a: Seq<char>| #[trigger]
            inside_paths(ps, root).contains(a) ==> paths::is_under(a, root),
        ps[i].absolute matches Some(a) && paths::is_under(a@, root) ==> inside_paths(
            ps,
            root,
        ).contains(ps[i].absolute->0@),
        !(ps[i].absolute matches Some(a) && paths::is_under(a@, root)) ==> outside_paths(
            ps,
            root,
        ).contains(ps[i].rel@),
        forall|p: Seq<char>| #[trigger]
            outside_paths(ps, root).contains(p) ==> exists|j: int|
                0 <= j < ps.len() && (#[trigger] ps[j]).rel@ == p && !(ps[j].absolute matches Some(
                    a,
                ) && paths::is_under(a@, root)),
{
    if inside(ps[i], root) {
        assert(inside(ps[i], root) && ps[i].absolute->0@ == ps[i].absolute->0@);
    } else {
        assert(!inside(ps[i], root) && ps[i].rel@ == ps[i].rel@);
    }
}

/// The preview shows every path that would be denied, under what is denied of it, and
/// says so where there is none.
pub proof fn law_preview_shows_every_path(
    write: Seq<Seq<char>>,
    read: Seq<Seq<char>>,
    path: Seq<char>,
    product: Seq<char>,
    i: int,
)
    ensures
        0 <= i < write.len() ==> preview_lines(write, read, path, product).contains(
            "    "@ + write[i],
        ),
        0 <= i < read.len() ==> preview_lines(write, read, path, product).contains(
            "    "@ + read[i],
        ),
        write.len() == 0 && read.len() == 0 <==> preview_lines(write, read, path, product)[0]
            == "No crown-jewel gotchas resolve to in-repo files."@,
{
    let all = preview_lines(write, read, path, product);
    reveal_strlit("No crown-jewel gotchas resolve to in-repo files.");
    reveal_strlit("Sandbox floor preview \u{2014} nothing written. `--apply` writes to ");
    if write.len() > 0 || read.len() > 0 {
        let head = seq![
            "Sandbox floor preview \u{2014} nothing written. `--apply` writes to "@ + path + "."@,
            ""@,
        ];
        let w = section("  denyWrite (shell / subprocess cannot modify):"@, write);
        let r = section("  denyRead (shell / subprocess cannot read):"@, read);
        let tail = hint_lines(product);
        assert(all == head + w + r + tail);
        assert(all[0] == head[0]);
        assert(all[0][0] == 'S');
        assert("No crown-jewel gotchas resolve to in-repo files."@[0] == 'N');
        if 0 <= i < write.len() {
            let x = "    "@ + write[i];
            assert(w[1 + i] == x);
            text::lemma_line_of_either(head, w, x);
            text::lemma_line_of_either(head + w, r, x);
            text::lemma_line_of_either(head + w + r, tail, x);
        }
        if 0 <= i < read.len() {
            let x = "    "@ + read[i];
            assert(r[1 + i] == x);
            text::lemma_line_of_either(head + w, r, x);
            text::lemma_line_of_either(head + w + r, tail, x);
        }
    }
}

} // verus!
