//! Consult-required globs: the patterns an organisation hands over, compiled
//! with `globset`.
use vstd::prelude::*;
use globset::{Glob, GlobSet, GlobSetBuilder};
use crate::text;

verus! {

/// One compiled pattern of `globset`.
#[verifier::external_type_specification]
#[verifier::external_body]
pub struct ExGlob(Glob);

/// The list of patterns that a set is built from.
#[verifier::external_type_specification]
#[verifier::external_body]
pub struct ExGlobSetBuilder(GlobSetBuilder);

/// A compiled set of patterns.
#[verifier::external_type_specification]
#[verifier::external_body]
pub struct ExGlobSet(GlobSet);

/// The text of a pattern.
pub uninterp spec fn glob_pattern(g: Glob) -> Seq<char>;

/// The patterns added to a builder, in order.
pub uninterp spec fn builder_patterns(b: GlobSetBuilder) -> Seq<Seq<char>>;

/// The patterns of a set, in order.
pub uninterp spec fn set_patterns(s: GlobSet) -> Seq<Seq<char>>;

/// Whether `globset` accepts a pattern.
pub uninterp spec fn glob_valid(pattern: Seq<char>) -> bool;

/// Whether the patterns of a set compile together: the regular expressions made
/// from them stay under the size limit.
pub uninterp spec fn set_compiles(patterns: Seq<Seq<char>>) -> bool;

/// Whether a path matches one pattern.
pub uninterp spec fn glob_matches(pattern: Seq<char>, path: Seq<char>) -> bool;

/// The list of strings that a JSON text holds, if it is one.
pub uninterp spec fn string_list(raw: Seq<char>) -> Option<Seq<Seq<char>>>;

/// Whether a path matches one of the patterns.
pub open spec fn any_matches(patterns: Seq<Seq<char>>, path: Seq<char>) -> bool {
    exists|i: int| 0 <= i < patterns.len() && #[trigger] glob_matches(patterns[i], path)
}

/// The patterns that `globset` accepts.
pub open spec fn valid_globs(patterns: Seq<Seq<char>>) -> Seq<Seq<char>> {
    patterns.filter(|p: Seq<char>| glob_valid(p))
}

/// `serde_json::from_str` at `Vec<String>`: the list that the text denotes, or
/// nothing where the text is not a JSON array of strings.
#[verifier::external_body]
fn parse_string_list(raw: &str) -> (r: Option<Vec<String>>)
    ensures
        match r {
            Some(v) => string_list(raw@) == Some(text::texts(v@)),
            None => string_list(raw@) is None,
        },
{
    serde_json::from_str::<Vec<String>>(raw).ok()
}

/// `Glob::new`: compiles one pattern under the default options. The result keeps
/// the pattern; which patterns are refused is named, not restated.
#[verifier::external_body]
fn new_glob(pattern: &str) -> (r: Option<Glob>)
    ensures
        r is Some <==> glob_valid(pattern@),
        r matches Some(g) ==> glob_pattern(g) == pattern@,
{
    Glob::new(pattern).ok()
}

/// `GlobSetBuilder::new`: a builder without patterns.
#[verifier::external_body]
fn new_builder() -> (r: GlobSetBuilder)
    ensures
        builder_patterns(r) == Seq::<Seq<char>>::empty(),
{
    GlobSetBuilder::new()
}

/// `GlobSetBuilder::add`: puts the pattern behind those already there.
#[verifier::external_body]
fn add_glob(b: &mut GlobSetBuilder, g: Glob)
    ensures
        builder_patterns(*final(b)) == builder_patterns(*old(b)).push(glob_pattern(g)),
{
    b.add(g);
}

/// `GlobSetBuilder::build`: a set of the patterns added so far, unless they do
/// not compile together.
#[verifier::external_body]
fn build_set(b: &GlobSetBuilder) -> (r: Option<GlobSet>)
    ensures
        r is Some <==> set_compiles(builder_patterns(*b)),
        r matches Some(s) ==> set_patterns(s) == builder_patterns(*b),
{
    b.build().ok()
}

/// `GlobSet::is_empty`: whether the set has no pattern.
#[verifier::external_body]
fn set_is_empty(s: &GlobSet) -> (r: bool)
    ensures
        r == (set_patterns(*s).len() == 0),
{
    s.is_empty()
}

/// `GlobSet::is_match`: whether any pattern of the set matches the path.
#[verifier::external_body]
pub(crate) fn set_matches(s: &GlobSet, path: &str) -> (r: bool)
    ensures
        r == (exists|i: int|
            0 <= i < set_patterns(*s).len() && #[trigger] glob_matches(set_patterns(*s)[i], path@)),
{
    s.is_match(path)
}

/// The patterns of the set made from a list of globs: invalid ones are left out,
/// and there is no set where none is left or they do not compile together.
pub open spec fn compiled(globs: Seq<Seq<char>>) -> Option<Seq<Seq<char>>> {
    let valid = valid_globs(globs);
    if valid.len() > 0 && set_compiles(valid) {
        Some(valid)
    } else {
        None
    }
}

/// The patterns of an optional set.
pub open spec fn opt_patterns(s: Option<GlobSet>) -> Option<Seq<Seq<char>>> {
    match s {
        Some(g) => Some(set_patterns(g)),
        None => None,
    }
}

/// Compiles a list of globs into a set.
pub fn compile_globs(globs: &Vec<String>) -> (r: Option<GlobSet>)
    ensures
        opt_patterns(r) == compiled(text::texts(globs@)),
{
    let ghost all = text::texts(globs@);
    let mut b = new_builder();
    let mut i: usize = 0;
    assert(all.take(0) =~= Seq::<Seq<char>>::empty());
    assert(valid_globs(all.take(0)) =~= Seq::<Seq<char>>::empty()) by {
        reveal(Seq::filter);
    }
    while i < globs.len()
        invariant
            i <= globs.len(),
            all == text::texts(globs@),
            builder_patterns(b) == valid_globs(all.take(i as int)),
        decreases globs.len() - i,
    {
        proof {
            assert(all.take(i + 1) =~= all.take(i as int).push(all[i as int]));
            all.take(i as int).lemma_filter_push(all[i as int], |p: Seq<char>| glob_valid(p));
        }
        if let Some(g) = new_glob(globs[i].as_str()) {
            add_glob(&mut b, g);
        }
        i = i + 1;
    }
    assert(all.take(i as int) =~= all);
    match build_set(&b) {
        Some(s) => if set_is_empty(&s) {
            None
        } else {
            Some(s)
        },
        None => None,
    }
}

/// The set of globs that a JSON array of strings names; nothing where the text
/// is no such array, the array is empty, or no usable pattern is left.
pub fn consult_globset_from(raw: &str) -> (r: Option<GlobSet>)
    ensures
        opt_patterns(r) == (match string_list(raw@) {
            Some(globs) => compiled(globs),
            None => None,
        }),
{
    match parse_string_list(raw) {
        Some(globs) => {
            if globs.is_empty() {
                assert(valid_globs(text::texts(globs@)).len() == 0) by {
                    reveal(Seq::filter);
                }
                return None;
            }
            compile_globs(&globs)
        },
        None => None,
    }
}

/// A path needs consulting exactly where one of the valid patterns matches it; a
/// pattern that is not valid counts for nothing, and without a valid one there is
/// nothing to hold paths against.
pub proof fn law_valid_patterns_decide(globs: Seq<Seq<char>>, path: Seq<char>)
    ensures
        compiled(globs) matches Some(p) ==> (any_matches(p, path) <==> exists|i: int|
            0 <= i < globs.len() && glob_valid(globs[i]) && #[trigger] glob_matches(
                globs[i],
                path,
            )),
        compiled(globs) is Some ==> exists|i: int|
            0 <= i < globs.len() && #[trigger] glob_valid(globs[i]),
        (forall|i: int| 0 <= i < globs.len() ==> !#[trigger] glob_valid(globs[i])) ==> compiled(
            globs,
        ) is None,
{
    let f = |p: Seq<char>| glob_valid(p);
    let v = globs.filter(f);
    assert(v == valid_globs(globs));
    assert forall|j: int| #![trigger v[j]] 0 <= j < v.len() implies exists|i: int|
        0 <= i < globs.len() && #[trigger] globs[i] == v[j] && glob_valid(globs[i]) by {
        globs.lemma_filter_pred(f, j);
        globs.lemma_filter_contains_rev(f, v[j]);
        let i = choose|i: int| 0 <= i < globs.len() && globs[i] == v[j];
        assert(globs[i] == v[j]);
    }
    if v.len() > 0 {
        let i = choose|i: int|
            0 <= i < globs.len() && #[trigger] globs[i] == v[0] && glob_valid(globs[i]);
        assert(glob_valid(globs[i]));
    }
    if any_matches(v, path) {
        let j = choose|j: int| 0 <= j < v.len() && #[trigger] glob_matches(v[j], path);
        let i = choose|i: int|
            0 <= i < globs.len() && #[trigger] globs[i] == v[j] && glob_valid(globs[i]);
        assert(glob_matches(globs[i], path));
    }
    if exists|i: int|
        0 <= i < globs.len() && glob_valid(globs[i]) && #[trigger] glob_matches(globs[i], path) {
        let i = choose|i: int|
            0 <= i < globs.len() && glob_valid(globs[i]) && #[trigger] glob_matches(
                globs[i],
                path,
            );
        globs.lemma_filter_contains(f, i);
        let j = choose|j: int| 0 <= j < v.len() && v[j] == globs[i];
        assert(glob_matches(v[j], path));
    }
}

} // verus!
