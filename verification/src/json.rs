//! JSON values as the hook payloads, daemon replies and settings files hold them.
use vstd::prelude::*;
use crate::text::same;

verus! {

/// A JSON value. A number keeps its notation; an object keeps its members as a
/// list in which the first entry of a name counts.
#[derive(Debug, PartialEq, Eq)]
pub enum Json {
    Null,
    Bool(bool),
    Number(String),
    Str(String),
    Array(Vec<Json>),
    Object(Vec<(String, Json)>),
}

/// What a JSON value stands for.
#[verifier::ext_equal]
pub enum JsonView {
    Null,
    Bool(bool),
    Number(Seq<char>),
    Str(Seq<char>),
    Array(Seq<JsonView>),
    Object(Seq<(Seq<char>, JsonView)>),
}

/// The value that `j` stands for.
pub open spec fn json_view(j: Json) -> JsonView
    decreases j,
{
    match j {
        Json::Null => JsonView::Null,
        Json::Bool(b) => JsonView::Bool(b),
        Json::Number(n) => JsonView::Number(n@),
        Json::Str(s) => JsonView::Str(s@),
        Json::Array(v) => JsonView::Array(
            Seq::new(
                v@.len(),
                |i: int|
                    if 0 <= i < v@.len() {
                        json_view(v@[i])
                    } else {
                        JsonView::Null
                    },
            ),
        ),
        Json::Object(m) => JsonView::Object(
            Seq::new(
                m@.len(),
                |i: int|
                    if 0 <= i < m@.len() {
                        (m@[i].0@, json_view(m@[i].1))
                    } else {
                        (Seq::empty(), JsonView::Null)
                    },
            ),
        ),
    }
}

impl View for Json {
    type V = JsonView;

    open spec fn view(&self) -> JsonView {
        json_view(*self)
    }
}

/// The values of a list.
pub open spec fn items(v: Seq<Json>) -> Seq<JsonView> {
    v.map_values(|j: Json| j@)
}

/// The members of a list of named values.
pub open spec fn members(m: Seq<(String, Json)>) -> Seq<(Seq<char>, JsonView)> {
    m.map_values(|e: (String, Json)| (e.0@, e.1@))
}

pub proof fn lemma_array_view(v: Vec<Json>)
    ensures
        Json::Array(v)@ == JsonView::Array(items(v@)),
{
    assert(Json::Array(v)@->Array_0 =~= items(v@));
}

pub proof fn lemma_object_view(m: Vec<(String, Json)>)
    ensures
        Json::Object(m)@ == JsonView::Object(members(m@)),
{
    let o = Json::Object(m)@->Object_0;
    assert forall|i: int| 0 <= i < m@.len() implies #[trigger] o[i] == members(m@)[i] by {
        assert(o[i] == (m@[i].0@, m@[i].1@));
        assert(members(m@)[i] == (m@[i].0@, m@[i].1@));
    }
    assert(o =~= members(m@));
}

/// The value under `key` in a list of members.
pub open spec fn lookup(m: Seq<(Seq<char>, JsonView)>, key: Seq<char>) -> Option<JsonView>
    decreases m.len(),
{
    if m.len() == 0 {
        None
    } else if m[0].0 == key {
        Some(m[0].1)
    } else {
        lookup(m.skip(1), key)
    }
}

/// The member `key` of an object; `None` where it is absent or the value is no
/// object.
pub open spec fn member(j: JsonView, key: Seq<char>) -> Option<JsonView> {
    match j {
        JsonView::Object(m) => lookup(m, key),
        _ => None,
    }
}

/// The member `inner` of the member `outer`.
pub open spec fn member2(j: JsonView, outer: Seq<char>, inner: Seq<char>) -> Option<JsonView> {
    match member(j, outer) {
        Some(o) => member(o, inner),
        None => None,
    }
}

/// The text of a string value.
pub open spec fn text_value(j: Option<JsonView>) -> Option<Seq<char>> {
    match j {
        Some(JsonView::Str(s)) => Some(s),
        _ => None,
    }
}

/// A text that is there and not empty.
pub open spec fn filled_text(t: Option<Seq<char>>) -> Option<Seq<char>> {
    match t {
        Some(s) => if s.len() > 0 { Some(s) } else { None },
        None => None,
    }
}

/// Whether a member is the literal `true`.
pub open spec fn is_true(j: Option<JsonView>) -> bool {
    j == Some(JsonView::Bool(true))
}

/// The view of an optional string.
pub open spec fn opt_text(s: Option<String>) -> Option<Seq<char>> {
    match s {
        Some(t) => Some(t@),
        None => None,
    }
}

/// The view of an optional reference to a value.
pub open spec fn opt_view(j: Option<&Json>) -> Option<JsonView> {
    match j {
        Some(v) => Some(v@),
        None => None,
    }
}

/// Members that do not have the name can be left out of a search for it.
pub proof fn lemma_lookup_skip(m: Seq<(Seq<char>, JsonView)>, key: Seq<char>, i: int)
    requires
        0 <= i <= m.len(),
        forall|k: int| 0 <= k < i ==> (#[trigger] m[k]).0 != key,
    ensures
        lookup(m, key) == lookup(m.skip(i), key),
    decreases i,
{
    if i == 0 {
        assert(m.skip(0) =~= m);
    } else {
        assert(m[0].0 != key);
        assert(m.skip(1).skip(i - 1) =~= m.skip(i));
        assert forall|k: int| 0 <= k < i - 1 implies (#[trigger] m.skip(1)[k]).0 != key by {
            assert(m.skip(1)[k] == m[k + 1]);
        }
        lemma_lookup_skip(m.skip(1), key, i - 1);
    }
}

/// The position of the first member named `key`.
pub fn member_index(m: &Vec<(String, Json)>, key: &str) -> (r: Option<usize>)
    ensures
        match r {
            Some(i) => {
                &&& i < m.len()
                &&& m@[i as int].0@ == key@
                &&& forall|k: int| 0 <= k < i ==> (#[trigger] m@[k]).0@ != key@
                &&& lookup(members(m@), key@) == Some(m@[i as int].1@)
            },
            None => {
                &&& forall|k: int| 0 <= k < m.len() ==> (#[trigger] m@[k]).0@ != key@
                &&& lookup(members(m@), key@) is None
            },
        },
{
    let mut i: usize = 0;
    while i < m.len()
        invariant
            i <= m.len(),
            forall|k: int| 0 <= k < i ==> (#[trigger] m@[k]).0@ != key@,
        decreases m.len() - i,
    {
        if same(m[i].0.as_str(), key) {
            proof {
                lemma_lookup_skip(members(m@), key@, i as int);
                assert(members(m@).skip(i as int)[0] == members(m@)[i as int]);
            }
            return Some(i);
        }
        i = i + 1;
    }
    proof {
        lemma_lookup_skip(members(m@), key@, i as int);
    }
    None
}

impl Json {
    /// The member `key` of an object.
    pub fn get(&self, key: &str) -> (r: Option<&Json>)
        ensures
            opt_view(r) == member(self@, key@),
    {
        match self {
            Json::Object(m) => {
                proof {
                    lemma_object_view(*m);
                }
                match member_index(m, key) {
                    Some(i) => Some(&m[i].1),
                    None => None,
                }
            },
            _ => None,
        }
    }

    /// The text of the string member `key`.
    pub fn text_of(&self, key: &str) -> (r: Option<String>)
        ensures
            opt_text(r) == text_value(member(self@, key@)),
    {
        match self.get(key) {
            Some(j) => j.as_text(),
            None => None,
        }
    }

    /// The text of a string value.
    pub fn as_text(&self) -> (r: Option<String>)
        ensures
            opt_text(r) == text_value(Some(self@)),
    {
        match self {
            Json::Str(s) => Some(s.clone()),
            _ => None,
        }
    }

    /// The text of the string member `key`, where it is not empty.
    pub fn filled(&self, key: &str) -> (r: Option<String>)
        ensures
            opt_text(r) == filled_text(text_value(member(self@, key@))),
    {
        filled(self.text_of(key))
    }

    /// The text of the string member `inner` of `outer`, where it is not empty.
    pub fn filled_in(&self, outer: &str, inner: &str) -> (r: Option<String>)
        ensures
            opt_text(r) == filled_text(text_value(member2(self@, outer@, inner@))),
    {
        match self.get(outer) {
            Some(o) => o.filled(inner),
            None => None,
        }
    }

    /// Whether the member `key` is the literal `true`.
    pub fn flag(&self, key: &str) -> (r: bool)
        ensures
            r == is_true(member(self@, key@)),
    {
        match self.get(key) {
            Some(Json::Bool(b)) => *b,
            _ => false,
        }
    }
}

/// The text, where it is there and not empty.
pub fn filled(t: Option<String>) -> (r: Option<String>)
    ensures
        opt_text(r) == filled_text(opt_text(t)),
{
    match t {
        Some(s) => if s.as_str().is_empty() {
            None
        } else {
            Some(s)
        },
        None => None,
    }
}

// ---------------------------------------------------------------------------
// Changing objects
// ---------------------------------------------------------------------------

/// The members with `key` set to `value`: in place where it is there, else at
/// the end.
pub open spec fn put(m: Seq<(Seq<char>, JsonView)>, key: Seq<char>, value: JsonView) -> Seq<
    (Seq<char>, JsonView),
>
    decreases m.len(),
{
    if m.len() == 0 {
        seq![(key, value)]
    } else if m[0].0 == key {
        seq![(key, value)] + m.skip(1)
    } else {
        seq![m[0]] + put(m.skip(1), key, value)
    }
}

/// Having another name than `key`.
pub open spec fn not_named(key: Seq<char>) -> spec_fn((Seq<char>, JsonView)) -> bool {
    |e: (Seq<char>, JsonView)| e.0 != key
}

/// The members without those named `key`.
pub open spec fn without(m: Seq<(Seq<char>, JsonView)>, key: Seq<char>) -> Seq<
    (Seq<char>, JsonView),
> {
    m.filter(not_named(key))
}

/// The members of an object; a value of another kind has none.
pub open spec fn members_of(j: JsonView) -> Seq<(Seq<char>, JsonView)> {
    match j {
        JsonView::Object(m) => m,
        _ => Seq::empty(),
    }
}

pub proof fn lemma_put_lookup(
    m: Seq<(Seq<char>, JsonView)>,
    key: Seq<char>,
    value: JsonView,
    other: Seq<char>,
)
    ensures
        lookup(put(m, key, value), other) == (if other == key {
            Some(value)
        } else {
            lookup(m, other)
        }),
    decreases m.len(),
{
    let p = put(m, key, value);
    if m.len() == 0 {
        assert(p.skip(1) =~= Seq::<(Seq<char>, JsonView)>::empty());
        assert(lookup(p.skip(1), other) is None);
    } else if m[0].0 == key {
        assert(p.skip(1) =~= m.skip(1));
    } else {
        lemma_put_lookup(m.skip(1), key, value, other);
        assert(p.skip(1) =~= put(m.skip(1), key, value));
    }
}

/// Setting a member to the value it has changes nothing.
pub proof fn lemma_put_same(m: Seq<(Seq<char>, JsonView)>, key: Seq<char>, value: JsonView)
    requires
        lookup(m, key) == Some(value),
    ensures
        put(m, key, value) == m,
    decreases m.len(),
{
    if m[0].0 == key {
        assert(m =~= seq![m[0]] + m.skip(1));
        assert(m[0] == (key, value));
    } else {
        lemma_put_same(m.skip(1), key, value);
        assert(m =~= seq![m[0]] + m.skip(1));
    }
}

/// The last of two settings counts.
pub proof fn lemma_put_put(
    m: Seq<(Seq<char>, JsonView)>,
    key: Seq<char>,
    a: JsonView,
    b: JsonView,
)
    ensures
        put(put(m, key, a), key, b) == put(m, key, b),
    decreases m.len(),
{
    let p = put(m, key, a);
    if m.len() == 0 {
        assert(p.skip(1) =~= Seq::<(Seq<char>, JsonView)>::empty());
        assert(put(p, key, b) =~= put(m, key, b));
    } else if m[0].0 == key {
        assert(p.skip(1) =~= m.skip(1));
    } else {
        lemma_put_put(m.skip(1), key, a, b);
        assert(p.skip(1) =~= put(m.skip(1), key, a));
    }
}

pub proof fn lemma_without_lookup(
    m: Seq<(Seq<char>, JsonView)>,
    key: Seq<char>,
    other: Seq<char>,
)
    ensures
        lookup(without(m, key), other) == (if other == key {
            None::<JsonView>
        } else {
            lookup(m, other)
        }),
    decreases m.len(),
{
    let f = not_named(key);
    if m.len() == 0 {
        assert(without(m, key) =~= m) by {
            reveal(Seq::filter);
        }
    } else {
        lemma_without_lookup(m.skip(1), key, other);
        assert(m =~= seq![m[0]] + m.skip(1));
        Seq::filter_distributes_over_add(seq![m[0]], m.skip(1), f);
        assert(seq![m[0]].filter(f) == (if m[0].0 != key {
            seq![m[0]]
        } else {
            Seq::<(Seq<char>, JsonView)>::empty()
        })) by {
            let empty = Seq::<(Seq<char>, JsonView)>::empty();
            assert(seq![m[0]] =~= empty.push(m[0]));
            empty.lemma_filter_push(m[0], f);
            assert(empty.filter(f) =~= empty) by {
                reveal(Seq::filter);
            }
        }
        let w = without(m, key);
        if m[0].0 != key {
            assert(w.skip(1) =~= without(m.skip(1), key));
            assert(w[0] == m[0]);
        } else {
            assert(w =~= without(m.skip(1), key));
        }
    }
}

/// Taking away a member that is not there changes nothing.
pub proof fn lemma_without_absent(m: Seq<(Seq<char>, JsonView)>, key: Seq<char>)
    requires
        lookup(m, key) is None,
    ensures
        without(m, key) == m,
    decreases m.len(),
{
    let f = not_named(key);
    lemma_absent(m, key);
    reveal(Seq::filter);
    if m.len() > 0 {
        lemma_absent_prefix(m, key);
        lemma_without_absent(m.drop_last(), key);
        assert(f(m.last()));
        assert(m =~= m.drop_last().push(m.last()));
    }
}

proof fn lemma_absent(m: Seq<(Seq<char>, JsonView)>, key: Seq<char>)
    requires
        lookup(m, key) is None,
    ensures
        forall|i: int| 0 <= i < m.len() ==> (#[trigger] m[i]).0 != key,
    decreases m.len(),
{
    if m.len() > 0 {
        lemma_absent(m.skip(1), key);
        assert forall|i: int| 0 <= i < m.len() implies (#[trigger] m[i]).0 != key by {
            if i > 0 {
                assert(m.skip(1)[i - 1] == m[i]);
            }
        }
    }
}

proof fn lemma_absent_prefix(m: Seq<(Seq<char>, JsonView)>, key: Seq<char>)
    requires
        lookup(m, key) is None,
        m.len() > 0,
    ensures
        lookup(m.drop_last(), key) is None,
{
    lemma_absent(m, key);
    lemma_lookup_skip(m.drop_last(), key, m.len() - 1);
    assert(m.drop_last().skip(m.len() - 1).len() == 0);
}

/// Setting the first member of a name replaces that entry.
proof fn lemma_put_at(m: Seq<(Seq<char>, JsonView)>, key: Seq<char>, value: JsonView, i: int)
    requires
        0 <= i < m.len(),
        m[i].0 == key,
        forall|k: int| 0 <= k < i ==> (#[trigger] m[k]).0 != key,
    ensures
        put(m, key, value) == m.update(i, (key, value)),
    decreases i,
{
    if i == 0 {
        assert(put(m, key, value) =~= m.update(0, (key, value)));
    } else {
        assert(m[0].0 != key);
        assert forall|k: int| 0 <= k < i - 1 implies (#[trigger] m.skip(1)[k]).0 != key by {
            assert(m.skip(1)[k] == m[k + 1]);
        }
        lemma_put_at(m.skip(1), key, value, i - 1);
        assert(put(m, key, value) =~= m.update(i, (key, value)));
    }
}

proof fn lemma_put_end(m: Seq<(Seq<char>, JsonView)>, key: Seq<char>, value: JsonView)
    requires
        forall|k: int| 0 <= k < m.len() ==> (#[trigger] m[k]).0 != key,
    ensures
        put(m, key, value) == m.push((key, value)),
    decreases m.len(),
{
    if m.len() == 0 {
        assert(put(m, key, value) =~= m.push((key, value)));
    } else {
        assert(m[0].0 != key);
        assert forall|k: int| 0 <= k < m.len() - 1 implies (#[trigger] m.skip(1)[k]).0 != key by {
            assert(m.skip(1)[k] == m[k + 1]);
        }
        lemma_put_end(m.skip(1), key, value);
        assert(put(m, key, value) =~= m.push((key, value)));
    }
}

/// Sets a member.
pub fn put_member(m: &mut Vec<(String, Json)>, key: &str, value: Json)
    ensures
        members(final(m)@) == put(members(old(m)@), key@, value@),
{
    let ghost before = members(m@);
    let ghost v = value@;
    match member_index(m, key) {
        Some(i) => {
            proof {
                assert forall|k: int| 0 <= k < i implies (#[trigger] before[k]).0 != key@ by {
                    assert(before[k].0 == m@[k].0@);
                }
                lemma_put_at(before, key@, v, i as int);
            }
            m.set(i, (key.to_owned(), value));
            assert(members(m@) =~= before.update(i as int, (key@, v)));
        },
        None => {
            proof {
                assert forall|k: int| 0 <= k < before.len() implies (#[trigger] before[k]).0
                    != key@ by {
                    assert(before[k].0 == m@[k].0@);
                }
                lemma_put_end(before, key@, v);
            }
            m.push((key.to_owned(), value));
            assert(members(m@) =~= before.push((key@, v)));
        },
    }
}

/// Takes the value of a member out of a list, leaving `null` in its place.
pub fn take_member(m: &mut Vec<(String, Json)>, key: &str) -> (r: Option<Json>)
    ensures
        match r {
            Some(j) => {
                &&& lookup(members(old(m)@), key@) == Some(j@)
                &&& members(final(m)@) == put(members(old(m)@), key@, JsonView::Null)
            },
            None => lookup(members(old(m)@), key@) is None && *final(m) == *old(m),
        },
{
    let ghost before = members(m@);
    match member_index(m, key) {
        Some(i) => {
            let mut e = (key.to_owned(), Json::Null);
            std::mem::swap(&mut m[i], &mut e);
            proof {
                assert forall|k: int| 0 <= k < i implies (#[trigger] before[k]).0 != key@ by {
                    assert(before[k].0 == old(m)@[k].0@);
                }
                lemma_put_at(before, key@, JsonView::Null, i as int);
                assert(members(m@) =~= before.update(i as int, (key@, JsonView::Null)));
            }
            Some(e.1)
        },
        None => None,
    }
}

/// Takes all members named `key` away.
pub fn drop_member(m: &mut Vec<(String, Json)>, key: &str)
    ensures
        members(final(m)@) == without(members(old(m)@), key@),
{
    let ghost all = members(m@);
    let ghost f = not_named(key@);
    let ghost mut c: int = 0;
    let mut i: usize = 0;
    assert(all.take(0).filter(f) =~= Seq::<(Seq<char>, JsonView)>::empty()) by {
        reveal(Seq::filter);
    }
    assert(all.skip(0) =~= all);
    while i < m.len()
        invariant
            f == not_named(key@),
            i <= m.len(),
            0 <= c <= all.len(),
            m@.len() - i == all.len() - c,
            members(m@) =~= all.take(c).filter(f) + all.skip(c),
            all.take(c).filter(f).len() == i,
        decreases m.len() - i,
    {
        proof {
            assert(members(m@)[i as int] == all.skip(c)[0]);
            assert(all.take(c + 1) =~= all.take(c).push(all[c]));
            all.take(c).lemma_filter_push(all[c], f);
        }
        let ghost before = members(m@);
        if same(m[i].0.as_str(), key) {
            m.remove(i);
            assert(members(m@) =~= before.remove(i as int));
        } else {
            i = i + 1;
        }
        proof {
            c = c + 1;
        }
    }
    assert(all.take(c) =~= all);
}

/// A member is found by its name wherever it stands; where a name stands twice the
/// first one counts, and what is no object has no members.
pub proof fn law_first_member_of_a_name_counts(
    before: Seq<(Seq<char>, JsonView)>,
    key: Seq<char>,
    value: JsonView,
    after: Seq<(Seq<char>, JsonView)>,
)
    requires
        forall|i: int| 0 <= i < before.len() ==> (#[trigger] before[i]).0 != key,
    ensures
        lookup(before + seq![(key, value)] + after, key) == Some(value),
        lookup(before, key) is None,
        member(JsonView::Object(before + seq![(key, value)] + after), key) == Some(value),
        member(JsonView::Null, key) is None,
        member(JsonView::Str(key), key) is None,
        member(JsonView::Array(Seq::empty()), key) is None,
{
    let m = before + seq![(key, value)] + after;
    let n = before.len() as int;
    assert forall|k: int| 0 <= k < n implies (#[trigger] m[k]).0 != key by {
        assert(m[k] == before[k]);
    }
    lemma_lookup_skip(m, key, n);
    assert(m.skip(n)[0] == (key, value));
    lemma_lookup_skip(before, key, n);
    assert(before.skip(n).len() == 0);
}

/// Putting a member changes that member alone, and keeps the place of one that was
/// there.
pub proof fn law_put_changes_one_member(
    m: Seq<(Seq<char>, JsonView)>,
    key: Seq<char>,
    value: JsonView,
    other: Seq<char>,
)
    ensures
        lookup(put(m, key, value), key) == Some(value),
        other != key ==> lookup(put(m, key, value), other) == lookup(m, other),
        lookup(m, key) is None ==> put(m, key, value) == m.push((key, value)),
        lookup(m, key) is Some ==> put(m, key, value).len() == m.len(),
    decreases m.len(),
{
    lemma_put_lookup(m, key, value, key);
    lemma_put_lookup(m, key, value, other);
    if m.len() == 0 {
        assert(put(m, key, value) =~= m.push((key, value)));
    } else if m[0].0 != key {
        law_put_changes_one_member(m.skip(1), key, value, other);
        if lookup(m, key) is None {
            assert(put(m, key, value) =~= m.push((key, value))) by {
                assert(seq![m[0]] + m.skip(1).push((key, value)) =~= m.push((key, value)));
            }
        }
    }
}

/// A text counts only where it is one and is not empty.
pub proof fn law_empty_text_is_none(s: Seq<char>)
    ensures
        filled_text(Some(s)) == (if s.len() > 0 {
            Some(s)
        } else {
            None
        }),
        filled_text(None) is None,
        text_value(Some(JsonView::Str(s))) == Some(s),
        text_value(Some(JsonView::Number(s))) is None,
        text_value(None) is None,
        is_true(Some(JsonView::Bool(true))),
        !is_true(Some(JsonView::Bool(false))),
        !is_true(Some(JsonView::Str(s))),
        !is_true(None),
{
}

} // verus!
