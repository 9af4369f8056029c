//! Unix paths as lists of components, the way `std::path` reads them.
use vstd::prelude::*;
use crate::text;

verus! {

/// Whether a piece between slashes counts as a component. Empty pieces never do;
/// `.` only as the first piece of a relative path.
pub open spec fn counts(pieces: Seq<Seq<char>>, i: int) -> bool {
    pieces[i].len() > 0 && (i == 0 || pieces[i] != "."@)
}

/// The components among the first `n` pieces.
pub open spec fn kept(pieces: Seq<Seq<char>>, n: int) -> Seq<Seq<char>>
    decreases n,
{
    if n <= 0 {
        Seq::empty()
    } else if counts(pieces, n - 1) {
        kept(pieces, n - 1).push(pieces[n - 1])
    } else {
        kept(pieces, n - 1)
    }
}

pub open spec fn is_absolute(path: Seq<char>) -> bool {
    path.len() > 0 && path[0] == '/'
}

/// The components of a path; an absolute path has `/` as its first one.
pub open spec fn components_of(path: Seq<char>) -> Seq<Seq<char>> {
    let pieces = text::split_on(path, '/');
    let names = kept(pieces, pieces.len() as int);
    if is_absolute(path) {
        seq!["/"@] + names
    } else {
        names
    }
}

fn starts_at_root(path: &str) -> (r: bool)
    ensures
        r == is_absolute(path@),
{
    proof {
        reveal_strlit("/");
        assert("/"@ =~= seq!['/']);
        if path@.len() > 0 {
            assert(path@.subrange(0, 1)[0] == path@[0]);
            if path@[0] == '/' {
                assert(path@.subrange(0, 1) =~= seq!['/']);
            }
        }
    }
    text::starts_with(path, "/")
}

pub fn components(path: &str) -> (r: Vec<String>)
    ensures
        text::texts(r@) == components_of(path@),
{
    let pieces = text::split(path, '/');
    let ghost p = text::texts(pieces@);
    let ghost mut root: Seq<Seq<char>> = Seq::empty();
    let mut out: Vec<String> = Vec::new();
    if starts_at_root(path) {
        out.push("/".to_owned());
        proof {
            root = seq!["/"@];
        }
    }
    assert(text::texts(out@) =~= root);
    let mut i: usize = 0;
    assert(root + kept(p, 0) =~= root);
    while i < pieces.len()
        invariant
            i <= pieces.len(),
            p == text::texts(pieces@),
            text::texts(out@) =~= root + kept(p, i as int),
        decreases pieces.len() - i,
    {
        if piece_counts(&pieces, i) {
            proof {
                text::lemma_texts_push(out@, pieces@[i as int]);
            }
            out.push(pieces[i].clone());
        }
        i = i + 1;
    }
    proof {
        assert(Seq::<Seq<char>>::empty() + kept(p, p.len() as int) =~= kept(p, p.len() as int));
    }
    out
}

/// Whether `base` is `path` or one of its ancestors.
pub open spec fn is_under(path: Seq<char>, base: Seq<char>) -> bool {
    components_of(base).is_prefix_of(components_of(path))
}

/// `Path::starts_with`: compares whole components.
pub fn under(path: &str, base: &str) -> (r: bool)
    ensures
        r == is_under(path@, base@),
{
    let p = components(path);
    let b = components(base);
    let ghost ps = text::texts(p@);
    let ghost bs = text::texts(b@);
    if b.len() > p.len() {
        return false;
    }
    let mut i: usize = 0;
    while i < b.len()
        invariant
            ps == text::texts(p@),
            bs == text::texts(b@),
            ps == components_of(path@),
            bs == components_of(base@),
            i <= b.len() <= p.len(),
            forall|k: int| 0 <= k < i ==> ps[k] == #[trigger] bs[k],
        decreases b.len() - i,
    {
        if !text::same(p[i].as_str(), b[i].as_str()) {
            assert(ps[i as int] != bs[i as int]);
            proof {
                assert(ps.subrange(0, bs.len() as int)[i as int] == ps[i as int]);
            }
            return false;
        }
        assert(ps[i as int] == bs[i as int]);
        i = i + 1;
    }
    assert(ps.subrange(0, bs.len() as int) =~= bs);
    true
}

/// The first index from `i` on whose piece counts; the number of pieces where
/// there is none.
pub open spec fn next_counted(pieces: Seq<Seq<char>>, i: int) -> int
    decreases pieces.len() - i,
{
    if i >= pieces.len() {
        pieces.len() as int
    } else if counts(pieces, i) {
        i
    } else {
        next_counted(pieces, i + 1)
    }
}

/// The index behind the first `k` pieces that count.
pub open spec fn behind(pieces: Seq<Seq<char>>, k: int) -> int
    decreases k,
{
    if k <= 0 {
        0
    } else {
        let j = next_counted(pieces, behind(pieces, k - 1));
        if j < pieces.len() {
            j + 1
        } else {
            j
        }
    }
}

/// The index behind the last of the first `n` pieces that counts.
pub open spec fn counted_end(pieces: Seq<Seq<char>>, n: int) -> int
    decreases n,
{
    if n <= 0 {
        0
    } else if counts(pieces, n - 1) {
        n
    } else {
        counted_end(pieces, n - 1)
    }
}

/// What is left of `path` below `base`, as it is written there: from the first
/// component behind the base to the last one.
pub open spec fn below(path: Seq<char>, base: Seq<char>) -> Option<Seq<char>> {
    let pieces = text::split_on(path, '/');
    let end = counted_end(pieces, pieces.len() as int);
    let names = components_of(base).len() - (if is_absolute(path) {
        1int
    } else {
        0
    });
    if !is_under(path, base) {
        None
    } else if names < 0 {
        Some(
            if end == 0 {
                "/"@
            } else {
                text::joined(pieces.take(end), "/"@)
            },
        )
    } else {
        let from = next_counted(pieces, behind(pieces, names));
        Some(
            if from >= end {
                ""@
            } else {
                text::joined(pieces.subrange(from, end), "/"@)
            },
        )
    }
}

fn piece_counts(pieces: &Vec<String>, i: usize) -> (r: bool)
    requires
        i < pieces.len(),
    ensures
        r == counts(text::texts(pieces@), i as int),
{
    assert(text::texts(pieces@)[i as int] == pieces@[i as int]@);
    let s = pieces[i].as_str();
    !s.is_empty() && (i == 0 || !text::same(s, "."))
}

fn next_piece(pieces: &Vec<String>, i: usize) -> (r: usize)
    requires
        i <= pieces.len(),
    ensures
        r == next_counted(text::texts(pieces@), i as int),
        i <= r <= pieces.len(),
{
    let mut k: usize = i;
    while k < pieces.len() && !piece_counts(pieces, k)
        invariant
            i <= k <= pieces.len(),
            next_counted(text::texts(pieces@), i as int) == next_counted(
                text::texts(pieces@),
                k as int,
            ),
        decreases pieces.len() - k,
    {
        k = k + 1;
    }
    k
}

fn pieces_end(pieces: &Vec<String>) -> (r: usize)
    ensures
        r == counted_end(text::texts(pieces@), pieces@.len() as int),
        r <= pieces.len(),
{
    let mut n: usize = pieces.len();
    while n > 0 && !piece_counts(pieces, n - 1)
        invariant
            n <= pieces.len(),
            counted_end(text::texts(pieces@), pieces@.len() as int) == counted_end(
                text::texts(pieces@),
                n as int,
            ),
        decreases n,
    {
        n = n - 1;
    }
    n
}

fn join_pieces(pieces: &Vec<String>, from: usize, end: usize) -> (r: String)
    requires
        from <= end <= pieces.len(),
    ensures
        r@ == text::joined(text::texts(pieces@).subrange(from as int, end as int), "/"@),
{
    let ghost ps = text::texts(pieces@);
    let mut part: Vec<String> = Vec::new();
    let mut i: usize = from;
    while i < end
        invariant
            from <= i <= end <= pieces.len(),
            ps == text::texts(pieces@),
            text::texts(part@) =~= ps.subrange(from as int, i as int),
        decreases end - i,
    {
        text::push_line(&mut part, pieces[i].clone());
        assert(ps.subrange(from as int, i + 1) =~= ps.subrange(from as int, i as int).push(
            ps[i as int],
        ));
        i = i + 1;
    }
    text::join(&part, "/")
}

/// `Path::strip_prefix`.
pub fn strip_base(path: &str, base: &str) -> (r: Option<String>)
    ensures
        match r {
            Some(s) => below(path@, base@) == Some(s@),
            None => below(path@, base@) is None,
        },
{
    if !under(path, base) {
        return None;
    }
    let pieces = text::split(path, '/');
    let ghost ps = text::texts(pieces@);
    let end = pieces_end(&pieces);
    let in_base: usize = components(base).len();
    let ghost base_len = components_of(base@).len();
    assert(in_base == base_len);
    let absolute = starts_at_root(path);
    if absolute && in_base == 0 {
        if end == 0 {
            return Some("/".to_owned());
        }
        assert(ps.take(end as int) =~= ps.subrange(0, end as int));
        return Some(join_pieces(&pieces, 0, end));
    }
    let names: usize = if absolute {
        in_base - 1
    } else {
        in_base
    };
    let mut k: usize = 0;
    let mut at: usize = 0;
    while k < names
        invariant
            k <= names,
            at <= pieces.len(),
            ps == text::texts(pieces@),
            at == behind(ps, k as int),
        decreases names - k,
    {
        let j = next_piece(&pieces, at);
        assert(ps.len() == pieces@.len());
        at = if j < pieces.len() {
            j + 1
        } else {
            j
        };
        k = k + 1;
    }
    let from = next_piece(&pieces, at);
    if from >= end {
        return Some("".to_owned());
    }
    Some(join_pieces(&pieces, from, end))
}

/// The last component, where it names a file.
pub open spec fn file_name_of(path: Seq<char>) -> Option<Seq<char>> {
    let c = components_of(path);
    if c.len() == 0 || c.last() == "/"@ || c.last() == ".."@ || c.last() == "."@ {
        None
    } else {
        Some(c.last())
    }
}

pub fn file_name(path: &str) -> (r: Option<String>)
    ensures
        match r {
            Some(name) => file_name_of(path@) == Some(name@),
            None => file_name_of(path@) is None,
        },
{
    let mut c = components(path);
    let ghost cs = text::texts(c@);
    match c.pop() {
        Some(last) => {
            assert(cs.last() == last@);
            if text::same(last.as_str(), "/") || text::same(last.as_str(), "..") || text::same(
                last.as_str(),
                ".",
            ) {
                None
            } else {
                Some(last)
            }
        },
        None => None,
    }
}

/// The position of the last dot of a name.
pub open spec fn last_dot(name: Seq<char>) -> int
    decreases name.len(),
{
    if name.len() == 0 {
        -1
    } else if name.last() == '.' {
        name.len() - 1
    } else {
        last_dot(name.drop_last())
    }
}

/// The name without its extension: what stands before the last dot, unless that
/// dot is the first character.
pub open spec fn stem_of(name: Seq<char>) -> Seq<char> {
    if last_dot(name) > 0 {
        name.take(last_dot(name))
    } else {
        name
    }
}

/// The stem of the file that a path names; the path itself where it names none.
pub open spec fn path_stem(path: Seq<char>) -> Seq<char> {
    match file_name_of(path) {
        Some(name) => stem_of(name),
        None => path,
    }
}

/// The stem of a path's file name, for display.
pub fn stem(path: &str) -> (r: String)
    ensures
        r@ == path_stem(path@),
{
    let name = match file_name(path) {
        Some(n) => n,
        None => return path.to_owned(),
    };
    let last = name.as_str();
    let v = text::chars(last);
    let mut i: usize = v.len();
    assert(v@.take(i as int) =~= v@);
    while i > 0 && v[i - 1] != '.'
        invariant
            i <= v.len(),
            last_dot(v@) == last_dot(v@.take(i as int)),
        decreases i,
    {
        assert(v@.take(i as int).drop_last() =~= v@.take(i - 1));
        i = i - 1;
    }
    if i > 1 {
        assert(v@.take(i as int).last() == '.');
        assert(v@.subrange(0, i - 1) =~= v@.take(i - 1));
        text::string_of(&v, 0, i - 1)
    } else {
        last.to_owned()
    }
}

/// The repo-relative key of a file reached through links: the resolved access
/// path below the resolved repository root, unless that is the key the access
/// was looked up under already.
pub fn canonical_rel_path(
    canonical_root: Option<&str>,
    canonical_access: Option<&str>,
    lexical_rel: &str,
) -> (r: Option<String>)
    ensures
        match r {
            Some(rel) => {
                &&& canonical_root is Some
                &&& canonical_access is Some
                &&& below(canonical_access->0@, canonical_root->0@) == Some(rel@)
                &&& rel@ != lexical_rel@
            },
            None => {
                ||| canonical_root is None
                ||| canonical_access is None
                ||| below(canonical_access->0@, canonical_root->0@) is None
                ||| below(canonical_access->0@, canonical_root->0@) == Some(lexical_rel@)
            },
        },
{
    match (canonical_root, canonical_access) {
        (Some(root), Some(access)) => match strip_base(access, root) {
            Some(rel) => if text::same(rel.as_str(), lexical_rel) {
                None
            } else {
                Some(rel)
            },
            None => None,
        },
        _ => None,
    }
}

/// `Path::join`: `part` below `base`, or `part` itself where it is absolute.
pub open spec fn joined_path(base: Seq<char>, part: Seq<char>) -> Seq<char> {
    if "/"@.is_prefix_of(part) || base.len() == 0 {
        part
    } else if "/"@.is_suffix_of(base) {
        base + part
    } else {
        base + "/"@ + part
    }
}

pub fn join(base: &str, part: &str) -> (r: String)
    ensures
        r@ == joined_path(base@, part@),
{
    if text::starts_with(part, "/") || base.is_empty() {
        part.to_owned()
    } else if text::ends_with(base, "/") {
        base.to_owned().concat(part)
    } else {
        base.to_owned().concat("/").concat(part)
    }
}

/// A file in a directory has the components of the directory and its own name.
pub proof fn law_child_has_one_more_component(dir: Seq<char>, name: Seq<char>)
    requires
        dir.len() > 0,
        name.len() > 0,
        name != "."@,
        !name.contains('/'),
    ensures
        components_of(dir + seq!['/'] + name) == components_of(dir).push(name),
{
    let path = dir + seq!['/'] + name;
    text::lemma_split_on_append(dir, name, '/');
    text::lemma_split_on_plain(name, '/');
    let d = text::split_on(dir, '/');
    let p = text::split_on(path, '/');
    text::lemma_split_on_nonempty(dir, '/');
    assert(p =~= d.push(name));
    lemma_kept_prefix(d, p, d.len() as int);
    assert(path[0] == dir[0]);
    assert(components_of(path) =~= components_of(dir).push(name));
}

proof fn lemma_kept_prefix(a: Seq<Seq<char>>, b: Seq<Seq<char>>, n: int)
    requires
        0 <= n <= a.len() <= b.len(),
        forall|i: int| 0 <= i < n ==> a[i] == #[trigger] b[i],
    ensures
        kept(a, n) == kept(b, n),
    decreases n,
{
    if n > 0 {
        lemma_kept_prefix(a, b, n - 1);
        assert(a[n - 1] == b[n - 1]);
    }
}

/// A path lies under itself and under whatever its base lies under.
pub proof fn law_under_is_an_order(a: Seq<char>, b: Seq<char>, c: Seq<char>)
    ensures
        is_under(a, a),
        is_under(a, b) && is_under(b, c) ==> is_under(a, c),
        is_under(a, b) && is_under(b, a) ==> components_of(a) == components_of(b),
{
    let x = components_of(a);
    let y = components_of(b);
    let z = components_of(c);
    assert(x.subrange(0, x.len() as int) =~= x);
    if is_under(a, b) && is_under(b, c) {
        assert(x.subrange(0, z.len() as int) =~= x.subrange(0, y.len() as int).subrange(
            0,
            z.len() as int,
        ));
    }
    if is_under(a, b) && is_under(b, a) {
        assert(x.subrange(0, y.len() as int) =~= x);
    }
}

/// A file lies under its directory, and not under a sibling, even where the name of
/// one begins with that of the other; the directory does not lie under the file.
pub proof fn law_siblings_lie_apart(dir: Seq<char>, a: Seq<char>, b: Seq<char>)
    requires
        dir.len() > 0,
        a.len() > 0,
        b.len() > 0,
        a != "."@,
        b != "."@,
        !a.contains('/'),
        !b.contains('/'),
        a != b,
    ensures
        is_under(dir + seq!['/'] + a, dir),
        !is_under(dir, dir + seq!['/'] + a),
        !is_under(dir + seq!['/'] + a, dir + seq!['/'] + b),
{
    law_child_has_one_more_component(dir, a);
    law_child_has_one_more_component(dir, b);
    let d = components_of(dir);
    let x = d.push(a);
    let y = d.push(b);
    assert(x.subrange(0, d.len() as int) =~= d);
    if y.is_prefix_of(x) {
        assert(x.subrange(0, y.len() as int)[d.len() as int] == a);
        assert(y[d.len() as int] == b);
    }
}

/// A file below its directory is left as its name, and a path that does not lie
/// under a base is not left at all.
pub proof fn law_below_is_for_paths_under_the_base(path: Seq<char>, base: Seq<char>)
    ensures
        below(path, base) is Some <==> components_of(base).is_prefix_of(components_of(path)),
{
}

/// The file of a path in a directory is its last part.
pub proof fn law_file_name_is_the_last_part(dir: Seq<char>, name: Seq<char>)
    requires
        dir.len() > 0,
        name.len() > 0,
        name != "."@,
        name != ".."@,
        !name.contains('/'),
    ensures
        file_name_of(dir + seq!['/'] + name) == Some(name),
{
    law_child_has_one_more_component(dir, name);
    reveal_strlit("/");
    if name == "/"@ {
        assert(name[0] == '/');
    }
}

/// A name is its stem, or its stem, a dot and an extension without dots; the stem of
/// a name with an extension is not empty.
pub proof fn law_stem_drops_the_last_extension(name: Seq<char>, ext: Seq<char>)
    requires
        name.len() > 0,
        !ext.contains('.'),
    ensures
        stem_of(name + seq!['.'] + ext) == name,
        !ext.contains('.') ==> stem_of(ext) == ext,
        stem_of(seq!['.'] + ext) == seq!['.'] + ext,
{
    let s = name + seq!['.'] + ext;
    lemma_last_dot(name, ext);
    assert(s.take(name.len() as int) =~= name);
    lemma_last_dot(Seq::empty(), ext);
    assert(Seq::<char>::empty() + seq!['.'] + ext =~= seq!['.'] + ext);
    lemma_no_dot(ext);
}

proof fn lemma_no_dot(s: Seq<char>)
    requires
        !s.contains('.'),
    ensures
        last_dot(s) == -1,
    decreases s.len(),
{
    if s.len() > 0 {
        assert(s.contains(s.last()));
        assert forall|i: int| 0 <= i < s.len() - 1 implies s.drop_last()[i] != '.' by {
            assert(s.contains(s[i]));
        }
        lemma_no_dot(s.drop_last());
    }
}

proof fn lemma_last_dot(name: Seq<char>, ext: Seq<char>)
    requires
        !ext.contains('.'),
    ensures
        last_dot(name + seq!['.'] + ext) == name.len(),
    decreases ext.len(),
{
    let s = name + seq!['.'] + ext;
    if ext.len() > 0 {
        assert(ext.contains(ext.last()));
        assert forall|i: int| 0 <= i < ext.len() - 1 implies ext.drop_last()[i] != '.' by {
            assert(ext.contains(ext[i]));
        }
        lemma_last_dot(name, ext.drop_last());
        assert(s.drop_last() =~= name + seq!['.'] + ext.drop_last());
        assert(s.last() == ext.last());
    } else {
        assert(s.last() == '.');
    }
}

/// A path joined below a base lies in it, and an absolute one replaces it.
pub proof fn law_join_goes_below(base: Seq<char>, name: Seq<char>)
    requires
        base.len() > 0,
        base.last() != '/',
        name.len() > 0,
        name != "."@,
        !name.contains('/'),
    ensures
        components_of(joined_path(base, name)) == components_of(base).push(name),
        joined_path(base, seq!['/'] + name) == seq!['/'] + name,
        joined_path(base + seq!['/'], name) == joined_path(base, name),
{
    reveal_strlit("/");
    let slash = "/"@;
    assert(slash =~= seq!['/']);
    assert(name.contains(name[0]));
    if slash.is_prefix_of(name) {
        assert(name.subrange(0, 1)[0] == name[0]);
    }
    if slash.is_suffix_of(base) {
        assert(base.subrange(base.len() - 1, base.len() as int)[0] == base.last());
    }
    law_child_has_one_more_component(base, name);
    let abs = seq!['/'] + name;
    assert(abs.subrange(0, 1) =~= slash);
    let b = base + seq!['/'];
    assert(b.subrange(b.len() - 1, b.len() as int) =~= slash);
    assert(b + name =~= base + slash + name);
}

} // verus!
