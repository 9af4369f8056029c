//! Text as a sequence of characters: decimal numbers, splitting, trimming,
//! searching and padding.
use vstd::prelude::*;

verus! {

/// `String::push` puts one character at the end of a string.
pub assume_specification[ String::push ](s: &mut String, c: char)
    ensures
        final(s)@ == old(s)@.push(c),
;

/// The lower-case form of a text under Unicode's mapping.
pub uninterp spec fn lowercased(s: Seq<char>) -> Seq<char>;

/// `str::to_lowercase`: its result is named [`lowercased`]; the Unicode tables
/// behind it are not restated here.
pub assume_specification[ str::to_lowercase ](s: &str) -> (r: String)
    ensures
        r@ == lowercased(s@),
;

// ---------------------------------------------------------------------------
// Decimal numbers
// ---------------------------------------------------------------------------

/// The character of a decimal digit.
pub open spec fn digit_char(d: nat) -> char {
    (48 + d) as char
}

pub open spec fn is_digit(c: char) -> bool {
    48 <= c as int <= 57
}

/// The decimal notation of a number, without leading zeros.
pub open spec fn dec(n: nat) -> Seq<char>
    decreases n,
{
    if n < 10 {
        seq![digit_char(n)]
    } else {
        dec(n / 10).push(digit_char(n % 10))
    }
}

pub open spec fn all_digits(s: Seq<char>) -> bool {
    forall|i: int| 0 <= i < s.len() ==> is_digit(#[trigger] s[i])
}

/// The number that a row of decimal digits denotes.
pub open spec fn dec_value(s: Seq<char>) -> nat
    decreases s.len(),
{
    if s.len() == 0 {
        0
    } else {
        dec_value(s.drop_last()) * 10 + (s.last() as int - 48) as nat
    }
}

/// A row of digits denotes the number whose notation it is.
pub proof fn lemma_dec_value(n: nat)
    ensures
        dec_value(dec(n)) == n,
        all_digits(dec(n)),
        dec(n).len() > 0,
    decreases n,
{
    if n < 10 {
        assert(dec(n).drop_last() =~= Seq::<char>::empty());
        assert(dec_value(Seq::<char>::empty()) == 0);
    } else {
        lemma_dec_value(n / 10);
        assert(dec(n).drop_last() =~= dec(n / 10));
    }
}

/// `dec(n)` as a string.
pub fn decimal(n: u64) -> (r: String)
    ensures
        r@ == dec(n as nat),
    decreases n,
{
    if n < 10 {
        let mut s = String::new();
        s.push((48u8 + n as u8) as char);
        s
    } else {
        let mut s = decimal(n / 10);
        s.push((48u8 + (n % 10) as u8) as char);
        s
    }
}

/// The number that `s` denotes in the form `u64::from_str` reads: an optional
/// plus sign, then at least one digit, and a value of at most `limit`.
pub open spec fn number_text(s: Seq<char>, limit: nat) -> Option<nat> {
    let body = if s.len() > 0 && s[0] == '+' { s.skip(1) } else { s };
    if body.len() == 0 || !all_digits(body) || dec_value(body) > limit {
        None
    } else {
        Some(dec_value(body))
    }
}

/// Reads an unsigned number of at most `limit`.
pub fn parse_number(s: &str, limit: u64) -> (r: Option<u64>)
    ensures
        r is Some <==> number_text(s@, limit as nat) is Some,
        r matches Some(n) ==> number_text(s@, limit as nat) == Some(n as nat),
{
    let v = chars(s);
    let start: usize = if v.len() > 0 && v[0] == '+' { 1 } else { 0 };
    let ghost body = if s@.len() > 0 && s@[0] == '+' { s@.skip(1) } else { s@ };
    assert(body =~= s@.skip(start as int));
    if v.len() == start {
        return None;
    }
    let mut n: u64 = 0;
    let mut i: usize = start;
    while i < v.len()
        invariant
            v@ == s@,
            start <= i <= v.len(),
            body == s@.skip(start as int),
            forall|k: int| 0 <= k < i - start ==> is_digit(#[trigger] body[k]),
            n == dec_value(body.take(i - start)),
            n <= limit,
            body == (if s@.len() > 0 && s@[0] == '+' { s@.skip(1) } else { s@ }),
        decreases v.len() - i,
    {
        let c = v[i];
        assert(c == body[i - start]);
        if !('0' <= c && c <= '9') {
            assert(!is_digit(body[i - start]));
            return None;
        }
        let d: u64 = (c as u32 - 48) as u64;
        proof {
            assert(body.take(i + 1 - start).drop_last() =~= body.take(i - start));
        }
        if n > limit / 10 || (n == limit / 10 && d > limit % 10) {
            proof {
                assert(dec_value(body.take(i + 1 - start)) == n * 10 + d);
                assert(dec_value(body.take(i + 1 - start)) > limit);
                lemma_dec_value_grows(body, i + 1 - start);
            }
            return None;
        }
        n = n * 10 + d;
        i = i + 1;
    }
    assert(body.take(i - start) =~= body);
    Some(n)
}

/// Reading more characters never makes the value smaller.
proof fn lemma_dec_value_grows(s: Seq<char>, k: int)
    requires
        0 <= k <= s.len(),
    ensures
        dec_value(s.take(k)) <= dec_value(s) || !all_digits(s),
    decreases s.len() - k,
{
    if k == s.len() {
        assert(s.take(k) =~= s);
    } else {
        lemma_dec_value_grows(s, k + 1);
        assert(s.take(k + 1).drop_last() =~= s.take(k));
        if all_digits(s) {
            assert(is_digit(s[k]));
        }
    }
}

/// The characters of a string.
pub fn chars(s: &str) -> (v: Vec<char>)
    ensures
        v@ == s@,
{
    let mut v: Vec<char> = Vec::new();
    for c in it: s.chars()
        invariant
            it.seq() == s@,
            v@ == s@.take(it.index()),
    {
        v.push(c);
        assert(s@.take(it.index() + 1) =~= s@.take(it.index()).push(s@[it.index()]));
    }
    assert(s@.take(s@.len() as int) =~= s@);
    v
}

/// The string of the characters from `from` up to `to`.
pub fn string_of(v: &Vec<char>, from: usize, to: usize) -> (r: String)
    requires
        from <= to <= v.len(),
    ensures
        r@ == v@.subrange(from as int, to as int),
{
    let mut s = String::new();
    let mut i: usize = from;
    while i < to
        invariant
            from <= i <= to <= v.len(),
            s@ == v@.subrange(from as int, i as int),
        decreases to - i,
    {
        s.push(v[i]);
        assert(v@.subrange(from as int, i + 1) =~= v@.subrange(from as int, i as int).push(v@[i as int]));
        i = i + 1;
    }
    s
}

// ---------------------------------------------------------------------------
// Comparing and searching
// ---------------------------------------------------------------------------

/// The characters of each string of a list.
pub open spec fn texts(v: Seq<String>) -> Seq<Seq<char>> {
    v.map_values(|s: String| s@)
}

/// Whether two strings hold the same characters.
pub fn same(a: &str, b: &str) -> (r: bool)
    ensures
        r == (a@ == b@),
{
    a.to_owned() == b.to_owned()
}

/// `a` comes before `b` in the order of their code points.
pub open spec fn text_less(a: Seq<char>, b: Seq<char>) -> bool
    decreases a.len(),
{
    if b.len() == 0 {
        false
    } else if a.len() == 0 {
        true
    } else if a[0] != b[0] {
        (a[0] as int) < (b[0] as int)
    } else {
        text_less(a.skip(1), b.skip(1))
    }
}

/// `str`'s order: that of the UTF-8 bytes, which is that of the code points.
pub fn less(a: &str, b: &str) -> (r: bool)
    ensures
        r == text_less(a@, b@),
{
    let x = chars(a);
    let y = chars(b);
    let mut i: usize = 0;
    assert(a@.skip(0) =~= a@);
    assert(b@.skip(0) =~= b@);
    while i < x.len() && i < y.len()
        invariant
            x@ == a@,
            y@ == b@,
            i <= x.len(),
            i <= y.len(),
            text_less(a@, b@) == text_less(a@.skip(i as int), b@.skip(i as int)),
        decreases x.len() - i,
    {
        if x[i] != y[i] {
            let c = x[i];
            let d = y[i];
            assert(a@.skip(i as int)[0] == c && b@.skip(i as int)[0] == d);
            return c < d;
        }
        assert(a@.skip(i as int).skip(1) =~= a@.skip(i + 1));
        assert(b@.skip(i as int).skip(1) =~= b@.skip(i + 1));
        i = i + 1;
    }
    i < y.len()
}

pub proof fn lemma_text_less_irreflexive(a: Seq<char>)
    ensures
        !text_less(a, a),
    decreases a.len(),
{
    if a.len() > 0 {
        lemma_text_less_irreflexive(a.skip(1));
    }
}

pub proof fn lemma_text_less_total(a: Seq<char>, b: Seq<char>)
    ensures
        text_less(a, b) || text_less(b, a) || a == b,
    decreases a.len(),
{
    if a.len() == 0 {
        if b.len() == 0 {
            assert(a =~= b);
        }
    } else if b.len() > 0 && a[0] == b[0] {
        lemma_text_less_total(a.skip(1), b.skip(1));
        if a.skip(1) == b.skip(1) {
            assert(a =~= seq![a[0]] + a.skip(1));
            assert(b =~= seq![b[0]] + b.skip(1));
        }
    }
}

pub proof fn lemma_text_less_transitive(a: Seq<char>, b: Seq<char>, c: Seq<char>)
    requires
        text_less(a, b),
        text_less(b, c),
    ensures
        text_less(a, c),
    decreases a.len(),
{
    if a.len() > 0 && a[0] == b[0] && b[0] == c[0] {
        lemma_text_less_transitive(a.skip(1), b.skip(1), c.skip(1));
    }
}

pub proof fn lemma_text_less_asymmetric(a: Seq<char>, b: Seq<char>)
    requires
        text_less(a, b),
    ensures
        !text_less(b, a),
        a != b,
{
    lemma_text_less_irreflexive(a);
    if text_less(b, a) {
        lemma_text_less_transitive(a, b, a);
    }
}

/// `needle` stands in `s` at position `i`.
pub open spec fn occurs_at(s: Seq<char>, needle: Seq<char>, i: int) -> bool {
    0 <= i && i + needle.len() <= s.len() && s.subrange(i, i + needle.len()) == needle
}

pub open spec fn text_contains(s: Seq<char>, needle: Seq<char>) -> bool {
    exists|i: int| occurs_at(s, needle, i)
}

/// Whether `v` holds `w` at position `i`.
pub fn matches_at(v: &Vec<char>, w: &Vec<char>, i: usize) -> (r: bool)
    ensures
        r == occurs_at(v@, w@, i as int),
{
    if i > v.len() || w.len() > v.len() - i {
        return false;
    }
    let mut k: usize = 0;
    while k < w.len()
        invariant
            i + w.len() <= v.len(),
            k <= w.len(),
            forall|j: int| 0 <= j < k ==> v@[i + j] == #[trigger] w@[j],
        decreases w.len() - k,
    {
        if v[i + k] != w[k] {
            assert(v@.subrange(i as int, i + w.len())[k as int] != w@[k as int]);
            return false;
        }
        k = k + 1;
    }
    assert(v@.subrange(i as int, i + w.len()) =~= w@);
    true
}

/// The position of the first occurrence of `needle` from `from` on.
pub fn find_from(v: &Vec<char>, w: &Vec<char>, from: usize) -> (r: Option<usize>)
    ensures
        match r {
            Some(i) => {
                &&& from <= i
                &&& occurs_at(v@, w@, i as int)
                &&& forall|j: int| from <= j < i ==> !occurs_at(v@, w@, j)
            },
            None => forall|j: int| from <= j ==> !occurs_at(v@, w@, j),
        },
{
    let mut i: usize = from;
    while i <= v.len() && w.len() <= v.len() - i
        invariant
            from <= i,
            forall|j: int| from <= j < i ==> !occurs_at(v@, w@, j),
        decreases v.len() + 1 - i,
    {
        if matches_at(v, w, i) {
            return Some(i);
        }
        if i == v.len() {
            return None;
        }
        i = i + 1;
    }
    None
}

/// Whether `needle` occurs in `s`.
pub fn contains(s: &str, needle: &str) -> (r: bool)
    ensures
        r == text_contains(s@, needle@),
{
    let v = chars(s);
    let w = chars(needle);
    match find_from(&v, &w, 0) {
        Some(i) => true,
        None => {
            assert forall|j: int| !occurs_at(s@, needle@, j) by {
                if j >= 0 {
                    assert(!occurs_at(v@, w@, j));
                }
            }
            false
        },
    }
}

/// Whether `s` begins with `prefix`.
pub fn starts_with(s: &str, prefix: &str) -> (r: bool)
    ensures
        r == prefix@.is_prefix_of(s@),
{
    let v = chars(s);
    let w = chars(prefix);
    let r = matches_at(&v, &w, 0);
    proof {
        if w@.len() <= v@.len() {
            assert(v@.subrange(0, w@.len() as int) =~= v@.subrange(0, 0int + w@.len()));
        }
    }
    r
}

/// Whether `s` ends with `suffix`.
pub fn ends_with(s: &str, suffix: &str) -> (r: bool)
    ensures
        r == suffix@.is_suffix_of(s@),
{
    let v = chars(s);
    let w = chars(suffix);
    if w.len() > v.len() {
        return false;
    }
    let r = matches_at(&v, &w, v.len() - w.len());
    assert(v@.subrange(v@.len() - w@.len(), v@.len() - w@.len() + w@.len()) =~= v@.subrange(
        v@.len() - w@.len(),
        v@.len() as int,
    ));
    r
}

/// What follows `prefix` in `s`, where `s` begins with it.
pub fn strip_prefix<'a>(s: &'a str, prefix: &str) -> (r: Option<&'a str>)
    ensures
        match r {
            Some(t) => prefix@.is_prefix_of(s@) && t@ == s@.skip(prefix@.len() as int),
            None => !prefix@.is_prefix_of(s@),
        },
{
    if starts_with(s, prefix) {
        Some(s.substring_char(prefix.unicode_len(), s.unicode_len()))
    } else {
        None
    }
}

// ---------------------------------------------------------------------------
// Trimming and splitting
// ---------------------------------------------------------------------------

/// Unicode's White_Space property.
pub open spec fn is_space(c: char) -> bool {
    let n = c as int;
    ||| 0x09 <= n <= 0x0D
    ||| n == 0x20
    ||| n == 0x85
    ||| n == 0xA0
    ||| n == 0x1680
    ||| 0x2000 <= n <= 0x200A
    ||| n == 0x2028
    ||| n == 0x2029
    ||| n == 0x202F
    ||| n == 0x205F
    ||| n == 0x3000
}

pub fn space(c: char) -> (r: bool)
    ensures
        r == is_space(c),
{
    ('\u{9}' <= c && c <= '\u{D}') || c == '\u{20}' || c == '\u{85}' || c == '\u{A0}' || c
        == '\u{1680}' || ('\u{2000}' <= c && c <= '\u{200A}') || c == '\u{2028}' || c == '\u{2029}'
        || c == '\u{202F}' || c == '\u{205F}' || c == '\u{3000}'
}

pub open spec fn trim_start(s: Seq<char>) -> Seq<char>
    decreases s.len(),
{
    if s.len() > 0 && is_space(s[0]) {
        trim_start(s.skip(1))
    } else {
        s
    }
}

pub open spec fn trim_end(s: Seq<char>) -> Seq<char>
    decreases s.len(),
{
    if s.len() > 0 && is_space(s.last()) {
        trim_end(s.drop_last())
    } else {
        s
    }
}

/// `s` without the white space at either end.
pub open spec fn trimmed(s: Seq<char>) -> Seq<char> {
    trim_end(trim_start(s))
}

/// Trimming adds no character.
pub proof fn lemma_trimmed_is_part(s: Seq<char>, c: char)
    requires
        !s.contains(c),
    ensures
        !trimmed(s).contains(c),
{
    lemma_trim_start_is_part(s, c);
    lemma_trim_end_is_part(trim_start(s), c);
}

proof fn lemma_trim_start_is_part(s: Seq<char>, c: char)
    requires
        !s.contains(c),
    ensures
        !trim_start(s).contains(c),
    decreases s.len(),
{
    if s.len() > 0 && is_space(s[0]) {
        assert forall|i: int| 0 <= i < s.skip(1).len() implies s.skip(1)[i] != c by {
            assert(s.contains(s[i + 1]));
        }
        lemma_trim_start_is_part(s.skip(1), c);
    }
}

proof fn lemma_trim_end_is_part(s: Seq<char>, c: char)
    requires
        !s.contains(c),
    ensures
        !trim_end(s).contains(c),
    decreases s.len(),
{
    if s.len() > 0 && is_space(s.last()) {
        assert forall|i: int| 0 <= i < s.drop_last().len() implies s.drop_last()[i] != c by {
            assert(s.contains(s[i]));
        }
        lemma_trim_end_is_part(s.drop_last(), c);
    }
}

pub fn trim(s: &str) -> (r: String)
    ensures
        r@ == trimmed(s@),
{
    let v = chars(s);
    let mut i: usize = 0;
    assert(s@.skip(0) =~= s@);
    while i < v.len() && space(v[i])
        invariant
            v@ == s@,
            i <= v.len(),
            trim_start(s@) == trim_start(s@.skip(i as int)),
        decreases v.len() - i,
    {
        assert(s@.skip(i as int).skip(1) =~= s@.skip(i + 1));
        i = i + 1;
    }
    let mut j: usize = v.len();
    let ghost t = s@.skip(i as int);
    assert(trim_start(s@) == t);
    assert(t.take(j - i) =~= t);
    while j > i && space(v[j - 1])
        invariant
            v@ == s@,
            i <= j <= v.len(),
            t == s@.skip(i as int),
            trim_end(t) == trim_end(t.take(j - i)),
        decreases j,
    {
        assert(t.take(j - i).last() == v@[j - 1]);
        assert(t.take(j - i).drop_last() =~= t.take(j - 1 - i));
        j = j - 1;
    }
    assert(t.take(j - i) =~= s@.subrange(i as int, j as int));
    proof {
        if j > i {
            assert(t.take(j - i).last() == v@[j - 1]);
        }
    }
    string_of(&v, i, j)
}

/// The pieces of `s` between the occurrences of `c`, in order.
pub open spec fn split_on(s: Seq<char>, c: char) -> Seq<Seq<char>>
    decreases s.len(),
{
    if s.len() == 0 {
        seq![Seq::<char>::empty()]
    } else {
        let p = split_on(s.drop_last(), c);
        if s.last() == c {
            p.push(Seq::<char>::empty())
        } else {
            p.drop_last().push(p.last().push(s.last()))
        }
    }
}

pub proof fn lemma_split_on_nonempty(s: Seq<char>, c: char)
    ensures
        split_on(s, c).len() > 0,
    decreases s.len(),
{
    if s.len() > 0 {
        lemma_split_on_nonempty(s.drop_last(), c);
    }
}

/// A text without `c` is one piece.
pub proof fn lemma_split_on_plain(s: Seq<char>, c: char)
    requires
        !s.contains(c),
    ensures
        split_on(s, c) == seq![s],
    decreases s.len(),
{
    if s.len() == 0 {
        assert(s =~= Seq::<char>::empty());
    } else {
        let front = s.drop_last();
        assert forall|i: int| 0 <= i < front.len() implies front[i] != c by {
            assert(s.contains(s[i]));
        }
        assert(s.contains(s.last()));
        lemma_split_on_plain(front, c);
        assert(front.push(s.last()) =~= s);
        assert(split_on(s, c) =~= seq![s]);
    }
}

/// The pieces of two texts with `c` between them are those of both.
pub proof fn lemma_split_on_append(a: Seq<char>, b: Seq<char>, c: char)
    ensures
        split_on(a + seq![c] + b, c) == split_on(a, c) + split_on(b, c),
    decreases b.len(),
{
    let s = a + seq![c] + b;
    lemma_split_on_nonempty(a, c);
    lemma_split_on_nonempty(b, c);
    if b.len() == 0 {
        assert(s.drop_last() =~= a);
        assert(split_on(s, c) =~= split_on(a, c) + split_on(b, c));
    } else {
        let front = b.drop_last();
        assert(s.drop_last() =~= a + seq![c] + front);
        lemma_split_on_append(a, front, c);
        lemma_split_on_nonempty(front, c);
        let p = split_on(a, c) + split_on(front, c);
        assert(p.last() == split_on(front, c).last());
        assert(p.drop_last() =~= split_on(a, c) + split_on(front, c).drop_last());
        assert(split_on(s, c) =~= split_on(a, c) + split_on(b, c));
    }
}

/// The pieces of a text, joined again, are the text.
pub proof fn lemma_joined_split(s: Seq<char>, c: char)
    ensures
        joined(split_on(s, c), seq![c]) == s,
    decreases s.len(),
{
    let sep = seq![c];
    if s.len() == 0 {
        assert(joined(split_on(s, c), sep) =~= s);
    } else {
        let front = s.drop_last();
        let p = split_on(front, c);
        lemma_joined_split(front, c);
        lemma_split_on_nonempty(front, c);
        if s.last() == c {
            let q = p.push(Seq::<char>::empty());
            assert(q.drop_last() =~= p);
            assert(joined(q, sep) =~= s);
        } else {
            let q = p.drop_last().push(p.last().push(s.last()));
            assert(q.drop_last() =~= p.drop_last());
            assert(q.last() == p.last().push(s.last()));
            if p.len() == 1 {
                assert(joined(q, sep) == p[0].push(s.last()));
            } else {
                assert(joined(p, sep) == joined(p.drop_last(), sep) + sep + p.last());
                assert(joined(q, sep) == joined(q.drop_last(), sep) + sep + q.last());
            }
            assert(joined(q, sep) =~= front.push(s.last()));
            assert(front.push(s.last()) =~= s);
        }
    }
}

pub proof fn lemma_texts_push(v: Seq<String>, s: String)
    ensures
        texts(v.push(s)) == texts(v).push(s@),
{
    assert(texts(v.push(s)) =~= texts(v).push(s@));
}

pub fn split(s: &str, c: char) -> (r: Vec<String>)
    ensures
        texts(r@) == split_on(s@, c),
{
    let v = chars(s);
    let mut out: Vec<String> = Vec::new();
    let mut cur = String::new();
    let mut i: usize = 0;
    assert(s@.take(0) =~= Seq::<char>::empty());
    assert(texts(out@).push(cur@) =~= split_on(s@.take(0), c));
    while i < v.len()
        invariant
            v@ == s@,
            i <= v.len(),
            texts(out@).push(cur@) == split_on(s@.take(i as int), c),
        decreases v.len() - i,
    {
        assert(s@.take(i + 1).drop_last() =~= s@.take(i as int));
        let ghost before = texts(out@).push(cur@);
        assert(before.drop_last() =~= texts(out@));
        assert(before.last() == cur@);
        if v[i] == c {
            proof {
                lemma_texts_push(out@, cur);
            }
            out.push(cur);
            cur = String::new();
            assert(cur@ =~= Seq::<char>::empty());
        } else {
            cur.push(v[i]);
        }
        i = i + 1;
    }
    assert(s@.take(i as int) =~= s@);
    proof {
        lemma_texts_push(out@, cur);
    }
    out.push(cur);
    out
}

/// The pieces of `s` between its white-space characters, empty ones included.
pub open spec fn split_space(s: Seq<char>) -> Seq<Seq<char>>
    decreases s.len(),
{
    if s.len() == 0 {
        seq![Seq::<char>::empty()]
    } else {
        let p = split_space(s.drop_last());
        if is_space(s.last()) {
            p.push(Seq::<char>::empty())
        } else {
            p.drop_last().push(p.last().push(s.last()))
        }
    }
}

/// The parts of a list that are not empty.
pub open spec fn nonempty(p: Seq<Seq<char>>) -> Seq<Seq<char>> {
    p.filter(|w: Seq<char>| w.len() > 0)
}

/// The words of `s`: what stands between runs of white space.
pub open spec fn words_of(s: Seq<char>) -> Seq<Seq<char>> {
    nonempty(split_space(s))
}

pub proof fn lemma_nonempty_push(p: Seq<Seq<char>>, w: Seq<char>)
    ensures
        nonempty(p.push(w)) == (if w.len() > 0 { nonempty(p).push(w) } else { nonempty(p) }),
{
    p.lemma_filter_push(w, |w: Seq<char>| w.len() > 0);
}

pub fn words(s: &str) -> (r: Vec<String>)
    ensures
        texts(r@) == words_of(s@),
{
    let v = chars(s);
    let mut out: Vec<String> = Vec::new();
    let ghost mut done: Seq<Seq<char>> = Seq::empty();
    let mut cur = String::new();
    let mut i: usize = 0;
    assert(s@.take(0) =~= Seq::<char>::empty());
    assert(done.push(cur@) =~= split_space(s@.take(0)));
    assert(texts(out@) =~= nonempty(done)) by {
        reveal(Seq::filter);
    }
    while i < v.len()
        invariant
            v@ == s@,
            i <= v.len(),
            done.push(cur@) == split_space(s@.take(i as int)),
            texts(out@) == nonempty(done),
        decreases v.len() - i,
    {
        assert(s@.take(i + 1).drop_last() =~= s@.take(i as int));
        let ghost before = done.push(cur@);
        assert(before.drop_last() =~= done);
        assert(before.last() == cur@);
        if space(v[i]) {
            proof {
                lemma_nonempty_push(done, cur@);
                lemma_texts_push(out@, cur);
                done = done.push(cur@);
            }
            if !cur.as_str().is_empty() {
                out.push(cur);
            }
            cur = String::new();
            assert(cur@ =~= Seq::<char>::empty());
        } else {
            cur.push(v[i]);
        }
        i = i + 1;
    }
    assert(s@.take(i as int) =~= s@);
    proof {
        lemma_nonempty_push(done, cur@);
        lemma_texts_push(out@, cur);
    }
    if !cur.as_str().is_empty() {
        out.push(cur);
    }
    out
}

/// A line without the carriage return before its line feed.
pub open spec fn strip_return(l: Seq<char>) -> Seq<char> {
    if l.len() > 0 && l.last() == '\r' {
        l.drop_last()
    } else {
        l
    }
}

/// The lines of `s`: each ends in a line feed, or a carriage return and a line
/// feed; the ending is optional for the last one.
pub open spec fn lines_of(s: Seq<char>) -> Seq<Seq<char>> {
    let p = split_on(s, '\n');
    let full = p.drop_last().map_values(|l: Seq<char>| strip_return(l));
    if p.last().len() == 0 {
        full
    } else {
        full.push(p.last())
    }
}

/// A line that is put behind whole lines becomes the last one.
pub proof fn lemma_lines_push(s: Seq<char>, line: Seq<char>)
    requires
        s.len() == 0 || s.last() == '\n',
        line.len() > 0,
        line.last() != '\r',
        !line.contains('\n'),
    ensures
        lines_of(s + line + seq!['\n']) == lines_of(s).push(line),
{
    let none = Seq::<char>::empty();
    let f = |l: Seq<char>| strip_return(l);
    let all = s + line + seq!['\n'];
    let p = split_on(all, '\n');
    lemma_split_on_plain(line, '\n');
    assert(all.drop_last() =~= s + line);
    assert(p == split_on(s + line, '\n').push(none));
    assert(p.drop_last() =~= split_on(s + line, '\n'));
    if s.len() == 0 {
        assert(s + line =~= line);
        assert(lines_of(s) =~= Seq::<Seq<char>>::empty());
        assert(lines_of(all) =~= seq![line]);
    } else {
        let front = s.drop_last();
        assert(s + line =~= front + seq!['\n'] + line);
        lemma_split_on_append(front, line, '\n');
        let q = split_on(front, '\n');
        assert(split_on(s, '\n') == q.push(none));
        assert(q.push(none).drop_last() =~= q);
        assert(lines_of(s) == q.map_values(f));
        assert((q + seq![line]).map_values(f) =~= q.map_values(f).push(line));
    }
    assert(lines_of(all) =~= lines_of(s).push(line));
}

pub fn lines(s: &str) -> (r: Vec<String>)
    ensures
        texts(r@) == lines_of(s@),
{
    let p = split(s, '\n');
    let ghost parts = texts(p@);
    proof {
        lemma_split_on_nonempty(s@, '\n');
    }
    let mut out: Vec<String> = Vec::new();
    let mut i: usize = 0;
    while i + 1 < p.len()
        invariant
            parts == texts(p@),
            i < p.len(),
            texts(out@) =~= parts.take(i as int).map_values(|l: Seq<char>| strip_return(l)),
        decreases p.len() - i,
    {
        let v = chars(p[i].as_str());
        assert(parts[i as int] == v@);
        let piece = if v.len() > 0 && v[v.len() - 1] == '\r' {
            assert(v@.subrange(0, v@.len() - 1) =~= v@.drop_last());
            string_of(&v, 0, v.len() - 1)
        } else {
            p[i].clone()
        };
        proof {
            lemma_texts_push(out@, piece);
            assert(parts.take(i + 1) =~= parts.take(i as int).push(parts[i as int]));
        }
        out.push(piece);
        i = i + 1;
    }
    let last = p[i].clone();
    assert(parts.take(i as int) =~= parts.drop_last());
    assert(last@ == parts.last());
    if !last.as_str().is_empty() {
        proof {
            lemma_texts_push(out@, last);
        }
        out.push(last);
    }
    out
}

// ---------------------------------------------------------------------------
// Joining and padding
// ---------------------------------------------------------------------------

/// The parts one after another, with `sep` between each two.
pub open spec fn joined(parts: Seq<Seq<char>>, sep: Seq<char>) -> Seq<char>
    decreases parts.len(),
{
    if parts.len() == 0 {
        Seq::empty()
    } else if parts.len() == 1 {
        parts[0]
    } else {
        joined(parts.drop_last(), sep) + sep + parts.last()
    }
}

pub fn join(v: &Vec<String>, sep: &str) -> (r: String)
    ensures
        r@ == joined(texts(v@), sep@),
{
    let mut s = String::new();
    let mut i: usize = 0;
    let ghost parts = texts(v@);
    assert(parts.take(0) =~= Seq::<Seq<char>>::empty());
    while i < v.len()
        invariant
            i <= v.len(),
            parts == texts(v@),
            s@ == joined(parts.take(i as int), sep@),
        decreases v.len() - i,
    {
        assert(parts.take(i + 1).drop_last() =~= parts.take(i as int));
        assert(parts.take(i + 1).last() == v@[i as int]@);
        if i > 0 {
            s = s.concat(sep);
        }
        s = s.concat(v[i].as_str());
        proof {
            if i == 0 {
                assert(s@ =~= v@[0]@);
            }
        }
        i = i + 1;
    }
    assert(parts.take(i as int) =~= parts);
    s
}

/// `n` spaces.
pub open spec fn spaces(n: nat) -> Seq<char> {
    Seq::new(n, |i: int| ' ')
}

/// The number of spaces that bring a text of `len` characters to `width`.
pub open spec fn missing(len: nat, width: nat) -> nat {
    if len < width {
        (width - len) as nat
    } else {
        0
    }
}

/// `s` followed by spaces up to `width` characters; longer text stays as it is.
pub open spec fn padded_right(s: Seq<char>, width: nat) -> Seq<char> {
    s + spaces(missing(s.len(), width))
}

/// `s` preceded by spaces up to `width` characters.
pub open spec fn padded_left(s: Seq<char>, width: nat) -> Seq<char> {
    spaces(missing(s.len(), width)) + s
}

fn blanks(n: usize) -> (r: String)
    ensures
        r@ == spaces(n as nat),
{
    let mut s = String::new();
    let mut i: usize = 0;
    while i < n
        invariant
            i <= n,
            s@ =~= spaces(i as nat),
        decreases n - i,
    {
        s.push(' ');
        i = i + 1;
    }
    s
}

pub fn pad_right(s: &str, width: usize) -> (r: String)
    ensures
        r@ == padded_right(s@, width as nat),
{
    let n = s.unicode_len();
    let fill = blanks(if n < width { width - n } else { 0 });
    s.to_owned().concat(fill.as_str())
}

pub fn pad_left(s: &str, width: usize) -> (r: String)
    ensures
        r@ == padded_left(s@, width as nat),
{
    let n = s.unicode_len();
    blanks(if n < width { width - n } else { 0 }).concat(s)
}

/// The decimal notation of `n` with zeros in front up to `width` digits.
pub open spec fn dec_padded(n: nat, width: nat) -> Seq<char> {
    Seq::new(missing(dec(n).len(), width), |i: int| '0') + dec(n)
}

pub fn decimal_padded(n: u64, width: usize) -> (r: String)
    ensures
        r@ == dec_padded(n as nat, width as nat),
{
    let d = decimal(n);
    let len = d.as_str().unicode_len();
    let fill: usize = if len < width { width - len } else { 0 };
    let mut s = String::new();
    let mut i: usize = 0;
    while i < fill
        invariant
            i <= fill,
            s@ =~= Seq::new(i as nat, |k: int| '0'),
        decreases fill - i,
    {
        s.push('0');
        i = i + 1;
    }
    s.concat(d.as_str())
}

/// The length of a text in UTF-8.
pub open spec fn byte_len(s: Seq<char>) -> nat {
    vstd::utf8::encode_utf8(s).len()
}

pub fn bytes_in(s: &str) -> (r: usize)
    ensures
        r == byte_len(s@),
{
    s.as_bytes().len()
}

/// `s` with each `from` replaced by `to`.
pub open spec fn replaced(s: Seq<char>, from: char, to: Seq<char>) -> Seq<char>
    decreases s.len(),
{
    if s.len() == 0 {
        Seq::empty()
    } else {
        replaced(s.drop_last(), from, to) + (if s.last() == from { to } else { seq![s.last()] })
    }
}

/// Replacing a character by a text without it leaves none.
pub proof fn lemma_replaced_away(s: Seq<char>, from: char, to: Seq<char>)
    requires
        !to.contains(from),
    ensures
        !replaced(s, from, to).contains(from),
    decreases s.len(),
{
    if s.len() > 0 {
        lemma_replaced_away(s.drop_last(), from, to);
        let head = replaced(s.drop_last(), from, to);
        let tail = if s.last() == from {
            to
        } else {
            seq![s.last()]
        };
        assert forall|i: int| 0 <= i < (head + tail).len() implies (head + tail)[i] != from by {
            if i < head.len() {
                assert(head.contains(head[i]));
            } else {
                assert(tail.contains(tail[i - head.len()]));
                assert(s.last() != from ==> tail[i - head.len()] == s.last());
            }
        }
    }
}

pub fn replace(s: &str, from: char, to: &str) -> (r: String)
    ensures
        r@ == replaced(s@, from, to@),
{
    let v = chars(s);
    let mut out = String::new();
    let mut i: usize = 0;
    assert(s@.take(0) =~= Seq::<char>::empty());
    while i < v.len()
        invariant
            v@ == s@,
            i <= v.len(),
            out@ == replaced(s@.take(i as int), from, to@),
        decreases v.len() - i,
    {
        assert(s@.take(i + 1).drop_last() =~= s@.take(i as int));
        let ghost before = out@;
        if v[i] == from {
            out = out.concat(to);
        } else {
            out.push(v[i]);
            assert(out@ =~= before + seq![v@[i as int]]);
        }
        i = i + 1;
    }
    assert(s@.take(i as int) =~= s@);
    out
}

/// The character with the ASCII letters `A` to `Z` in lower case.
pub open spec fn ascii_lower(c: char) -> char {
    if 'A' <= c && c <= 'Z' {
        (c as int + 32) as char
    } else {
        c
    }
}

pub open spec fn ascii_lowered(s: Seq<char>) -> Seq<char> {
    s.map_values(|c: char| ascii_lower(c))
}

pub fn ascii_lowercase(s: &str) -> (r: String)
    ensures
        r@ == ascii_lowered(s@),
{
    let v = chars(s);
    let mut out = String::new();
    let mut i: usize = 0;
    while i < v.len()
        invariant
            v@ == s@,
            i <= v.len(),
            out@ =~= ascii_lowered(s@.take(i as int)),
        decreases v.len() - i,
    {
        let c = v[i];
        let l = if 'A' <= c && c <= 'Z' {
            ((c as u8) + 32) as char
        } else {
            c
        };
        assert(s@.take(i + 1) =~= s@.take(i as int).push(c));
        out.push(l);
        i = i + 1;
    }
    assert(s@.take(i as int) =~= s@);
    out
}

// ---------------------------------------------------------------------------
// Lists of lines
// ---------------------------------------------------------------------------

/// Puts a line at the end of a list.
pub fn push_line(lines: &mut Vec<String>, line: String)
    ensures
        texts(final(lines)@) == texts(old(lines)@).push(line@),
{
    proof {
        lemma_texts_push(lines@, line);
    }
    lines.push(line);
}

/// Each text with `prefix` in front.
pub open spec fn prefixed(prefix: Seq<char>, items: Seq<Seq<char>>) -> Seq<Seq<char>> {
    items.map_values(|s: Seq<char>| prefix + s)
}

/// Puts the items at the end of a list, each with `prefix` in front.
pub fn push_prefixed(lines: &mut Vec<String>, prefix: &str, items: &Vec<String>)
    ensures
        texts(final(lines)@) == texts(old(lines)@) + prefixed(prefix@, texts(items@)),
{
    let ghost head = texts(lines@);
    let ghost all = texts(items@);
    let mut i: usize = 0;
    assert(head + prefixed(prefix@, all.take(0)) =~= head);
    while i < items.len()
        invariant
            i <= items.len(),
            all == texts(items@),
            texts(lines@) == head + prefixed(prefix@, all.take(i as int)),
        decreases items.len() - i,
    {
        assert(all.take(i + 1) =~= all.take(i as int).push(all[i as int]));
        push_line(lines, prefix.to_owned().concat(items[i].as_str()));
        assert(texts(lines@) =~= head + prefixed(prefix@, all.take(i + 1)));
        i = i + 1;
    }
    assert(all.take(i as int) =~= all);
}

/// Appends the items to a list.
pub fn push_all(lines: &mut Vec<String>, items: &Vec<String>)
    ensures
        texts(final(lines)@) == texts(old(lines)@) + texts(items@),
{
    push_prefixed(lines, "", items);
    proof {
        reveal_strlit("");
        assert forall|i: int| 0 <= i < items@.len() implies #[trigger] prefixed(
            ""@,
            texts(items@),
        )[i] == texts(items@)[i] by {
            assert(""@ + texts(items@)[i] =~= texts(items@)[i]);
        }
        assert(prefixed(""@, texts(items@)) =~= texts(items@));
    }
}

/// The texts of a list of string slices.
pub open spec fn slices(v: Seq<&str>) -> Seq<Seq<char>> {
    v.map_values(|s: &str| s@)
}

/// Whether a list of strings holds `s`.
pub fn list_contains(v: &Vec<String>, s: &str) -> (r: bool)
    ensures
        r == texts(v@).contains(s@),
{
    let mut i: usize = 0;
    while i < v.len()
        invariant
            i <= v.len(),
            forall|k: int| 0 <= k < i ==> #[trigger] texts(v@)[k] != s@,
        decreases v.len() - i,
    {
        if same(v[i].as_str(), s) {
            assert(texts(v@)[i as int] == s@);
            return true;
        }
        assert(texts(v@)[i as int] != s@);
        i = i + 1;
    }
    false
}

/// Putting sequences behind each other one by one or all at once is the same.
pub proof fn lemma_append_two<A>(a: Seq<A>, b: Seq<A>, c: Seq<A>, d: Seq<A>)
    ensures
        a + b + c + d == a + (b + c + d),
        a + b + c == a + (b + c),
{
    assert(a + b + c + d =~= a + (b + c + d));
    assert(a + b + c =~= a + (b + c));
}

/// One text comes before another exactly where they part: at the first character in
/// which they differ it has the smaller one, or it ends there and the other goes
/// on.
pub proof fn law_text_order_is_by_the_first_difference(
    head: Seq<char>,
    c: char,
    d: char,
    a: Seq<char>,
    b: Seq<char>,
)
    ensures
        c != d ==> (text_less(head + seq![c] + a, head + seq![d] + b) <==> (c as int) < (d as int)),
        text_less(head, head + seq![c] + a),
        !text_less(head + seq![c] + a, head),
    decreases head.len(),
{
    let x = head + seq![c] + a;
    let y = head + seq![d] + b;
    if head.len() > 0 {
        let t = head.skip(1);
        law_text_order_is_by_the_first_difference(t, c, d, a, b);
        assert(x.skip(1) =~= t + seq![c] + a);
        assert(y.skip(1) =~= t + seq![d] + b);
        assert(x[0] == head[0] && y[0] == head[0]);
    } else {
        assert(x[0] == c && y[0] == d);
    }
}

/// A part of a text stands in it.
pub proof fn lemma_part_occurs(a: Seq<char>, s: Seq<char>, b: Seq<char>)
    ensures
        occurs_at(a + s + b, s, a.len() as int),
        text_contains(a + s + b, s),
{
    let w = a + s + b;
    assert(w.subrange(a.len() as int, (a.len() + s.len()) as int) =~= s);
    assert(occurs_at(w, s, a.len() as int));
}

/// What stands in a part of a text stands in the text.
pub proof fn lemma_contains_in_part(a: Seq<char>, s: Seq<char>, b: Seq<char>, needle: Seq<char>)
    requires
        text_contains(s, needle),
    ensures
        text_contains(a + s + b, needle),
{
    let w = a + s + b;
    let i = choose|i: int| occurs_at(s, needle, i);
    assert(w.subrange(a.len() + i, a.len() + i + needle.len()) =~= s.subrange(
        i,
        i + needle.len(),
    ));
    assert(occurs_at(w, needle, a.len() + i));
}

/// What stands in either part of a text stands in the text.
pub proof fn lemma_contains_either(a: Seq<char>, b: Seq<char>, needle: Seq<char>)
    requires
        text_contains(a, needle) || text_contains(b, needle),
    ensures
        text_contains(a + b, needle),
{
    let none = Seq::<char>::empty();
    if text_contains(a, needle) {
        lemma_contains_in_part(none, a, b, needle);
        assert(none + a + b =~= a + b);
    } else {
        lemma_contains_in_part(a, b, none, needle);
        assert(a + b + none =~= a + b);
    }
}

/// A padded text contains the text.
pub proof fn lemma_padded_contains(s: Seq<char>, width: nat)
    ensures
        text_contains(s, s),
        text_contains(padded_right(s, width), s),
        text_contains(padded_left(s, width), s),
{
    let none = Seq::<char>::empty();
    lemma_part_occurs(none, s, none);
    assert(none + s + none =~= s);
    let f = spaces(missing(s.len(), width));
    lemma_contains_either(s, f, s);
    lemma_contains_either(f, s, s);
}

/// A line of either part is a line of both together.
pub proof fn lemma_line_of_either(a: Seq<Seq<char>>, b: Seq<Seq<char>>, x: Seq<char>)
    ensures
        a.contains(x) || b.contains(x) <==> (a + b).contains(x),
{
    let c = a + b;
    if a.contains(x) {
        let i = choose|i: int| 0 <= i < a.len() && a[i] == x;
        assert(c[i] == x);
    }
    if b.contains(x) {
        let i = choose|i: int| 0 <= i < b.len() && b[i] == x;
        assert(c[a.len() + i] == x);
    }
    if c.contains(x) {
        let i = choose|i: int| 0 <= i < c.len() && c[i] == x;
        if i < a.len() {
            assert(a[i] == x);
        } else {
            assert(b[i - a.len()] == x);
        }
    }
}

/// A number is read back from its digits, with a plus sign in front or without,
/// exactly where it is within the limit.
pub proof fn law_numbers_are_read_back(n: nat, limit: nat)
    ensures
        number_text(dec(n), limit) == (if n <= limit {
            Some(n)
        } else {
            None
        }),
        number_text(seq!['+'] + dec(n), limit) == number_text(dec(n), limit),
        number_text(Seq::empty(), limit) is None,
{
    lemma_dec_value(n);
    assert(is_digit(dec(n)[0]));
    assert((seq!['+'] + dec(n)).skip(1) =~= dec(n));
}

/// Whether a text is white space only.
pub open spec fn all_space(s: Seq<char>) -> bool {
    forall|i: int| 0 <= i < s.len() ==> is_space(#[trigger] s[i])
}

pub proof fn lemma_trim_start_drops(pre: Seq<char>, t: Seq<char>)
    requires
        all_space(pre),
        t.len() == 0 || !is_space(t[0]),
    ensures
        trim_start(pre + t) == t,
    decreases pre.len(),
{
    let s = pre + t;
    if pre.len() > 0 {
        assert(s[0] == pre[0]);
        assert(s.skip(1) =~= pre.skip(1) + t);
        lemma_trim_start_drops(pre.skip(1), t);
    } else {
        assert(s =~= t);
    }
}

proof fn lemma_trim_end_drops(t: Seq<char>, post: Seq<char>)
    requires
        all_space(post),
        t.len() == 0 || !is_space(t.last()),
    ensures
        trim_end(t + post) == t,
    decreases post.len(),
{
    let s = t + post;
    if post.len() > 0 {
        assert(s.last() == post.last());
        assert(s.drop_last() =~= t + post.drop_last());
        lemma_trim_end_drops(t, post.drop_last());
    } else {
        assert(s =~= t);
    }
}

/// Trimming takes away the white space at both ends and nothing else.
pub proof fn law_trimming_drops_the_outer_space(pre: Seq<char>, t: Seq<char>, post: Seq<char>)
    requires
        all_space(pre),
        all_space(post),
        t.len() > 0 ==> !is_space(t[0]) && !is_space(t.last()),
    ensures
        trimmed(pre + t + post) == t,
{
    let none = Seq::<char>::empty();
    if t.len() == 0 {
        assert(pre + t + post =~= (pre + post) + none);
        assert forall|i: int| 0 <= i < (pre + post).len() implies is_space(
            #[trigger] (pre + post)[i],
        ) by {
            if i < pre.len() {
                assert(is_space(pre[i]));
            } else {
                assert(is_space(post[i - pre.len()]));
            }
        }
        lemma_trim_start_drops(pre + post, none);
        assert(t =~= none);
    } else {
        assert(pre + t + post =~= pre + (t + post));
        lemma_trim_start_drops(pre, t + post);
        lemma_trim_end_drops(t, post);
    }
}

/// The blank, the tabulator and the ends of a line are white space; no visible
/// character of ASCII is.
pub proof fn law_visible_characters_are_no_space(c: char)
    requires
        (c as int) < 0x7f,
    ensures
        is_space(c) <==> c == ' ' || c == '\t' || c == '\n' || c == '\r' || c as int == 0x0b
            || c as int == 0x0c,
{
}

/// A padded text keeps what it says at its one end and has blanks up to the width at
/// the other; one that is wide enough stays as it is.
pub proof fn law_padding_fills_with_blanks(s: Seq<char>, width: nat)
    ensures
        padded_right(s, width).len() == (if s.len() < width {
            width
        } else {
            s.len()
        }),
        padded_left(s, width).len() == padded_right(s, width).len(),
        padded_right(s, width).take(s.len() as int) == s,
        padded_left(s, width).skip(padded_left(s, width).len() - s.len()) == s,
        forall|i: int|
            s.len() <= i < padded_right(s, width).len() ==> #[trigger] padded_right(s, width)[i]
                == ' ',
        forall|i: int|
            0 <= i < padded_left(s, width).len() - s.len() ==> #[trigger] padded_left(s, width)[i]
                == ' ',
{
    assert(padded_right(s, width).take(s.len() as int) =~= s);
    assert(padded_left(s, width).skip(padded_left(s, width).len() - s.len()) =~= s);
}

proof fn lemma_leading_zeros(k: nat, s: Seq<char>)
    ensures
        dec_value(Seq::new(k, |i: int| '0') + s) == dec_value(s),
    decreases k + s.len(),
{
    let z = Seq::new(k, |i: int| '0');
    let w = z + s;
    if s.len() > 0 {
        lemma_leading_zeros(k, s.drop_last());
        assert(w.drop_last() =~= z + s.drop_last());
    } else if k > 0 {
        let k1 = (k - 1) as nat;
        lemma_leading_zeros(k1, s);
        assert(w.drop_last() =~= Seq::new(k1, |i: int| '0') + s);
        assert(w.last() == '0');
    } else {
        assert(w =~= s);
    }
}

/// A padded number has at least the digits that were asked for, and is the same
/// number.
pub proof fn law_leading_zeros_change_nothing(n: nat, width: nat)
    ensures
        dec_value(dec_padded(n, width)) == n,
        all_digits(dec_padded(n, width)),
        dec_padded(n, width).len() == (if dec(n).len() < width {
            width
        } else {
            dec(n).len()
        }),
{
    lemma_dec_value(n);
    let k = missing(dec(n).len(), width);
    lemma_leading_zeros(k, dec(n));
    assert(Seq::new(k, |i: int| '0') + dec(n) =~= dec_padded(n, width));
}

/// Replacing goes through a text part by part: the character itself becomes what
/// replaces it, and a part without it stays as it is.
pub proof fn law_replacing_is_by_character(a: Seq<char>, b: Seq<char>, from: char, to: Seq<char>)
    ensures
        replaced(a + seq![from] + b, from, to) == replaced(a, from, to) + to + replaced(b, from, to),
        !a.contains(from) ==> replaced(a, from, to) == a,
    decreases a.len() + b.len(),
{
    let s = a + seq![from] + b;
    if b.len() > 0 {
        law_replacing_is_by_character(a, b.drop_last(), from, to);
        assert(s.drop_last() =~= a + seq![from] + b.drop_last());
        assert(replaced(s, from, to) =~= replaced(a, from, to) + to + replaced(b, from, to));
    } else {
        assert(s.drop_last() =~= a);
        assert(replaced(s, from, to) =~= replaced(a, from, to) + to + replaced(b, from, to));
    }
    if !a.contains(from) {
        lemma_replaced_without(a, from, to);
    }
}

proof fn lemma_replaced_without(a: Seq<char>, from: char, to: Seq<char>)
    requires
        !a.contains(from),
    ensures
        replaced(a, from, to) == a,
    decreases a.len(),
{
    if a.len() > 0 {
        assert(a.contains(a.last()));
        assert forall|i: int| 0 <= i < a.len() - 1 implies a.drop_last()[i] != from by {
            assert(a.contains(a[i]));
        }
        lemma_replaced_without(a.drop_last(), from, to);
        assert(replaced(a, from, to) =~= a);
    } else {
        assert(replaced(a, from, to) =~= a);
    }
}

/// Lower case in ASCII moves each capital letter by thirty-two and no other
/// character, so that no capital letter is left.
pub proof fn law_ascii_capitals_are_lowered(s: Seq<char>, i: int)
    requires
        0 <= i < s.len(),
    ensures
        ascii_lowered(s).len() == s.len(),
        65 <= s[i] as int <= 90 ==> ascii_lowered(s)[i] as int == s[i] as int + 32,
        !(65 <= s[i] as int <= 90) ==> ascii_lowered(s)[i] == s[i],
{
}

proof fn lemma_split_space_nonempty(s: Seq<char>)
    ensures
        split_space(s).len() > 0,
    decreases s.len(),
{
    if s.len() > 0 {
        lemma_split_space_nonempty(s.drop_last());
    }
}

proof fn lemma_split_space_append(a: Seq<char>, c: char, b: Seq<char>)
    requires
        is_space(c),
    ensures
        split_space(a + seq![c] + b) == split_space(a) + split_space(b),
    decreases b.len(),
{
    let s = a + seq![c] + b;
    lemma_split_space_nonempty(a);
    lemma_split_space_nonempty(b);
    if b.len() == 0 {
        assert(s.drop_last() =~= a);
        assert(split_space(s) =~= split_space(a) + split_space(b));
    } else {
        let front = b.drop_last();
        lemma_split_space_append(a, c, front);
        lemma_split_space_nonempty(front);
        assert(s.drop_last() =~= a + seq![c] + front);
        let p = split_space(a) + split_space(front);
        assert(p.drop_last() =~= split_space(a) + split_space(front).drop_last());
        assert(split_space(s) =~= split_space(a) + split_space(b));
    }
}

proof fn lemma_split_space_plain(a: Seq<char>)
    requires
        forall|i: int| 0 <= i < a.len() ==> !is_space(#[trigger] a[i]),
    ensures
        split_space(a) == seq![a],
    decreases a.len(),
{
    if a.len() > 0 {
        let front = a.drop_last();
        assert forall|i: int| 0 <= i < front.len() implies !is_space(#[trigger] front[i]) by {
            assert(front[i] == a[i]);
        }
        lemma_split_space_plain(front);
        assert(front.push(a.last()) =~= a);
        assert(split_space(a) =~= seq![a]);
    } else {
        assert(a =~= Seq::<char>::empty());
        assert(split_space(a) =~= seq![a]);
    }
}

/// The words of a text are those before and those after any of its white space; a
/// text without white space is one word, or none where it is empty.
pub proof fn law_words_are_parted_by_space(a: Seq<char>, c: char, b: Seq<char>)
    ensures
        is_space(c) ==> words_of(a + seq![c] + b) == words_of(a) + words_of(b),
        (forall|i: int| 0 <= i < a.len() ==> !is_space(#[trigger] a[i])) ==> words_of(a) == (
        if a.len() > 0 {
            seq![a]
        } else {
            Seq::<Seq<char>>::empty()
        }),
{
    let f = |w: Seq<char>| w.len() > 0;
    if is_space(c) {
        lemma_split_space_append(a, c, b);
        Seq::filter_distributes_over_add(split_space(a), split_space(b), f);
    }
    if forall|i: int| 0 <= i < a.len() ==> !is_space(#[trigger] a[i]) {
        lemma_split_space_plain(a);
        reveal(Seq::filter);
        let one = seq![a];
        assert(one.drop_last() =~= Seq::<Seq<char>>::empty());
        assert(one.drop_last().filter(f) =~= Seq::<Seq<char>>::empty());
        assert(one.filter(f) =~= (if a.len() > 0 {
            seq![a]
        } else {
            Seq::<Seq<char>>::empty()
        }));
    }
}

/// The first line of a text ends at the first line feed, a carriage return before it
/// does not count, and the other lines are those of the rest. What follows the last
/// line feed is a line where it is not empty.
pub proof fn law_lines_end_at_line_feeds(line: Seq<char>, rest: Seq<char>)
    requires
        !line.contains('\n'),
    ensures
        line.len() == 0 || line.last() != '\r' ==> lines_of(line + seq!['\n'] + rest) == seq![line]
            + lines_of(rest),
        lines_of(line + seq!['\r', '\n'] + rest) == seq![line] + lines_of(rest),
        lines_of(line) == (if line.len() > 0 {
            seq![line]
        } else {
            Seq::<Seq<char>>::empty()
        }),
{
    let f = |l: Seq<char>| strip_return(l);
    lemma_split_on_plain(line, '\n');
    lemma_split_on_nonempty(rest, '\n');
    let q = split_on(rest, '\n');
    assert(seq![line].drop_last() =~= Seq::<Seq<char>>::empty());
    assert(lines_of(line) =~= (if line.len() > 0 {
        seq![line]
    } else {
        Seq::<Seq<char>>::empty()
    }));
    let l2 = line.push('\r');
    assert forall|i: int| 0 <= i < l2.len() implies l2[i] != '\n' by {
        if i < line.len() {
            assert(line.contains(line[i]));
        }
    }
    lemma_split_on_plain(l2, '\n');
    assert(l2.drop_last() =~= line);
    lemma_first_line(line, rest);
    lemma_first_line(l2, rest);
    assert(line + seq!['\r', '\n'] + rest =~= l2 + seq!['\n'] + rest);
}

proof fn lemma_first_line(line: Seq<char>, rest: Seq<char>)
    requires
        !line.contains('\n'),
    ensures
        lines_of(line + seq!['\n'] + rest) == seq![strip_return(line)] + lines_of(rest),
{
    let f = |l: Seq<char>| strip_return(l);
    lemma_split_on_plain(line, '\n');
    lemma_split_on_nonempty(rest, '\n');
    lemma_split_on_append(line, rest, '\n');
    let q = split_on(rest, '\n');
    let p = seq![line] + q;
    assert(p.drop_last() =~= seq![line] + q.drop_last());
    assert(p.last() == q.last());
    assert(p.drop_last().map_values(f) =~= seq![strip_return(line)] + q.drop_last().map_values(f));
    assert(lines_of(line + seq!['\n'] + rest) =~= seq![strip_return(line)] + lines_of(rest));
}

/// Joining two lists puts the separator between the two joined parts.
pub proof fn law_joining_is_part_by_part(
    a: Seq<Seq<char>>,
    b: Seq<Seq<char>>,
    sep: Seq<char>,
    x: Seq<char>,
)
    ensures
        a.len() > 0 && b.len() > 0 ==> joined(a + b, sep) == joined(a, sep) + sep + joined(b, sep),
        joined(seq![x], sep) == x,
        joined(Seq::empty(), sep).len() == 0,
    decreases b.len(),
{
    if a.len() > 0 && b.len() > 0 {
        assert((a + b).drop_last() =~= a + b.drop_last());
        assert((a + b).last() == b.last());
        if b.len() > 1 {
            law_joining_is_part_by_part(a, b.drop_last(), sep, x);
        } else {
            assert(b.drop_last() =~= Seq::<Seq<char>>::empty());
            assert(a + b.drop_last() =~= a);
        }
        assert(joined(a + b, sep) =~= joined(a, sep) + sep + joined(b, sep));
    }
}

} // verus!
