//! The files by which a daemon makes itself known: the sentinel of a start in
//! progress and the PID file.
use vstd::prelude::*;
use crate::json;
use crate::json::Json;
use crate::paths;
use crate::text;

verus! {

// ---------------------------------------------------------------------------
// The starting sentinel
// ---------------------------------------------------------------------------

/// A sentinel without a PID counts for this many seconds.
pub const STARTING_STALE_SECS: u64 = 30;

/// The sentinel's text: the time of the start and the PID, on one line.
pub open spec fn sentinel_text(ts: nat, pid: nat) -> Seq<char> {
    text::dec(ts) + " "@ + text::dec(pid) + "\n"@
}

pub fn format_sentinel(ts: u64, pid: u32) -> (r: String)
    ensures
        r@ == sentinel_text(ts as nat, pid as nat),
{
    text::decimal(ts).concat(" ").concat(text::decimal(pid as u64).as_str()).concat("\n")
}

/// What a sentinel's text says: its first two words, where they are numbers that
/// fit a timestamp and a PID.
pub open spec fn sentinel_of(content: Seq<char>) -> Option<(nat, nat)> {
    let w = text::words_of(content);
    if w.len() < 2 {
        None
    } else {
        match (text::number_text(w[0], u64::MAX as nat), text::number_text(w[1], u32::MAX as nat)) {
            (Some(ts), Some(pid)) => Some((ts, pid)),
            _ => None,
        }
    }
}

pub fn parse_sentinel(content: &str) -> (r: Option<(u64, u32)>)
    ensures
        match r {
            Some((ts, pid)) => sentinel_of(content@) == Some((ts as nat, pid as nat)),
            None => sentinel_of(content@) is None,
        },
{
    let w = text::words(content);
    let ghost all = text::words_of(content@);
    assert(all.len() == w@.len());
    if w.len() < 2 {
        return None;
    }
    assert(all[0] == w@[0]@ && all[1] == w@[1]@);
    match text::parse_number(w[0].as_str(), u64::MAX) {
        Some(ts) => match text::parse_number(w[1].as_str(), u32::MAX as u64) {
            Some(pid) => Some((ts, pid as u32)),
            None => None,
        },
        None => None,
    }
}

proof fn lemma_split_space_nonempty(s: Seq<char>)
    ensures
        text::split_space(s).len() > 0,
    decreases s.len(),
{
    if s.len() > 0 {
        lemma_split_space_nonempty(s.drop_last());
    }
}

/// Characters that are no white space extend the last piece.
proof fn lemma_split_space_word(s: Seq<char>, w: Seq<char>)
    requires
        forall|i: int| 0 <= i < w.len() ==> !text::is_space(#[trigger] w[i]),
    ensures
        text::split_space(s + w) == text::split_space(s).drop_last().push(
            text::split_space(s).last() + w,
        ),
    decreases w.len(),
{
    let p = text::split_space(s);
    lemma_split_space_nonempty(s);
    if w.len() == 0 {
        assert(s + w =~= s);
        assert(p.last() + w =~= p.last());
        assert(p =~= p.drop_last().push(p.last()));
    } else {
        let v = w.drop_last();
        assert((s + w).drop_last() =~= s + v);
        assert((s + w).last() == w.last());
        assert(!text::is_space(w[w.len() - 1]));
        lemma_split_space_word(s, v);
        let q = text::split_space(s + v);
        assert(q.drop_last() =~= p.drop_last());
        assert(q.last() == p.last() + v);
        assert((p.last() + v).push(w.last()) =~= p.last() + w);
    }
}

/// A sentinel that was written is read back as it was.
pub proof fn law_sentinel_round_trip(ts: u64, pid: u32)
    ensures
        sentinel_of(sentinel_text(ts as nat, pid as nat)) == Some((ts as nat, pid as nat)),
{
    let a = text::dec(ts as nat);
    let b = text::dec(pid as nat);
    let none = Seq::<char>::empty();
    text::lemma_dec_value(ts as nat);
    text::lemma_dec_value(pid as nat);
    reveal_strlit(" ");
    reveal_strlit("\n");
    assert forall|i: int| 0 <= i < a.len() implies !text::is_space(#[trigger] a[i]) by {
        assert(text::is_digit(a[i]));
    }
    assert forall|i: int| 0 <= i < b.len() implies !text::is_space(#[trigger] b[i]) by {
        assert(text::is_digit(b[i]));
    }
    // The timestamp is one piece.
    lemma_split_space_word(none, a);
    assert(none + a =~= a);
    assert(text::split_space(a) =~= seq![a]);
    // The blank opens a second one, which the PID fills.
    let s1 = a + " "@;
    assert(s1.drop_last() =~= a);
    assert(text::split_space(s1) =~= seq![a, none]);
    lemma_split_space_word(s1, b);
    let s2 = s1 + b;
    assert(text::split_space(s2) =~= seq![a, b]) by {
        assert(none + b =~= b);
    }
    // The line feed leaves an empty piece behind.
    let s3 = s2 + "\n"@;
    assert(s3.drop_last() =~= s2);
    let pieces = text::split_space(s3);
    assert(pieces =~= Seq::empty().push(a).push(b).push(none));
    assert(text::nonempty(Seq::<Seq<char>>::empty()) =~= Seq::empty()) by {
        reveal(Seq::filter);
    }
    text::lemma_nonempty_push(Seq::<Seq<char>>::empty(), a);
    text::lemma_nonempty_push(Seq::<Seq<char>>::empty().push(a), b);
    text::lemma_nonempty_push(Seq::<Seq<char>>::empty().push(a).push(b), none);
    assert(text::words_of(s3) =~= seq![a, b]);
    assert(text::is_digit(a[0]) && text::is_digit(b[0]));
}

/// The sentinel of an older daemon: a timestamp and nothing else.
pub open spec fn legacy_sentinel(content: Seq<char>) -> Option<nat> {
    text::number_text(text::trimmed(content), u64::MAX as nat)
}

/// Seconds from `then` to `now`; none where `then` lies ahead.
pub open spec fn seconds_since(now: nat, then: nat) -> nat {
    if now < then {
        0
    } else {
        (now - then) as nat
    }
}

/// Whether a sentinel says that another daemon is starting. One with a PID
/// counts while that process, which must be another one, is alive; one without
/// counts for a while after its timestamp; other text does not count.
pub open spec fn peer_starting(content: Seq<char>, now: nat, own_pid: nat, alive: bool) -> bool {
    match sentinel_of(content) {
        Some((_, pid)) => pid != own_pid && alive,
        None => match legacy_sentinel(content) {
            Some(ts) => seconds_since(now, ts) < STARTING_STALE_SECS,
            None => false,
        },
    }
}

/// What is known of another daemon's start, and whether its sentinel has to go.
#[derive(Debug, Clone, Copy, PartialEq, Eq, Structural)]
pub struct PeerCheck {
    pub active: bool,
    pub remove: bool,
}

/// Whether `r` is what a look at the sentinel comes to.
pub open spec fn is_peer_check(
    content: Option<&str>,
    now: u64,
    own_pid: u32,
    alive: bool,
    r: PeerCheck,
) -> bool {
    match content {
        Some(c) => {
            &&& r.active == peer_starting(c@, now as nat, own_pid as nat, alive)
            &&& r.remove == !r.active
        },
        None => !r.active && !r.remove,
    }
}

/// Looks at the sentinel: absent, it says nothing; present, it blocks a start or
/// is stale and goes. `alive` says whether the process that it names is alive.
pub fn check_starting_peer_active(
    content: Option<&str>,
    now: u64,
    own_pid: u32,
    alive: bool,
) -> (r: PeerCheck)
    ensures
        is_peer_check(content, now, own_pid, alive, r),
{
    match content {
        Some(c) => {
            let active = match parse_sentinel(c) {
                Some((_, pid)) => pid != own_pid && alive,
                None => {
                    let t = text::trim(c);
                    match text::parse_number(t.as_str(), u64::MAX) {
                        Some(ts) => now < ts || now - ts < STARTING_STALE_SECS,
                        None => false,
                    }
                },
            };
            PeerCheck { active, remove: !active }
        },
        None => PeerCheck { active: false, remove: false },
    }
}

/// Whether `r` is the live process that a sentinel names.
pub open spec fn names_live_pid(content: Option<&str>, alive: bool, r: Option<u32>) -> bool {
    match r {
        Some(pid) => alive && content is Some && (sentinel_of(content.unwrap()@) matches Some(
            (_, p),
        ) && p == pid as nat),
        None => !alive || content is None || sentinel_of(content.unwrap()@) is None,
    }
}

/// The process that a sentinel names, where it is alive.
pub fn live_starting_pid(content: Option<&str>, alive: bool) -> (r: Option<u32>)
    ensures
        names_live_pid(content, alive, r),
{
    match content {
        Some(c) => match parse_sentinel(c) {
            Some((_, pid)) => if alive {
                Some(pid)
            } else {
                None
            },
            None => None,
        },
        None => None,
    }
}

// ---------------------------------------------------------------------------
// The PID file
// ---------------------------------------------------------------------------

/// The value of a number that is a plain row of digits and fits 64 bits.
pub open spec fn unsigned_value(j: Option<json::JsonView>) -> Option<nat> {
    match j {
        Some(json::JsonView::Number(n)) => text::number_text(n, u64::MAX as nat),
        _ => None,
    }
}

pub fn unsigned(j: Option<&Json>) -> (r: Option<u64>)
    ensures
        match r {
            Some(n) => unsigned_value(json::opt_view(j)) == Some(n as nat),
            None => unsigned_value(json::opt_view(j)) is None,
        },
{
    match j {
        Some(Json::Number(n)) => text::parse_number(n.as_str(), u64::MAX),
        _ => None,
    }
}

/// What a PID file says. `parsed` is its trimmed text read as JSON: an object
/// names the process, and its owner unless that is the daemon. A plain number is
/// a daemon's PID. A PID keeps its low 32 bits.
pub open spec fn pid_entry(content: Seq<char>, parsed: Option<json::JsonView>) -> Option<
    (nat, Seq<char>),
> {
    match parsed {
        Some(json::JsonView::Object(m)) => match unsigned_value(json::lookup(m, "pid"@)) {
            Some(pid) => Some(
                (
                    pid % 0x1_0000_0000,
                    match json::text_value(json::lookup(m, "owner"@)) {
                        Some(owner) => owner,
                        None => "daemon"@,
                    },
                ),
            ),
            None => None,
        },
        _ => match text::number_text(text::trimmed(content), u32::MAX as nat) {
            Some(pid) => Some((pid, "daemon"@)),
            None => None,
        },
    }
}

/// The process in a PID file and who started it.
#[derive(Debug, Clone, PartialEq, Eq)]
pub struct PidInfo {
    pub pid: u32,
    pub owner: String,
}

pub open spec fn pid_info_view(i: Option<PidInfo>) -> Option<(nat, Seq<char>)> {
    match i {
        Some(p) => Some((p.pid as nat, p.owner@)),
        None => None,
    }
}

/// Reads the text of a PID file; `parsed` is the trimmed text read as JSON.
pub fn read_pid_file(content: &str, parsed: Option<&Json>) -> (r: Option<PidInfo>)
    ensures
        pid_info_view(r) == pid_entry(content@, json::opt_view(parsed)),
{
    match parsed {
        Some(j) => match j {
            Json::Object(m) => {
                proof {
                    json::lemma_object_view(*m);
                }
                match unsigned(j.get("pid")) {
                    Some(pid) => {
                        let owner = match j.text_of("owner") {
                            Some(o) => o,
                            None => "daemon".to_owned(),
                        };
                        Some(PidInfo { pid: (pid % 0x1_0000_0000) as u32, owner })
                    },
                    None => None,
                }
            },
            _ => plain_pid(content),
        },
        None => plain_pid(content),
    }
}

fn plain_pid(content: &str) -> (r: Option<PidInfo>)
    ensures
        pid_info_view(r) == (match text::number_text(text::trimmed(content@), u32::MAX as nat) {
            Some(pid) => Some((pid, "daemon"@)),
            None => None,
        }),
{
    let t = text::trim(content);
    match text::parse_number(t.as_str(), u32::MAX as u64) {
        Some(pid) => Some(PidInfo { pid: pid as u32, owner: "daemon".to_owned() }),
        None => None,
    }
}

/// The PID file that is written where the full metadata cannot be published.
pub open spec fn legacy_pid_text(pid: nat) -> Seq<char> {
    "{\"pid\":"@ + text::dec(pid) + ",\"owner\":\"daemon\"}"@
}

pub fn legacy_pid_file(pid: u32) -> (r: String)
    ensures
        r@ == legacy_pid_text(pid as nat),
{
    "{\"pid\":".to_owned().concat(text::decimal(pid as u64).as_str()).concat(
        ",\"owner\":\"daemon\"}",
    )
}

/// A PID file that holds nothing but a number, with white space around it,
/// names a daemon of that PID.
pub proof fn law_plain_pid_is_a_daemon(content: Seq<char>, pid: u32, parsed: Option<json::JsonView>)
    requires
        text::trimmed(content) == text::dec(pid as nat),
        !(parsed matches Some(j) && j is Object),
    ensures
        pid_entry(content, parsed) == Some((pid as nat, "daemon"@)),
{
    text::lemma_dec_value(pid as nat);
    assert(text::is_digit(text::dec(pid as nat)[0]));
}

/// The directory of a repository's store under the home directory.
pub open spec fn store_dir(home: Seq<char>, slug: Seq<char>) -> Seq<char> {
    paths::joined_path(paths::joined_path(home, ".mati"@), slug)
}

/// The store of the repository whose slug is given; none without a home
/// directory.
pub fn mati_root_for(home: Option<&str>, slug: &str) -> (r: Result<String, String>)
    ensures
        match r {
            Ok(root) => home matches Some(h) && root@ == store_dir(h@, slug@),
            Err(e) => home is None && e@ == "cannot determine home directory"@,
        },
{
    match home {
        Some(h) => {
            let base = paths::join(h, ".mati");
            Ok(paths::join(base.as_str(), slug))
        },
        None => Err("cannot determine home directory".to_owned()),
    }
}

/// A start in progress is respected where its process is another one and alive. A
/// sentinel without a pid is respected for half a minute, and anything else not at
/// all.
pub proof fn law_live_starts_are_respected(ts: u64, pid: u32, now: nat, own_pid: nat, alive: bool)
    ensures
        peer_starting(sentinel_text(ts as nat, pid as nat), now, own_pid, alive) <==> alive && pid
            != own_pid,
        peer_starting(text::dec(ts as nat), now, own_pid, alive) <==> now < ts + 30,
        !peer_starting(Seq::empty(), now, own_pid, alive),
{
    law_sentinel_round_trip(ts, pid);
    let d = text::dec(ts as nat);
    let none = Seq::<char>::empty();
    text::lemma_dec_value(ts as nat);
    assert forall|i: int| 0 <= i < d.len() implies !text::is_space(#[trigger] d[i]) by {
        assert(text::is_digit(d[i]));
    }
    text::law_words_are_parted_by_space(d, ' ', none);
    text::law_words_are_parted_by_space(none, ' ', none);
    text::law_trimming_drops_the_outer_space(none, d, none);
    assert(none + d + none =~= d);
    text::law_trimming_drops_the_outer_space(none, none, none);
    assert(none + none + none =~= none);
    text::law_numbers_are_read_back(ts as nat, u64::MAX as nat);
}

/// A PID file that is an object names the process and its owner; without an owner it
/// is the daemon's.
pub proof fn law_pid_file_names_the_owner(
    content: Seq<char>,
    m: Seq<(Seq<char>, json::JsonView)>,
    pid: u32,
)
    requires
        json::lookup(m, "pid"@) == Some(json::JsonView::Number(text::dec(pid as nat))),
    ensures
        json::lookup(m, "owner"@) matches Some(json::JsonView::Str(o)) ==> pid_entry(
            content,
            Some(json::JsonView::Object(m)),
        ) == Some((pid as nat, o)),
        json::lookup(m, "owner"@) is None ==> pid_entry(content, Some(json::JsonView::Object(m)))
            == Some((pid as nat, "daemon"@)),
{
    text::law_numbers_are_read_back(pid as nat, u64::MAX as nat);
}

/// A sentinel that blocks no start goes away, and one that does stays; where there is
/// none, nothing goes.
pub proof fn law_idle_sentinels_go_away(
    content: Option<&str>,
    now: u64,
    own_pid: u32,
    alive: bool,
    r: PeerCheck,
)
    requires
        is_peer_check(content, now, own_pid, alive, r),
    ensures
        content is Some ==> (r.remove <==> !r.active),
        content is None ==> !r.active && !r.remove,
        content matches Some(c) ==> (sentinel_of(c@) matches Some((_, pid)) ==> (r.active <==> alive
            && pid != own_pid)),
{
}

/// A start is named only where its process is alive.
pub proof fn law_only_live_starts_are_named(content: Option<&str>, alive: bool, r: Option<u32>)
    requires
        names_live_pid(content, alive, r),
    ensures
        r is Some ==> alive && content is Some,
        alive && (content matches Some(c) && sentinel_of(c@) is Some) ==> r is Some,
        r matches Some(p) ==> (sentinel_of(content->0@) matches Some((_, q)) && p == q),
{
}

/// The store of a project lies below the home directory, under its slug.
pub proof fn law_store_lies_below_home(home: Seq<char>, slug: Seq<char>)
    requires
        home.len() > 0,
        home.last() != '/',
        slug.len() > 0,
        slug[0] != '/',
    ensures
        store_dir(home, slug) == home + "/.mati/"@ + slug,
{
    reveal_strlit("/");
    reveal_strlit(".mati");
    reveal_strlit("/.mati/");
    let s = "/"@;
    let d = ".mati"@;
    if s.is_prefix_of(d) {
        assert(d.subrange(0, 1)[0] == '/');
    }
    if s.is_suffix_of(home) {
        assert(home.subrange(home.len() - 1, home.len() as int)[0] == '/');
    }
    if s.is_prefix_of(slug) {
        assert(slug.subrange(0, 1)[0] == '/');
    }
    let m = home + s + d;
    assert(m.last() == 'i');
    if s.is_suffix_of(m) {
        assert(m.subrange(m.len() - 1, m.len() as int)[0] == '/');
    }
    assert(m + s + slug =~= home + "/.mati/"@ + slug);
}

} // verus!
