//! `mati check`: whether the parts that hook enforcement needs are in place.
use vstd::prelude::*;
use crate::daemon::Ping;
use crate::host::Assistant;
use crate::json;
use crate::json::Json;
use crate::text;

verus! {

/// The outcome of one check.
#[derive(Debug, PartialEq, Eq)]
pub struct CheckItem {
    /// A short label.
    pub label: &'static str,
    pub status: CheckStatus,
    /// Hints, one a line, for a warning or a failure.
    pub hint: Option<String>,
}

#[derive(Debug, PartialEq, Eq)]
pub enum CheckStatus {
    Pass(Option<String>),
    Warn(String),
    Fail(String),
}

#[verifier::ext_equal]
pub enum StatusView {
    Pass(Option<Seq<char>>),
    Warn(Seq<char>),
    Fail(Seq<char>),
}

#[verifier::ext_equal]
pub struct ItemView {
    pub label: Seq<char>,
    pub status: StatusView,
    pub hint: Option<Seq<char>>,
}

impl View for CheckItem {
    type V = ItemView;

    open spec fn view(&self) -> ItemView {
        ItemView {
            label: self.label@,
            status: match self.status {
                CheckStatus::Pass(d) => StatusView::Pass(json::opt_text(d)),
                CheckStatus::Warn(m) => StatusView::Warn(m@),
                CheckStatus::Fail(m) => StatusView::Fail(m@),
            },
            hint: json::opt_text(self.hint),
        }
    }
}

pub open spec fn item_views(v: Seq<CheckItem>) -> Seq<ItemView> {
    v.map_values(|c: CheckItem| c@)
}

pub open spec fn passed(label: Seq<char>, detail: Option<Seq<char>>) -> ItemView {
    ItemView { label, status: StatusView::Pass(detail), hint: None }
}

pub open spec fn warned(label: Seq<char>, msg: Seq<char>, hint: Option<Seq<char>>) -> ItemView {
    ItemView { label, status: StatusView::Warn(msg), hint }
}

pub open spec fn failed(label: Seq<char>, msg: Seq<char>, hint: Option<Seq<char>>) -> ItemView {
    ItemView { label, status: StatusView::Fail(msg), hint }
}

impl CheckItem {
    pub fn pass(label: &'static str, detail: Option<String>) -> (r: CheckItem)
        ensures
            r@ == passed(label@, json::opt_text(detail)),
    {
        CheckItem { label, status: CheckStatus::Pass(detail), hint: None }
    }

    pub fn warn(label: &'static str, msg: String, hint: Option<String>) -> (r: CheckItem)
        ensures
            r@ == warned(label@, msg@, json::opt_text(hint)),
    {
        CheckItem { label, status: CheckStatus::Warn(msg), hint }
    }

    pub fn fail(label: &'static str, msg: String, hint: Option<String>) -> (r: CheckItem)
        ensures
            r@ == failed(label@, msg@, json::opt_text(hint)),
    {
        CheckItem { label, status: CheckStatus::Fail(msg), hint }
    }

    pub fn is_fail(&self) -> (r: bool)
        ensures
            r == self@.status is Fail,
    {
        match self.status {
            CheckStatus::Fail(_) => true,
            _ => false,
        }
    }
}

// ---------------------------------------------------------------------------
// The checks
// ---------------------------------------------------------------------------

/// What is found of the repository.
pub open spec fn git_item(found: bool) -> ItemView {
    if found {
        passed("git repo"@, None)
    } else {
        failed(
            "git repo"@,
            "not a git repo"@,
            Some("Layer 0 analysis and slug derivation require git"@),
        )
    }
}

/// Whether the directory is in a git repository.
pub fn check_git_repo(found: bool) -> (r: CheckItem)
    ensures
        r@ == git_item(found),
{
    if found {
        CheckItem::pass("git repo", None)
    } else {
        CheckItem::fail(
            "git repo",
            "not a git repo".to_owned(),
            Some("Layer 0 analysis and slug derivation require git".to_owned()),
        )
    }
}

/// What is found of the store.
pub open spec fn store_item(db: Result<String, String>, exists: bool) -> ItemView {
    match db {
        Err(e) => failed("store"@, "cannot derive store path: "@ + e@, None),
        Ok(path) => if exists {
            passed("store"@, Some(path@))
        } else {
            failed("store"@, "store not initialized"@, Some("run: mati init"@))
        },
    }
}

/// Whether there is a store. `db` is the path at which it would be, or why there
/// is none.
pub fn check_store(db: &Result<String, String>, exists: bool) -> (r: CheckItem)
    ensures
        r@ == store_item(*db, exists),
{
    match db {
        Err(e) => CheckItem::fail(
            "store",
            "cannot derive store path: ".to_owned().concat(e.as_str()),
            None,
        ),
        Ok(path) => if exists {
            CheckItem::pass("store", Some(path.clone()))
        } else {
            CheckItem::fail(
                "store",
                "store not initialized".to_owned(),
                Some("run: mati init".to_owned()),
            )
        },
    }
}

/// How a program ended that was started for a check.
#[derive(Debug, PartialEq, Eq)]
pub enum Ran {
    NotFound,
    /// It ended; what it printed on standard output, and whether it succeeded.
    Ended { success: bool, stdout: String },
}

pub open spec fn no_mati_hint() -> Seq<char> {
    "hooks call mati get/log-hit/etc. and will silently pass everything through"@
}

/// What is found of the program itself.
pub open spec fn mati_item(ran: Ran) -> ItemView {
    match ran {
        Ran::Ended { success, stdout } => if success {
            passed("mati in PATH"@, Some(text::trimmed(stdout@)))
        } else {
            failed(
                "mati in PATH"@,
                "mati --version returned non-zero"@,
                Some(no_mati_hint()),
            )
        },
        Ran::NotFound => failed("mati in PATH"@, "mati not on PATH"@, Some(no_mati_hint())),
    }
}

/// Whether `mati` can be started.
pub fn check_mati_on_path(ran: &Ran) -> (r: CheckItem)
    ensures
        r@ == mati_item(*ran),
{
    match ran {
        Ran::Ended { success, stdout } => if *success {
            CheckItem::pass("mati in PATH", Some(text::trim(stdout.as_str())))
        } else {
            CheckItem::fail(
                "mati in PATH",
                "mati --version returned non-zero".to_owned(),
                Some(
                    "hooks call mati get/log-hit/etc. and will silently pass everything through".to_owned(),
                ),
            )
        },
        Ran::NotFound => CheckItem::fail(
            "mati in PATH",
            "mati not on PATH".to_owned(),
            Some(
                "hooks call mati get/log-hit/etc. and will silently pass everything through".to_owned(),
            ),
        ),
    }
}

/// What is found of awk.
pub open spec fn awk_item(ran: Ran) -> ItemView {
    match ran {
        Ran::Ended { stdout, .. } => if text::trimmed(stdout@) == "ok"@ {
            passed("awk float math"@, None)
        } else {
            failed(
                "awk float math"@,
                "awk float math failed"@,
                Some("pre-read hook decision matrix will silently allow all reads until fixed"@),
            )
        },
        Ran::NotFound => failed(
            "awk float math"@,
            "awk not found"@,
            Some(
                "pre-read hook decision matrix requires awk \u{2014} install gawk or ensure awk is on PATH"@,
            ),
        ),
    }
}

/// Whether awk compares decimals.
pub fn check_awk_float_math(ran: &Ran) -> (r: CheckItem)
    ensures
        r@ == awk_item(*ran),
{
    match ran {
        Ran::Ended { stdout, .. } => {
            let t = text::trim(stdout.as_str());
            if text::same(t.as_str(), "ok") {
                CheckItem::pass("awk float math", None)
            } else {
                CheckItem::fail(
                    "awk float math",
                    "awk float math failed".to_owned(),
                    Some(
                        "pre-read hook decision matrix will silently allow all reads until fixed".to_owned(),
                    ),
                )
            }
        },
        Ran::NotFound => CheckItem::fail(
            "awk float math",
            "awk not found".to_owned(),
            Some(
                "pre-read hook decision matrix requires awk \u{2014} install gawk or ensure awk is on PATH".to_owned(),
            ),
        ),
    }
}

/// A hook script; its permission bits where it is there and they can be read.
#[derive(Debug, PartialEq, Eq)]
pub struct HookFile {
    pub name: String,
    pub mode: Option<u32>,
}

/// The names of the missing scripts among the first `n`.
pub open spec fn missing_hooks(v: Seq<HookFile>, n: int) -> Seq<Seq<char>>
    decreases n,
{
    if n <= 0 {
        Seq::empty()
    } else {
        let before = missing_hooks(v, n - 1);
        if v[n - 1].mode is None {
            before.push(v[n - 1].name@)
        } else {
            before
        }
    }
}

/// Whether a script is there but may not be executed by anybody.
pub open spec fn lacks_execution(h: HookFile) -> bool {
    h.mode matches Some(m) && m & 0o111 == 0
}

/// The names of the scripts among the first `n` that cannot be executed.
pub open spec fn idle_hooks(v: Seq<HookFile>, n: int) -> Seq<Seq<char>>
    decreases n,
{
    if n <= 0 {
        Seq::empty()
    } else {
        let before = idle_hooks(v, n - 1);
        if lacks_execution(v[n - 1]) {
            before.push(v[n - 1].name@)
        } else {
            before
        }
    }
}

/// The problems with the scripts.
pub open spec fn hook_problems(missing: Seq<Seq<char>>, idle: Seq<Seq<char>>) -> Seq<Seq<char>> {
    (if missing.len() > 0 {
        seq!["missing: "@ + text::joined(missing, ", "@)]
    } else {
        Seq::empty()
    }) + (if idle.len() > 0 {
        seq!["not executable: "@ + text::joined(idle, ", "@)]
    } else {
        Seq::empty()
    })
}

pub open spec fn hooks_item(v: Seq<HookFile>) -> ItemView {
    let n = v.len();
    let missing = missing_hooks(v, n as int);
    let idle = idle_hooks(v, n as int);
    if missing.len() == 0 && idle.len() == 0 {
        passed("hooks"@, Some(text::dec(n) + "/"@ + text::dec(n) + " installed, executable"@))
    } else {
        failed(
            "hooks"@,
            text::dec((n - missing.len() - idle.len()) as nat) + "/"@ + text::dec(n)
                + " ok \u{2014} "@ + text::joined(hook_problems(missing, idle), "; "@),
            Some("run: mati init  to reinstall hooks"@),
        )
    }
}

/// Whether the hook scripts are installed and executable.
pub fn check_hooks(hooks: &Vec<HookFile>) -> (r: CheckItem)
    ensures
        r@ == hooks_item(hooks@),
{
    let mut missing: Vec<String> = Vec::new();
    let mut idle: Vec<String> = Vec::new();
    let mut i: usize = 0;
    assert(text::texts(missing@) =~= Seq::<Seq<char>>::empty());
    assert(text::texts(idle@) =~= Seq::<Seq<char>>::empty());
    while i < hooks.len()
        invariant
            i <= hooks.len(),
            text::texts(missing@) == missing_hooks(hooks@, i as int),
            text::texts(idle@) == idle_hooks(hooks@, i as int),
            missing@.len() + idle@.len() <= i,
        decreases hooks.len() - i,
    {
        match hooks[i].mode {
            None => {
                text::push_line(&mut missing, hooks[i].name.clone());
                assert(text::texts(missing@).len() == missing@.len());
            },
            Some(m) => {
                if m & 0o111 == 0 {
                    text::push_line(&mut idle, hooks[i].name.clone());
                    assert(text::texts(idle@).len() == idle@.len());
                }
            },
        }
        i = i + 1;
    }
    let total = text::decimal(hooks.len() as u64);
    assert(text::texts(missing@).len() == missing@.len());
    assert(text::texts(idle@).len() == idle@.len());
    if missing.is_empty() && idle.is_empty() {
        return CheckItem::pass(
            "hooks",
            Some(
                total.clone().concat("/").concat(total.as_str()).concat(" installed, executable"),
            ),
        );
    }
    let mut problems: Vec<String> = Vec::new();
    if !missing.is_empty() {
        text::push_line(
            &mut problems,
            "missing: ".to_owned().concat(text::join(&missing, ", ").as_str()),
        );
    }
    if !idle.is_empty() {
        text::push_line(
            &mut problems,
            "not executable: ".to_owned().concat(text::join(&idle, ", ").as_str()),
        );
    }
    assert(text::texts(problems@) =~= hook_problems(text::texts(missing@), text::texts(idle@)));
    let good: usize = hooks.len() - missing.len() - idle.len();
    CheckItem::fail(
        "hooks",
        text::decimal(good as u64).concat("/").concat(total.as_str()).concat(
            " ok \u{2014} ",
        ).concat(text::join(&problems, "; ").as_str()),
        Some("run: mati init  to reinstall hooks".to_owned()),
    )
}

/// The settings file: absent, unreadable, no JSON, or its text and value.
#[derive(Debug, PartialEq, Eq)]
pub enum Settings {
    Absent,
    Unreadable(String),
    Invalid(String),
    Read { content: String, value: Json },
}

/// The names, among the first `n`, of the hooks that the settings do not mention.
pub open spec fn absent_hooks(
    content: Seq<char>,
    dir: Seq<char>,
    names: Seq<Seq<char>>,
    n: int,
) -> Seq<Seq<char>>
    decreases n,
{
    if n <= 0 {
        Seq::empty()
    } else {
        let before = absent_hooks(content, dir, names, n - 1);
        if text::text_contains(content, dir + "/hooks/"@ + names[n - 1]) {
            before
        } else {
            before.push(names[n - 1])
        }
    }
}

pub open spec fn settings_problems(absent: Seq<Seq<char>>, has_server: bool) -> Seq<Seq<char>> {
    (if absent.len() > 0 {
        seq!["hooks absent: "@ + text::joined(absent, ", "@)]
    } else {
        Seq::empty()
    }) + (if has_server {
        Seq::empty()
    } else {
        seq!["mcpServers.mati missing"@]
    })
}

pub open spec fn settings_item(s: Settings, dir: Seq<char>, names: Seq<Seq<char>>) -> ItemView {
    match s {
        Settings::Absent => failed(
            "settings.json"@,
            "settings.json not found"@,
            Some("run: mati init"@),
        ),
        Settings::Unreadable(e) => failed(
            "settings.json"@,
            "cannot read settings.json: "@ + e@,
            None,
        ),
        Settings::Invalid(e) => failed(
            "settings.json"@,
            "invalid JSON: "@ + e@,
            Some("run: mati init  to regenerate settings.json"@),
        ),
        Settings::Read { content, value } => {
            let absent = absent_hooks(content@, dir, names, names.len() as int);
            let has_server = json::member2(value@, "mcpServers"@, "mati"@) is Some;
            if absent.len() == 0 && has_server {
                passed(
                    "settings.json"@,
                    Some(text::dec(names.len()) + " hooks + mcpServers registered"@),
                )
            } else {
                failed(
                    "settings.json"@,
                    text::joined(settings_problems(absent, has_server), "; "@),
                    Some("run: mati init  to regenerate settings.json"@),
                )
            }
        },
    }
}

/// Whether the assistant's settings register every hook and the MCP server.
pub fn check_settings_json(s: &Settings, host: &Assistant, names: &Vec<String>) -> (r: CheckItem)
    ensures
        r@ == settings_item(*s, host.dir@, text::texts(names@)),
{
    match s {
        Settings::Absent => CheckItem::fail(
            "settings.json",
            "settings.json not found".to_owned(),
            Some("run: mati init".to_owned()),
        ),
        Settings::Unreadable(e) => CheckItem::fail(
            "settings.json",
            "cannot read settings.json: ".to_owned().concat(e.as_str()),
            None,
        ),
        Settings::Invalid(e) => CheckItem::fail(
            "settings.json",
            "invalid JSON: ".to_owned().concat(e.as_str()),
            Some("run: mati init  to regenerate settings.json".to_owned()),
        ),
        Settings::Read { content, value } => {
            let ghost all = text::texts(names@);
            let mut absent: Vec<String> = Vec::new();
            let mut i: usize = 0;
            assert(text::texts(absent@) =~= Seq::<Seq<char>>::empty());
            while i < names.len()
                invariant
                    i <= names.len(),
                    all == text::texts(names@),
                    text::texts(absent@) == absent_hooks(content@, host.dir@, all, i as int),
                decreases names.len() - i,
            {
                assert(all[i as int] == names@[i as int]@);
                let path = host.dir.clone().concat("/hooks/").concat(names[i].as_str());
                if !text::contains(content.as_str(), path.as_str()) {
                    text::push_line(&mut absent, names[i].clone());
                }
                i = i + 1;
            }
            assert(text::texts(absent@).len() == absent@.len());
            assert(all.len() == names@.len());
            let has_server = match value.get("mcpServers") {
                Some(m) => m.get("mati").is_some(),
                None => false,
            };
            if absent.is_empty() && has_server {
                return CheckItem::pass(
                    "settings.json",
                    Some(
                        text::decimal(names.len() as u64).concat(" hooks + mcpServers registered"),
                    ),
                );
            }
            let mut problems: Vec<String> = Vec::new();
            if !absent.is_empty() {
                text::push_line(
                    &mut problems,
                    "hooks absent: ".to_owned().concat(text::join(&absent, ", ").as_str()),
                );
            }
            if !has_server {
                text::push_line(&mut problems, "mcpServers.mati missing".to_owned());
            }
            assert(text::texts(problems@) =~= settings_problems(text::texts(absent@), has_server));
            CheckItem::fail(
                "settings.json",
                text::join(&problems, "; "),
                Some("run: mati init  to regenerate settings.json".to_owned()),
            )
        },
    }
}

/// What is found of the daemon.
pub open spec fn daemon_item(ping: Option<(Ping, &str)>) -> ItemView {
    match ping {
        None => warned("daemon"@, "skipped (store not initialized)"@, None),
        Some((Ping::Answered, ms)) => passed("daemon"@, Some("ping "@ + ms@ + "ms"@)),
        Some((Ping::Unresponsive, _)) => failed(
            "daemon"@,
            "daemon unresponsive \u{2014} may hold store lock"@,
            Some("fix: mati daemon stop && mati daemon start"@),
        ),
        Some(_) => warned(
            "daemon"@,
            "not running \u{2014} hook latency ~150ms"@,
            Some("run: mati daemon start"@),
        ),
    }
}

/// Whether the daemon answers. `ping` is its outcome with the milliseconds taken,
/// to one decimal; there is none where the store's place is unknown.
pub fn check_daemon(ping: Option<(Ping, &str)>) -> (r: CheckItem)
    ensures
        r@ == daemon_item(ping),
{
    match ping {
        None => CheckItem::warn("daemon", "skipped (store not initialized)".to_owned(), None),
        Some((Ping::Answered, ms)) => CheckItem::pass(
            "daemon",
            Some("ping ".to_owned().concat(ms).concat("ms")),
        ),
        Some((Ping::Unresponsive, _)) => CheckItem::fail(
            "daemon",
            "daemon unresponsive \u{2014} may hold store lock".to_owned(),
            Some("fix: mati daemon stop && mati daemon start".to_owned()),
        ),
        Some(_) => CheckItem::warn(
            "daemon",
            "not running \u{2014} hook latency ~150ms".to_owned(),
            Some("run: mati daemon start".to_owned()),
        ),
    }
}

// ---------------------------------------------------------------------------
// The report
// ---------------------------------------------------------------------------

/// How many of the first `n` items failed.
pub open spec fn failures(v: Seq<ItemView>, n: int) -> nat
    decreases n,
{
    if n <= 0 {
        0
    } else {
        failures(v, n - 1) + (if v[n - 1].status is Fail {
            1nat
        } else {
            0
        })
    }
}

/// How many of the first `n` items are warnings.
pub open spec fn warnings(v: Seq<ItemView>, n: int) -> nat
    decreases n,
{
    if n <= 0 {
        0
    } else {
        warnings(v, n - 1) + (if v[n - 1].status is Warn {
            1nat
        } else {
            0
        })
    }
}

/// The failures and the warnings of a run.
pub fn tally(items: &Vec<CheckItem>) -> (r: (u64, u64))
    ensures
        r.0 == failures(item_views(items@), items@.len() as int),
        r.1 == warnings(item_views(items@), items@.len() as int),
{
    let ghost v = item_views(items@);
    let mut failed: u64 = 0;
    let mut warned: u64 = 0;
    let mut i: usize = 0;
    while i < items.len()
        invariant
            i <= items.len(),
            v == item_views(items@),
            failed == failures(v, i as int),
            warned == warnings(v, i as int),
            failed <= i,
            warned <= i,
        decreases items.len() - i,
    {
        assert(v[i as int] == items@[i as int]@);
        match items[i].status {
            CheckStatus::Fail(_) => {
                failed = failed + 1;
            },
            CheckStatus::Warn(_) => {
                warned = warned + 1;
            },
            CheckStatus::Pass(_) => {},
        }
        i = i + 1;
    }
    (failed, warned)
}

pub open spec fn hint_lines(hint: Option<Seq<char>>) -> Seq<Seq<char>> {
    match hint {
        Some(h) => text::prefixed(
            "                          "@,
            text::lines_of(h),
        ),
        None => Seq::empty(),
    }
}

/// The lines on an item.
pub open spec fn item_lines(c: ItemView) -> Seq<Seq<char>> {
    let label = "  "@ + text::padded_right(c.label, 15);
    match c.status {
        StatusView::Pass(detail) => match json::filled_text(detail) {
            Some(d) => seq![label + "  ok  ("@ + d + ")"@],
            None => seq![label + "  ok"@],
        },
        StatusView::Warn(msg) => seq![label + "  warn  "@ + msg] + hint_lines(c.hint),
        StatusView::Fail(msg) => seq![label + "  FAIL  "@ + msg] + hint_lines(c.hint),
    }
}

/// The lines on the first `n` items.
pub open spec fn items_text(v: Seq<ItemView>, n: int) -> Seq<Seq<char>>
    decreases n,
{
    if n <= 0 {
        Seq::empty()
    } else {
        items_text(v, n - 1) + item_lines(v[n - 1])
    }
}

pub open spec fn verdict(failed: nat, warned: nat) -> Seq<char> {
    if failed == 0 && warned == 0 {
        "  All checks passed. Hook enforcement is active."@
    } else if failed == 0 {
        "  "@ + text::dec(warned) + " warning(s). Hook enforcement is active but degraded."@
    } else {
        "  "@ + text::dec(failed) + " blocker(s) found. Hook enforcement is NOT active."@
    }
}

/// What `mati check` prints.
pub open spec fn results_text(v: Seq<ItemView>) -> Seq<Seq<char>> {
    let n = v.len() as int;
    seq![""@, "mati check"@, ""@] + items_text(v, n) + seq![
        ""@,
        verdict(failures(v, n), warnings(v, n)),
        ""@,
    ]
}

fn push_hint(out: &mut Vec<String>, hint: &Option<String>)
    ensures
        text::texts(final(out)@) == text::texts(old(out)@) + hint_lines(json::opt_text(*hint)),
{
    match hint {
        Some(h) => {
            let lines = text::lines(h.as_str());
            text::push_prefixed(out, "                          ", &lines);
        },
        None => {
            assert(text::texts(out@) + hint_lines(None) =~= text::texts(out@));
        },
    }
}

fn push_item(out: &mut Vec<String>, c: &CheckItem)
    ensures
        text::texts(final(out)@) == text::texts(old(out)@) + item_lines(c@),
{
    let ghost head = text::texts(out@);
    let label = "  ".to_owned().concat(text::pad_right(c.label, 15).as_str());
    match &c.status {
        CheckStatus::Pass(detail) => {
            let shown = match detail {
                Some(d) => json::filled(Some(d.clone())),
                None => None,
            };
            match shown {
                Some(d) => {
                    text::push_line(out, label.concat("  ok  (").concat(d.as_str()).concat(")"));
                },
                None => {
                    text::push_line(out, label.concat("  ok"));
                },
            }
        },
        CheckStatus::Warn(msg) => {
            text::push_line(out, label.concat("  warn  ").concat(msg.as_str()));
            push_hint(out, &c.hint);
        },
        CheckStatus::Fail(msg) => {
            text::push_line(out, label.concat("  FAIL  ").concat(msg.as_str()));
            push_hint(out, &c.hint);
        },
    }
    assert(text::texts(out@) =~= head + item_lines(c@));
}

/// The lines that `mati check` prints.
pub fn results(items: &Vec<CheckItem>) -> (r: Vec<String>)
    ensures
        text::texts(r@) == results_text(item_views(items@)),
{
    let ghost v = item_views(items@);
    let mut out: Vec<String> = Vec::new();
    text::push_line(&mut out, "".to_owned());
    text::push_line(&mut out, "mati check".to_owned());
    text::push_line(&mut out, "".to_owned());
    let ghost first = seq![""@, "mati check"@, ""@];
    assert(text::texts(out@) =~= first + items_text(v, 0));
    let mut i: usize = 0;
    while i < items.len()
        invariant
            i <= items.len(),
            v == item_views(items@),
            text::texts(out@) == first + items_text(v, i as int),
        decreases items.len() - i,
    {
        assert(v[i as int] == items@[i as int]@);
        push_item(&mut out, &items[i]);
        proof {
            text::lemma_append_two(
                first,
                items_text(v, i as int),
                item_lines(v[i as int]),
                Seq::empty(),
            );
        }
        i = i + 1;
    }
    let (failed, warned) = tally(items);
    text::push_line(&mut out, "".to_owned());
    let last = if failed == 0 && warned == 0 {
        "  All checks passed. Hook enforcement is active.".to_owned()
    } else if failed == 0 {
        "  ".to_owned().concat(text::decimal(warned).as_str()).concat(
            " warning(s). Hook enforcement is active but degraded.",
        )
    } else {
        "  ".to_owned().concat(text::decimal(failed).as_str()).concat(
            " blocker(s) found. Hook enforcement is NOT active.",
        )
    };
    text::push_line(&mut out, last);
    text::push_line(&mut out, "".to_owned());
    assert(text::texts(out@) =~= results_text(v));
    out
}

/// The run fails exactly where a check fails; a warning does not make it fail.
pub fn exit_code(items: &Vec<CheckItem>) -> (r: i32)
    ensures
        r == (if exists|k: int|
            0 <= k < items@.len() && (#[trigger] items@[k])@.status is Fail {
            1i32
        } else {
            0i32
        }),
{
    let mut i: usize = 0;
    while i < items.len()
        invariant
            i <= items.len(),
            forall|k: int| 0 <= k < i ==> !((#[trigger] items@[k])@.status is Fail),
        decreases items.len() - i,
    {
        if items[i].is_fail() {
            assert(items@[i as int]@.status is Fail);
            return 1;
        }
        i = i + 1;
    }
    0
}

// ---------------------------------------------------------------------------
// What the check is for
// ---------------------------------------------------------------------------

proof fn lemma_hook_lists(v: Seq<HookFile>, n: int, name: Seq<char>)
    requires
        0 <= n <= v.len(),
    ensures
        missing_hooks(v, n).contains(name) <==> exists|k: int|
            0 <= k < n && (#[trigger] v[k]).name@ == name && v[k].mode is None,
        idle_hooks(v, n).contains(name) <==> exists|k: int|
            0 <= k < n && (#[trigger] v[k]).name@ == name && lacks_execution(v[k]),
        missing_hooks(v, n).len() == 0 <==> forall|k: int|
            0 <= k < n ==> (#[trigger] v[k]).mode is Some,
        idle_hooks(v, n).len() == 0 <==> forall|k: int|
            0 <= k < n ==> !lacks_execution(#[trigger] v[k]),
    decreases n,
{
    if n > 0 {
        lemma_hook_lists(v, n - 1, name);
        let m = missing_hooks(v, n - 1);
        let m1 = missing_hooks(v, n);
        if v[n - 1].mode is None {
            assert(m1 == m.push(v[n - 1].name@));
            assert(m1.contains(name) <==> m.contains(name) || name == v[n - 1].name@) by {
                assert(m1[m.len() as int] == v[n - 1].name@);
                if m.contains(name) {
                    let j = choose|j: int| 0 <= j < m.len() && m[j] == name;
                    assert(m1[j] == name);
                }
                if m1.contains(name) {
                    let j = choose|j: int| 0 <= j < m1.len() && m1[j] == name;
                    if j < m.len() {
                        assert(m[j] == name);
                    }
                }
            }
        }
        let i = idle_hooks(v, n - 1);
        let i1 = idle_hooks(v, n);
        if lacks_execution(v[n - 1]) {
            assert(i1 == i.push(v[n - 1].name@));
            assert(i1.contains(name) <==> i.contains(name) || name == v[n - 1].name@) by {
                assert(i1[i.len() as int] == v[n - 1].name@);
                if i.contains(name) {
                    let j = choose|j: int| 0 <= j < i.len() && i[j] == name;
                    assert(i1[j] == name);
                }
                if i1.contains(name) {
                    let j = choose|j: int| 0 <= j < i1.len() && i1[j] == name;
                    if j < i.len() {
                        assert(i[j] == name);
                    }
                }
            }
        }
    }
}

proof fn lemma_joined_names(parts: Seq<Seq<char>>, sep: Seq<char>, x: Seq<char>)
    requires
        parts.contains(x),
    ensures
        text::text_contains(text::joined(parts, sep), x),
    decreases parts.len(),
{
    let j = choose|j: int| 0 <= j < parts.len() && parts[j] == x;
    text::lemma_padded_contains(x, 0);
    if parts.len() > 1 {
        let front = parts.drop_last();
        if j < front.len() {
            assert(front[j] == x);
            lemma_joined_names(front, sep, x);
            text::lemma_contains_either(text::joined(front, sep), sep, x);
        }
        text::lemma_contains_either(text::joined(front, sep) + sep, parts.last(), x);
    }
}

/// The hooks pass exactly where every one is installed and may be executed; a failure
/// names those that are not.
pub proof fn law_every_hook_must_be_executable(v: Seq<HookFile>, i: int)
    requires
        0 <= i < v.len(),
    ensures
        !(hooks_item(v).status is Warn),
        hooks_item(v).status is Pass <==> forall|k: int|
            0 <= k < v.len() ==> ((#[trigger] v[k]).mode matches Some(m) && m & 0o111 != 0),
        !(v[i].mode matches Some(m) && m & 0o111 != 0) ==> (hooks_item(v).status
            matches StatusView::Fail(e) && text::text_contains(e, v[i].name@)),
{
    let n = v.len() as int;
    let name = v[i].name@;
    lemma_hook_lists(v, n, name);
    let missing = missing_hooks(v, n);
    let idle = idle_hooks(v, n);
    assert forall|k: int| 0 <= k < n implies ((v[k].mode is Some && !lacks_execution(
        #[trigger] v[k],
    )) <==> (v[k].mode matches Some(m) && m & 0o111 != 0)) by {
        if let Some(m) = v[k].mode {
            assert(lacks_execution(v[k]) <==> m & 0o111 == 0);
        }
    }
    if !(v[i].mode matches Some(m) && m & 0o111 != 0) {
        let problems = hook_problems(missing, idle);
        let a = "missing: "@ + text::joined(missing, ", "@);
        let b = "not executable: "@ + text::joined(idle, ", "@);
        let p = if v[i].mode is None {
            assert(missing.contains(name));
            lemma_joined_names(missing, ", "@, name);
            text::lemma_contains_either("missing: "@, text::joined(missing, ", "@), name);
            assert(problems[0] == a);
            a
        } else {
            assert(lacks_execution(v[i]));
            assert(idle.contains(name));
            lemma_joined_names(idle, ", "@, name);
            text::lemma_contains_either("not executable: "@, text::joined(idle, ", "@), name);
            assert(problems[problems.len() - 1] == b);
            b
        };
        assert(problems.contains(p));
        lemma_joined_names(problems, "; "@, p);
        let all = text::joined(problems, "; "@);
        let at = choose|at: int| text::occurs_at(all, p, at);
        assert(all =~= all.take(at) + p + all.skip(at + p.len())) by {
            assert(all.subrange(at, at + p.len()) == p);
        }
        text::lemma_contains_in_part(all.take(at), p, all.skip(at + p.len()), name);
        let head = text::dec((n - missing.len() - idle.len()) as nat) + "/"@ + text::dec(v.len())
            + " ok \u{2014} "@;
        text::lemma_contains_either(head, all, name);
    }
}

/// The settings pass exactly where they are there, can be read, name every hook and
/// register the server.
pub proof fn law_settings_must_name_every_hook(
    s: Settings,
    dir: Seq<char>,
    names: Seq<Seq<char>>,
)
    ensures
        !(settings_item(s, dir, names).status is Warn),
        settings_item(s, dir, names).status is Pass <==> (s matches Settings::Read {
            content,
            value,
        } && json::member2(value@, "mcpServers"@, "mati"@) is Some && forall|k: int|
            0 <= k < names.len() ==> text::text_contains(
                content@,
                dir + "/hooks/"@ + #[trigger] names[k],
            )),
{
    if let Settings::Read { content, value } = s {
        lemma_absent(content@, dir, names, names.len() as int);
    }
}

proof fn lemma_absent(content: Seq<char>, dir: Seq<char>, names: Seq<Seq<char>>, n: int)
    requires
        0 <= n <= names.len(),
    ensures
        absent_hooks(content, dir, names, n).len() == 0 <==> forall|k: int|
            0 <= k < n ==> text::text_contains(content, dir + "/hooks/"@ + #[trigger] names[k]),
    decreases n,
{
    if n > 0 {
        lemma_absent(content, dir, names, n - 1);
    }
}

/// Enforcement is told to be active exactly where no check failed, and degraded
/// exactly where one warned.
pub proof fn law_one_failure_is_a_blocker(v: Seq<ItemView>)
    ensures
        ({
            let n = v.len() as int;
            let end = verdict(failures(v, n), warnings(v, n));
            let fails = exists|k: int| 0 <= k < v.len() && (#[trigger] v[k]).status is Fail;
            let warns = exists|k: int| 0 <= k < v.len() && (#[trigger] v[k]).status is Warn;
            &&& fails ==> "Hook enforcement is NOT active."@.is_suffix_of(end)
            &&& !fails && warns ==> "Hook enforcement is active but degraded."@.is_suffix_of(end)
            &&& !fails && !warns ==> end == "  All checks passed. Hook enforcement is active."@
            &&& results_text(v).contains(end)
        }),
{
    let n = v.len() as int;
    lemma_tallies(v, n);
    let f = failures(v, n);
    let w = warnings(v, n);
    let end = verdict(f, w);
    reveal_strlit("Hook enforcement is NOT active.");
    reveal_strlit(" blocker(s) found. Hook enforcement is NOT active.");
    reveal_strlit("Hook enforcement is active but degraded.");
    reveal_strlit(" warning(s). Hook enforcement is active but degraded.");
    let a = "Hook enforcement is NOT active."@;
    let b = "Hook enforcement is active but degraded."@;
    if f > 0 {
        assert(end.subrange(end.len() - a.len(), end.len() as int) =~= a);
    } else if w > 0 {
        assert(end.subrange(end.len() - b.len(), end.len() as int) =~= b);
    }
    let all = results_text(v);
    assert(all[all.len() - 2] == end);
}

proof fn lemma_tallies(v: Seq<ItemView>, n: int)
    requires
        0 <= n <= v.len(),
    ensures
        failures(v, n) > 0 <==> exists|k: int| 0 <= k < n && (#[trigger] v[k]).status is Fail,
        warnings(v, n) > 0 <==> exists|k: int| 0 <= k < n && (#[trigger] v[k]).status is Warn,
        failures(v, n) + warnings(v, n) <= n,
    decreases n,
{
    if n > 0 {
        lemma_tallies(v, n - 1);
        if v[n - 1].status is Fail {
            assert(v[n - 1].status is Fail);
        }
    }
}

/// Failures and warnings are counted one by one.
pub proof fn law_results_are_counted(v: Seq<ItemView>, c: ItemView)
    ensures
        failures(v.push(c), v.len() as int + 1) == failures(v, v.len() as int) + (
        if c.status is Fail {
            1nat
        } else {
            0nat
        }),
        warnings(v.push(c), v.len() as int + 1) == warnings(v, v.len() as int) + (
        if c.status is Warn {
            1nat
        } else {
            0nat
        }),
{
    lemma_tallies_same(v, v.push(c), v.len() as int);
}

proof fn lemma_tallies_same(a: Seq<ItemView>, b: Seq<ItemView>, n: int)
    requires
        0 <= n <= a.len() <= b.len(),
        forall|i: int| 0 <= i < n ==> a[i] == #[trigger] b[i],
    ensures
        failures(a, n) == failures(b, n),
        warnings(a, n) == warnings(b, n),
    decreases n,
{
    if n > 0 {
        lemma_tallies_same(a, b, n - 1);
        assert(a[n - 1] == b[n - 1]);
    }
}

/// A line of a check tells its outcome, and what is wrong where something is.
pub proof fn law_line_tells_the_outcome(c: ItemView)
    ensures
        c.status matches StatusView::Fail(m) ==> ("  FAIL  "@ + m).is_suffix_of(item_lines(c)[0]),
        c.status matches StatusView::Warn(m) ==> ("  warn  "@ + m).is_suffix_of(item_lines(c)[0]),
        c.status == StatusView::Pass(None) ==> "  ok"@.is_suffix_of(item_lines(c)[0]),
        c.status matches StatusView::Pass(Some(d)) ==> (d.len() > 0 ==> ("  ok  ("@ + d
            + ")"@).is_suffix_of(item_lines(c)[0])),
        ("  "@ + c.label).is_prefix_of(item_lines(c)[0]),
{
    let l = item_lines(c)[0];
    let h = "  "@ + c.label;
    assert(l.subrange(0, h.len() as int) =~= h);
    let t = match c.status {
        StatusView::Fail(m) => "  FAIL  "@ + m,
        StatusView::Warn(m) => "  warn  "@ + m,
        StatusView::Pass(d) => match json::filled_text(d) {
            Some(x) => "  ok  ("@ + x + ")"@,
            None => "  ok"@,
        },
    };
    assert(l.subrange(l.len() - t.len(), l.len() as int) =~= t);
}

/// The results bring every check.
pub proof fn law_results_bring_every_check(v: Seq<ItemView>, i: int, x: Seq<char>)
    requires
        0 <= i < v.len(),
        item_lines(v[i]).contains(x),
    ensures
        results_text(v).contains(x),
{
    lemma_items_bring(v, v.len() as int, i, x);
    let head = seq![""@, "mati check"@, ""@];
    let body = items_text(v, v.len() as int);
    let n = v.len() as int;
    let tail = seq![""@, verdict(failures(v, n), warnings(v, n)), ""@];
    text::lemma_line_of_either(head, body, x);
    text::lemma_line_of_either(head + body, tail, x);
}

proof fn lemma_items_bring(v: Seq<ItemView>, n: int, i: int, x: Seq<char>)
    requires
        0 <= i < n <= v.len(),
        item_lines(v[i]).contains(x),
    ensures
        items_text(v, n).contains(x),
    decreases n,
{
    if i < n - 1 {
        lemma_items_bring(v, n - 1, i, x);
    }
    text::lemma_line_of_either(items_text(v, n - 1), item_lines(v[n - 1]), x);
}

/// A part of the set-up fails exactly where enforcement cannot work without it; a
/// daemon that merely does not run is a warning.
pub proof fn law_missing_parts_are_blockers(
    found: bool,
    db: Result<String, String>,
    ran: Ran,
    ping: Option<(Ping, &str)>,
)
    ensures
        git_item(found).status is Fail <==> !found,
        git_item(found).status is Pass <==> found,
        store_item(db, found).status is Pass <==> db is Ok && found,
        store_item(db, found).status is Fail <==> db is Err || !found,
        mati_item(ran).status is Pass <==> (ran matches Ran::Ended { success, .. } && success),
        mati_item(ran).status is Fail <==> !(ran matches Ran::Ended { success, .. } && success),
        awk_item(ran).status is Pass <==> (ran matches Ran::Ended { stdout, .. } && text::trimmed(
            stdout@,
        ) == "ok"@),
        awk_item(ran).status is Fail <==> !(ran matches Ran::Ended { stdout, .. } && text::trimmed(
            stdout@,
        ) == "ok"@),
        daemon_item(ping).status is Fail <==> (ping matches Some((p, _)) && p
            == Ping::Unresponsive),
        daemon_item(ping).status is Pass <==> (ping matches Some((p, _)) && p == Ping::Answered),
{
}

} // verus!
