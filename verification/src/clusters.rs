//! `mati clusters`: groups of files that change together.
use vstd::prelude::*;
use crate::colors;
use crate::paths;
use crate::text;

verus! {

/// Arguments of `mati clusters`.
#[derive(Debug, PartialEq, Eq)]
pub struct ClustersArgs {
    /// Show only the cluster with this label.
    pub cluster: Option<String>,
    /// Print the index as JSON.
    pub json: bool,
    /// Show only clusters with at least this many members.
    pub min_size: u32,
}

#[derive(Debug, PartialEq, Eq)]
pub struct Cluster {
    pub label: String,
    pub size: u32,
    /// The cohesion with two decimals.
    pub cohesion: String,
    pub centroid: String,
    pub members: Vec<String>,
}

#[derive(Debug, PartialEq, Eq)]
pub struct ClusterIndex {
    pub clusters: Vec<Cluster>,
    pub total: u64,
    pub clustered_files: u64,
    pub isolated_files: u64,
}

/// The heading of a cluster.
pub open spec fn title_text(c: Cluster, on: bool) -> Seq<char> {
    colors::shade(on, colors::BOLD@) + colors::tinted(
        on,
        colors::BLUE@,
        "\u{25cf} "@ + c.label@,
    ) + " ("@ + text::dec(c.size as nat) + " files, cohesion "@ + c.cohesion@ + ", centroid: "@
        + paths::path_stem(c.centroid@) + ")"@
}

fn title(c: &Cluster, on: bool) -> (r: String)
    ensures
        r@ == title_text(*c, on),
{
    let label = "\u{25cf} ".to_owned().concat(c.label.as_str());
    colors::tint(on, colors::BOLD).to_owned().concat(
        colors::paint(on, colors::BLUE, label.as_str()).as_str(),
    ).concat(" (").concat(text::decimal(c.size as u64).as_str()).concat(
        " files, cohesion ",
    ).concat(c.cohesion.as_str()).concat(", centroid: ").concat(
        paths::stem(c.centroid.as_str()).as_str(),
    ).concat(")")
}

pub open spec fn member_lines(v: Seq<Seq<char>>, on: bool) -> Seq<Seq<char>> {
    v.map_values(|m: Seq<char>| "  "@ + colors::tinted(on, colors::CYAN@, m))
}

/// The first members.
pub open spec fn head_of(v: Seq<Seq<char>>, limit: nat) -> Seq<Seq<char>> {
    if v.len() > limit {
        v.take(limit as int)
    } else {
        v
    }
}

fn push_members(out: &mut Vec<String>, v: &Vec<String>, limit: usize, on: bool)
    ensures
        text::texts(final(out)@) == text::texts(old(out)@) + member_lines(
            head_of(text::texts(v@), limit as nat),
            on,
        ),
{
    let ghost head = text::texts(out@);
    let ghost all = text::texts(v@);
    let n: usize = if v.len() > limit {
        limit
    } else {
        v.len()
    };
    let mut i: usize = 0;
    assert(head + member_lines(all.take(0), on) =~= head);
    while i < n
        invariant
            i <= n <= v.len(),
            all == text::texts(v@),
            text::texts(out@) == head + member_lines(all.take(i as int), on),
        decreases n - i,
    {
        assert(all[i as int] == v@[i as int]@);
        text::push_line(
            out,
            "  ".to_owned().concat(colors::paint(on, colors::CYAN, v[i].as_str()).as_str()),
        );
        assert(text::texts(out@) =~= head + member_lines(all.take(i + 1), on));
        i = i + 1;
    }
    assert(all.len() == v@.len());
    assert(all.take(i as int) =~= head_of(all, limit as nat));
}

/// A cluster that was asked for by its label: all its members.
pub open spec fn full_text(c: Cluster, on: bool) -> Seq<Seq<char>> {
    seq![""@, title_text(c, on)] + member_lines(text::texts(c.members@), on)
}

/// The clusters with a label, among the first `n`.
pub open spec fn labelled(v: Seq<Cluster>, label: Seq<char>, on: bool, n: int) -> Seq<Seq<char>>
    decreases n,
{
    if n <= 0 {
        Seq::empty()
    } else {
        labelled(v, label, on, n - 1) + (if v[n - 1].label@ == label {
            full_text(v[n - 1], on)
        } else {
            Seq::empty()
        })
    }
}

pub open spec fn has_label(v: Seq<Cluster>, label: Seq<char>) -> bool {
    exists|k: int| 0 <= k < v.len() && (#[trigger] v[k]).label@ == label
}

/// What is printed of the clusters with a label.
pub open spec fn labelled_text(v: Seq<Cluster>, label: Seq<char>, on: bool) -> Seq<Seq<char>> {
    if has_label(v, label) {
        labelled(v, label, on, v.len() as int) + seq![""@]
    } else {
        seq!["No cluster with label '"@ + label + "' found."@]
    }
}

fn push_full(out: &mut Vec<String>, c: &Cluster, on: bool)
    ensures
        text::texts(final(out)@) == text::texts(old(out)@) + full_text(*c, on),
{
    let ghost start = text::texts(out@);
    text::push_line(out, "".to_owned());
    text::push_line(out, title(c, on));
    push_members(out, &c.members, usize::MAX, on);
    assert(text::texts(c.members@).len() == c.members.len());
    assert(head_of(text::texts(c.members@), usize::MAX as nat) == text::texts(c.members@));
    assert(text::texts(out@) =~= start + full_text(*c, on));
}

/// The lines on the clusters with a label.
pub fn show_label(index: &ClusterIndex, label: &str, on: bool) -> (r: Vec<String>)
    ensures
        text::texts(r@) == labelled_text(index.clusters@, label@, on),
{
    let v = &index.clusters;
    let mut out: Vec<String> = Vec::new();
    let mut found = false;
    let mut i: usize = 0;
    assert(text::texts(out@) =~= labelled(v@, label@, on, 0));
    while i < v.len()
        invariant
            i <= v.len(),
            *v == index.clusters,
            text::texts(out@) == labelled(v@, label@, on, i as int),
            found == (exists|k: int| 0 <= k < i && (#[trigger] v@[k]).label@ == label@),
        decreases v.len() - i,
    {
        if text::same(v[i].label.as_str(), label) {
            found = true;
            assert(v@[i as int].label@ == label@);
            push_full(&mut out, &v[i], on);
        } else {
            assert(text::texts(out@) + Seq::<Seq<char>>::empty() =~= text::texts(out@));
        }
        i = i + 1;
    }
    if !found {
        let mut none: Vec<String> = Vec::new();
        text::push_line(
            &mut none,
            "No cluster with label '".to_owned().concat(label).concat("' found."),
        );
        assert(text::texts(none@) =~= labelled_text(v@, label@, on));
        return none;
    }
    let ghost before = text::texts(out@);
    text::push_line(&mut out, "".to_owned());
    assert(text::texts(out@) =~= before + seq![""@]);
    out
}

/// A cluster in the list: at most ten of its members.
pub open spec fn short_text(c: Cluster, on: bool) -> Seq<Seq<char>> {
    let n = c.members@.len();
    seq![title_text(c, on)] + member_lines(head_of(text::texts(c.members@), 10), on) + (if n > 10 {
        seq![
            "  "@ + colors::tinted(
                on,
                colors::GRAY@,
                "(+"@ + text::dec((n - 10) as nat) + " more)"@,
            ),
        ]
    } else {
        Seq::empty()
    }) + seq![""@]
}

/// The clusters with enough members, among the first `n`.
pub open spec fn sized(v: Seq<Cluster>, min: u32, on: bool, n: int) -> Seq<Seq<char>>
    decreases n,
{
    if n <= 0 {
        Seq::empty()
    } else {
        sized(v, min, on, n - 1) + (if v[n - 1].size >= min {
            short_text(v[n - 1], on)
        } else {
            Seq::empty()
        })
    }
}

pub open spec fn has_size(v: Seq<Cluster>, min: u32) -> bool {
    exists|k: int| 0 <= k < v.len() && (#[trigger] v[k]).size >= min
}

pub open spec fn list_head(index: ClusterIndex, on: bool) -> Seq<Seq<char>> {
    seq![
        ""@,
        colors::shade(on, colors::BOLD@) + colors::tinted(
            on,
            colors::BLUE@,
            "CO-CHANGE CLUSTERS"@,
        ) + " ("@ + text::dec(index.total as nat) + " total, "@ + text::dec(
            index.clustered_files as nat,
        ) + " of "@ + text::dec((index.clustered_files + index.isolated_files) as nat)
            + " files)"@,
        ""@,
    ]
}

/// What is printed of the clusters with enough members.
pub open spec fn list_text(index: ClusterIndex, min: u32, on: bool) -> Seq<Seq<char>> {
    let v = index.clusters@;
    if has_size(v, min) {
        list_head(index, on) + sized(v, min, on, v.len() as int)
    } else {
        seq!["No clusters found with at least "@ + text::dec(min as nat) + " members."@]
    }
}

fn push_short(out: &mut Vec<String>, c: &Cluster, on: bool)
    ensures
        text::texts(final(out)@) == text::texts(old(out)@) + short_text(*c, on),
{
    let ghost start = text::texts(out@);
    text::push_line(out, title(c, on));
    push_members(out, &c.members, 10, on);
    if c.members.len() > 10 {
        let more = "(+".to_owned().concat(
            text::decimal((c.members.len() - 10) as u64).as_str(),
        ).concat(" more)");
        text::push_line(
            out,
            "  ".to_owned().concat(colors::paint(on, colors::GRAY, more.as_str()).as_str()),
        );
    }
    text::push_line(out, "".to_owned());
    assert(text::texts(out@) =~= start + short_text(*c, on));
}

/// The lines on the clusters with enough members.
pub fn list_clusters(index: &ClusterIndex, min_size: u32, on: bool) -> (r: Vec<String>)
    requires
        index.clustered_files + index.isolated_files <= u64::MAX,
    ensures
        text::texts(r@) == list_text(*index, min_size, on),
{
    let v = &index.clusters;
    let mut out: Vec<String> = Vec::new();
    text::push_line(&mut out, "".to_owned());
    text::push_line(
        &mut out,
        colors::tint(on, colors::BOLD).to_owned().concat(
            colors::paint(on, colors::BLUE, "CO-CHANGE CLUSTERS").as_str(),
        ).concat(" (").concat(text::decimal(index.total).as_str()).concat(" total, ").concat(
            text::decimal(index.clustered_files).as_str(),
        ).concat(" of ").concat(
            text::decimal(index.clustered_files + index.isolated_files).as_str(),
        ).concat(" files)"),
    );
    text::push_line(&mut out, "".to_owned());
    let ghost head = list_head(*index, on);
    assert(text::texts(out@) =~= head);
    assert(head + sized(v@, min_size, on, 0) =~= head);
    let mut found = false;
    let mut i: usize = 0;
    while i < v.len()
        invariant
            i <= v.len(),
            *v == index.clusters,
            text::texts(out@) == head + sized(v@, min_size, on, i as int),
            found == (exists|k: int| 0 <= k < i && (#[trigger] v@[k]).size >= min_size),
        decreases v.len() - i,
    {
        if v[i].size >= min_size {
            found = true;
            assert(v@[i as int].size >= min_size);
            push_short(&mut out, &v[i], on);
            proof {
                text::lemma_append_two(
                    head,
                    sized(v@, min_size, on, i as int),
                    short_text(v@[i as int], on),
                    Seq::empty(),
                );
            }
        } else {
            assert(sized(v@, min_size, on, i + 1) =~= sized(v@, min_size, on, i as int));
        }
        i = i + 1;
    }
    if !found {
        let mut none: Vec<String> = Vec::new();
        text::push_line(
            &mut none,
            "No clusters found with at least ".to_owned().concat(
                text::decimal(min_size as u64).as_str(),
            ).concat(" members."),
        );
        assert(text::texts(none@) =~= list_text(*index, min_size, on));
        return none;
    }
    out
}

/// What `mati clusters` prints.
pub open spec fn report_text(index: Option<ClusterIndex>, args: ClustersArgs, on: bool) -> Seq<
    Seq<char>,
> {
    match index {
        None => seq!["No cluster data found. Run `mati init` first."@],
        Some(index) => match args.cluster {
            Some(label) => labelled_text(index.clusters@, label@, on),
            None => list_text(index, args.min_size, on),
        },
    }
}

/// The lines for people; where the store holds no index there is nothing to list.
pub fn clusters_report(index: &Option<ClusterIndex>, args: &ClustersArgs, on: bool) -> (r: Vec<
    String,
>)
    requires
        index is Some ==> index->0.clustered_files + index->0.isolated_files <= u64::MAX,
    ensures
        text::texts(r@) == report_text(*index, *args, on),
{
    match index {
        None => {
            let mut out: Vec<String> = Vec::new();
            text::push_line(&mut out, "No cluster data found. Run `mati init` first.".to_owned());
            assert(text::texts(out@) =~= report_text(*index, *args, on));
            out
        },
        Some(found) => match &args.cluster {
            Some(label) => show_label(found, label.as_str(), on),
            None => list_clusters(found, args.min_size, on),
        },
    }
}

// ---------------------------------------------------------------------------
// What the lists are for
// ---------------------------------------------------------------------------

proof fn lemma_plain()
    ensures
        forall|c: Seq<char>, s: Seq<char>| #[trigger] colors::tinted(false, c, s) == s,
        forall|c: Seq<char>| #[trigger] colors::shade(false, c) == Seq::<char>::empty(),
{
    assert forall|c: Seq<char>, s: Seq<char>| #[trigger] colors::tinted(false, c, s) == s by {
        colors::law_painting_keeps_the_text(c, s);
    }
    assert forall|c: Seq<char>| #[trigger] colors::shade(false, c) == Seq::<char>::empty() by {
        colors::law_painting_keeps_the_text(c, c);
        assert(colors::shade(false, c) =~= Seq::<char>::empty());
    }
}

/// A title names the cluster, its size and the file at its centre.
pub proof fn law_title_names_the_cluster(c: Cluster)
    ensures
        ("\u{25cf} "@ + c.label@ + " ("@ + text::dec(c.size as nat) + " files"@).is_prefix_of(
            title_text(c, false),
        ),
        (", centroid: "@ + paths::path_stem(c.centroid@) + ")"@).is_suffix_of(
            title_text(c, false),
        ),
        text::text_contains(title_text(c, false), c.cohesion@),
{
    lemma_plain();
    reveal_strlit(" files");
    reveal_strlit(" files, cohesion ");
    let t = title_text(c, false);
    let a = "\u{25cf} "@ + c.label@ + " ("@ + text::dec(c.size as nat) + " files"@;
    assert(t.subrange(0, a.len() as int) =~= a);
    let z = ", centroid: "@ + paths::path_stem(c.centroid@) + ")"@;
    assert(t.subrange(t.len() - z.len(), t.len() as int) =~= z);
    let b = "\u{25cf} "@ + c.label@ + " ("@ + text::dec(c.size as nat) + " files, cohesion "@;
    assert(t =~= b + c.cohesion@ + z);
    text::lemma_part_occurs(b, c.cohesion@, z);
}

/// A cluster that was asked for by its label is shown with all its files, and one of
/// another label is not asked for; a label that no cluster has is told to be unknown.
pub proof fn law_label_shows_its_clusters(v: Seq<Cluster>, label: Seq<char>, i: int, k: int)
    requires
        0 <= i < v.len(),
        0 <= k < v[i].members@.len(),
    ensures
        v[i].label@ == label ==> labelled_text(v, label, false).contains(title_text(v[i], false))
            && labelled_text(v, label, false).contains("  "@ + v[i].members@[k]@),
        (forall|j: int| 0 <= j < v.len() ==> (#[trigger] v[j]).label@ != label) ==> labelled_text(
            v,
            label,
            false,
        ) == seq!["No cluster with label '"@ + label + "' found."@],
{
    lemma_plain();
    if v[i].label@ == label {
        assert(has_label(v, label));
        let f = full_text(v[i], false);
        let t = title_text(v[i], false);
        let m = "  "@ + v[i].members@[k]@;
        assert(f[1] == t);
        assert(f[2 + k] == member_lines(text::texts(v[i].members@), false)[k]);
        assert(f[2 + k] =~= m);
        assert(f.contains(t) && f.contains(m));
        let n = v.len() as int;
        lemma_labelled_brings(v, label, n, i, t);
        lemma_labelled_brings(v, label, n, i, m);
        text::lemma_line_of_either(labelled(v, label, false, n), seq![""@], t);
        text::lemma_line_of_either(labelled(v, label, false, n), seq![""@], m);
    }
}

proof fn lemma_labelled_brings(v: Seq<Cluster>, label: Seq<char>, n: int, i: int, x: Seq<char>)
    requires
        0 <= i < n <= v.len(),
        v[i].label@ == label,
        full_text(v[i], false).contains(x),
    ensures
        labelled(v, label, false, n).contains(x),
    decreases n,
{
    let own = if v[n - 1].label@ == label {
        full_text(v[n - 1], false)
    } else {
        Seq::empty()
    };
    if i < n - 1 {
        lemma_labelled_brings(v, label, n - 1, i, x);
    }
    text::lemma_line_of_either(labelled(v, label, false, n - 1), own, x);
}

/// A cluster adds to what is shown exactly where it has the label that was asked for,
/// or, in the list, at least the size that was asked for.
pub proof fn law_only_matching_clusters_are_shown(v: Seq<Cluster>, n: int, label: Seq<char>, min: u32)
    requires
        0 < n <= v.len(),
    ensures
        v[n - 1].label@ != label ==> labelled(v, label, false, n) == labelled(
            v,
            label,
            false,
            n - 1,
        ),
        v[n - 1].label@ == label ==> labelled(v, label, false, n).len() == labelled(
            v,
            label,
            false,
            n - 1,
        ).len() + 2 + v[n - 1].members@.len(),
        v[n - 1].size < min ==> sized(v, min, false, n) == sized(v, min, false, n - 1),
        v[n - 1].size >= min ==> sized(v, min, false, n).len() > sized(v, min, false, n - 1).len(),
{
    assert(labelled(v, label, false, n - 1) + Seq::<Seq<char>>::empty() =~= labelled(
        v,
        label,
        false,
        n - 1,
    ));
    assert(sized(v, min, false, n - 1) + Seq::<Seq<char>>::empty() =~= sized(v, min, false, n - 1));
}

/// In the list a cluster shows up to ten of its files, and counts the rest.
pub proof fn law_list_shows_ten_files(c: Cluster, k: int)
    requires
        0 <= k < c.members@.len(),
    ensures
        ({
            let l = short_text(c, false);
            &&& l[0] == title_text(c, false)
            &&& k < 10 ==> l[1 + k] == "  "@ + c.members@[k]@
            &&& c.members@.len() <= 10 ==> l.len() == 2 + c.members@.len()
            &&& c.members@.len() > 10 ==> l.len() == 13 && l[11] == "  (+"@ + text::dec(
                (c.members@.len() - 10) as nat,
            ) + " more)"@
        }),
{
    lemma_plain();
    let l = short_text(c, false);
    let names = text::texts(c.members@);
    let shown = head_of(names, 10);
    if k < 10 {
        assert(shown[k] == names[k]);
        assert(l[1 + k] == member_lines(shown, false)[k]);
        assert(l[1 + k] =~= "  "@ + c.members@[k]@);
    }
    if c.members@.len() > 10 {
        reveal_strlit("  ");
        reveal_strlit("(+");
        reveal_strlit("  (+");
        assert(l[11] =~= "  (+"@ + text::dec((c.members@.len() - 10) as nat) + " more)"@);
    }
}

/// The report shows one label where one was asked for, and else the clusters that are
/// large enough; without any it says so.
pub proof fn law_report_is_what_was_asked_for(index: ClusterIndex, args: ClustersArgs)
    ensures
        report_text(None, args, false).len() == 1,
        args.cluster matches Some(label) ==> report_text(Some(index), args, false)
            == labelled_text(index.clusters@, label@, false),
        args.cluster is None && (exists|k: int|
            0 <= k < index.clusters@.len() && (#[trigger] index.clusters@[k]).size
                >= args.min_size) ==> report_text(Some(index), args, false)
            == list_head(index, false) + sized(
            index.clusters@,
            args.min_size,
            false,
            index.clusters@.len() as int,
        ),
        args.cluster is None && (forall|k: int|
            0 <= k < index.clusters@.len() ==> (#[trigger] index.clusters@[k]).size
                < args.min_size) ==> report_text(Some(index), args, false) == seq![
            "No clusters found with at least "@ + text::dec(args.min_size as nat) + " members."@,
        ],
{
}

} // verus!
