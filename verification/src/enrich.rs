//! `mati enrich`: where enrichment is run from.
use vstd::prelude::*;
use crate::colors;
use crate::host::Assistant;
use crate::text;

verus! {

/// Arguments of `mati enrich`: none.
#[derive(Debug, PartialEq, Eq)]
pub struct EnrichArgs {}

/// A command and what it does.
pub open spec fn entry(command: Seq<char>, gap: Seq<char>, note: Seq<char>, on: bool) -> Seq<char> {
    "    "@ + colors::tinted(on, colors::WHITE@, command) + gap + colors::tinted(
        on,
        colors::GRAY@,
        note,
    )
}

fn entry_line(command: &str, gap: &str, note: &str, on: bool) -> (r: String)
    ensures
        r@ == entry(command@, gap@, note@, on),
{
    "    ".to_owned().concat(colors::paint(on, colors::WHITE, command).as_str()).concat(gap).concat(
        colors::paint(on, colors::GRAY, note).as_str(),
    )
}

/// What `mati enrich` prints.
pub open spec fn guide_text(product: Seq<char>, on: bool) -> Seq<Seq<char>> {
    seq![
        ""@,
        "  "@ + colors::shade(on, colors::BOLD@) + colors::tinted(
            on,
            colors::BLUE@,
            "mati enrich"@,
        ) + " \u{2014} LLM-powered knowledge extraction"@,
        ""@,
        "  Enrichment runs inside your active "@ + product + " or Codex session."@,
        "  It uses the agent that's already running \u{2014} no separate API key or token cost."@,
        ""@,
        "  "@ + colors::tinted(on, colors::BOLD@, "In "@ + product + ", type:"@),
        entry(
            "/mati-enrich"@,
            "                "@,
            "enrich top hotspot gaps (recommended first run)"@,
            on,
        ),
        entry("/mati-enrich src/payments"@, "   "@, "enrich a specific directory"@, on),
        entry("/mati-enrich src/main.rs"@, "    "@, "enrich a single file"@, on),
        ""@,
        "  "@ + colors::tinted(on, colors::BOLD@, "In Codex,"@)
            + " the mati skill guides enrichment automatically during sessions."@,
        ""@,
        "  "@ + colors::tinted(on, colors::BOLD@, "After enrichment, run:"@),
        entry(
            "mati review"@,
            "                 "@,
            "confirm extracted gotchas for hook enforcement"@,
            on,
        ),
        entry(
            "mati stats"@,
            "                  "@,
            "see updated coverage and onboarding score"@,
            on,
        ),
        ""@,
    ]
}

pub fn guide(host: &Assistant, on: bool) -> (r: Vec<String>)
    ensures
        text::texts(r@) == guide_text(host.product@, on),
{
    let mut out: Vec<String> = Vec::new();
    let place = "In ".to_owned().concat(host.product.as_str()).concat(", type:");
    text::push_line(&mut out, "".to_owned());
    text::push_line(
        &mut out,
        "  ".to_owned().concat(colors::tint(on, colors::BOLD)).concat(
            colors::paint(on, colors::BLUE, "mati enrich").as_str(),
        ).concat(" \u{2014} LLM-powered knowledge extraction"),
    );
    text::push_line(&mut out, "".to_owned());
    text::push_line(
        &mut out,
        "  Enrichment runs inside your active ".to_owned().concat(host.product.as_str()).concat(
            " or Codex session.",
        ),
    );
    text::push_line(
        &mut out,
        "  It uses the agent that's already running \u{2014} no separate API key or token cost.".to_owned(),
    );
    text::push_line(&mut out, "".to_owned());
    text::push_line(
        &mut out,
        "  ".to_owned().concat(
            colors::paint(on, colors::BOLD, place.as_str()).as_str(),
        ),
    );
    text::push_line(
        &mut out,
        entry_line(
            "/mati-enrich",
            "                ",
            "enrich top hotspot gaps (recommended first run)",
            on,
        ),
    );
    text::push_line(
        &mut out,
        entry_line("/mati-enrich src/payments", "   ", "enrich a specific directory", on),
    );
    text::push_line(
        &mut out,
        entry_line("/mati-enrich src/main.rs", "    ", "enrich a single file", on),
    );
    text::push_line(&mut out, "".to_owned());
    text::push_line(
        &mut out,
        "  ".to_owned().concat(colors::paint(on, colors::BOLD, "In Codex,").as_str()).concat(
            " the mati skill guides enrichment automatically during sessions.",
        ),
    );
    text::push_line(&mut out, "".to_owned());
    text::push_line(
        &mut out,
        "  ".to_owned().concat(
            colors::paint(on, colors::BOLD, "After enrichment, run:").as_str(),
        ),
    );
    text::push_line(
        &mut out,
        entry_line(
            "mati review",
            "                 ",
            "confirm extracted gotchas for hook enforcement",
            on,
        ),
    );
    text::push_line(
        &mut out,
        entry_line(
            "mati stats",
            "                  ",
            "see updated coverage and onboarding score",
            on,
        ),
    );
    text::push_line(&mut out, "".to_owned());
    assert(text::texts(out@) =~= guide_text(host.product@, on));
    out
}

/// The guide says where enrichment runs, how it is started for everything, for a
/// directory and for a file, and what follows it.
pub proof fn law_guide_says_where_to_go(product: Seq<char>)
    ensures
        ({
            let g = guide_text(product, false);
            &&& g[3] == "  Enrichment runs inside your active "@ + product
                + " or Codex session."@
            &&& g[6] == "  "@ + ("In "@ + product + ", type:"@)
            &&& ("    "@ + "/mati-enrich"@).is_prefix_of(g[7])
            &&& ("    "@ + "/mati-enrich src/payments"@).is_prefix_of(g[8])
            &&& ("    "@ + "/mati-enrich src/main.rs"@).is_prefix_of(g[9])
            &&& ("    "@ + "mati review"@).is_prefix_of(g[14])
            &&& ("    "@ + "mati stats"@).is_prefix_of(g[15])
        }),
{
    let g = guide_text(product, false);
    assert forall|c: Seq<char>, s: Seq<char>| #[trigger] colors::tinted(false, c, s) == s by {
        colors::law_painting_keeps_the_text(c, s);
    }
    lemma_entry_begins(
        "/mati-enrich"@,
        "                "@,
        "enrich top hotspot gaps (recommended first run)"@,
    );
    lemma_entry_begins("/mati-enrich src/payments"@, "   "@, "enrich a specific directory"@);
    lemma_entry_begins("/mati-enrich src/main.rs"@, "    "@, "enrich a single file"@);
    lemma_entry_begins(
        "mati review"@,
        "                 "@,
        "confirm extracted gotchas for hook enforcement"@,
    );
    lemma_entry_begins(
        "mati stats"@,
        "                  "@,
        "see updated coverage and onboarding score"@,
    );
}

proof fn lemma_entry_begins(command: Seq<char>, gap: Seq<char>, note: Seq<char>)
    ensures
        ("    "@ + command).is_prefix_of(entry(command, gap, note, false)),
{
    colors::law_painting_keeps_the_text(colors::WHITE@, command);
    colors::law_painting_keeps_the_text(colors::GRAY@, note);
    let e = entry(command, gap, note, false);
    let h = "    "@ + command;
    assert(e.subrange(0, h.len() as int) =~= h);
}

} // verus!
