//! `mati extract-signals`: the language that a source file is read as.
use vstd::prelude::*;
use crate::text;

verus! {

/// Arguments of `mati extract-signals`.
#[derive(Debug, PartialEq, Eq)]
pub struct ExtractSignalsArgs {
    /// The source file.
    pub file: String,
    /// How many signals to return at most; 0 for all.
    pub limit: usize,
    /// The language, where it is not to be detected.
    pub language: Option<String>,
}

#[derive(Debug, Clone, Copy, PartialEq, Eq, Structural)]
pub enum Language {
    Rust,
    TypeScript,
    JavaScript,
    Python,
    Go,
    Java,
    C,
    Cpp,
    Ruby,
    Scala,
    Elixir,
    Haskell,
    Unknown,
}

/// The language with a label in lower case.
pub open spec fn language_labelled(s: Seq<char>) -> Option<Language> {
    if s == "rust"@ {
        Some(Language::Rust)
    } else if s == "typescript"@ || s == "ts"@ {
        Some(Language::TypeScript)
    } else if s == "javascript"@ || s == "js"@ {
        Some(Language::JavaScript)
    } else if s == "python"@ || s == "py"@ {
        Some(Language::Python)
    } else if s == "go"@ {
        Some(Language::Go)
    } else if s == "java"@ {
        Some(Language::Java)
    } else if s == "c"@ {
        Some(Language::C)
    } else if s == "cpp"@ || s == "c++"@ {
        Some(Language::Cpp)
    } else if s == "ruby"@ || s == "rb"@ {
        Some(Language::Ruby)
    } else if s == "scala"@ {
        Some(Language::Scala)
    } else if s == "elixir"@ || s == "ex"@ {
        Some(Language::Elixir)
    } else if s == "haskell"@ || s == "hs"@ {
        Some(Language::Haskell)
    } else if s == "unknown"@ {
        Some(Language::Unknown)
    } else {
        None
    }
}

fn find_language(s: &str) -> (r: Option<Language>)
    ensures
        r == language_labelled(s@),
{
    if text::same(s, "rust") {
        Some(Language::Rust)
    } else if text::same(s, "typescript") || text::same(s, "ts") {
        Some(Language::TypeScript)
    } else if text::same(s, "javascript") || text::same(s, "js") {
        Some(Language::JavaScript)
    } else if text::same(s, "python") || text::same(s, "py") {
        Some(Language::Python)
    } else if text::same(s, "go") {
        Some(Language::Go)
    } else if text::same(s, "java") {
        Some(Language::Java)
    } else if text::same(s, "c") {
        Some(Language::C)
    } else if text::same(s, "cpp") || text::same(s, "c++") {
        Some(Language::Cpp)
    } else if text::same(s, "ruby") || text::same(s, "rb") {
        Some(Language::Ruby)
    } else if text::same(s, "scala") {
        Some(Language::Scala)
    } else if text::same(s, "elixir") || text::same(s, "ex") {
        Some(Language::Elixir)
    } else if text::same(s, "haskell") || text::same(s, "hs") {
        Some(Language::Haskell)
    } else if text::same(s, "unknown") {
        Some(Language::Unknown)
    } else {
        None
    }
}

/// A text in double quotes, with the escapes of `Debug`.
pub uninterp spec fn debug_quoted(s: Seq<char>) -> Seq<char>;

/// Formats with `Debug` of `str`: the text in double quotes, with escapes. The
/// result depends on the text alone; which characters are escaped is not said.
#[verifier::external_body]
fn quoted(s: &str) -> (r: String)
    ensures
        r@ == debug_quoted(s@),
{
    format!("{:?}", s)
}

pub open spec fn unknown_text(quoted: Seq<char>) -> Seq<char> {
    "unknown language label: "@ + quoted
        + ". Valid: rust, typescript, python, go, javascript, java, c, cpp, ruby, scala, elixir, haskell, unknown."@
}

/// What is said of a label, already in quotes, that names no language.
pub fn unknown_label(quoted: &str) -> (r: String)
    ensures
        r@ == unknown_text(quoted@),
{
    "unknown language label: ".to_owned().concat(quoted).concat(
        ". Valid: rust, typescript, python, go, javascript, java, c, cpp, ruby, scala, elixir, haskell, unknown.",
    )
}

/// The language that a label names, in any case of its ASCII letters.
pub fn parse_language_label(label: &str) -> (r: Result<Language, String>)
    ensures
        match language_labelled(text::ascii_lowered(label@)) {
            Some(l) => r == Ok::<Language, String>(l),
            None => r matches Err(e) && e@ == unknown_text(
                debug_quoted(text::ascii_lowered(label@)),
            ),
        },
{
    let lower = text::ascii_lowercase(label);
    match find_language(lower.as_str()) {
        Some(l) => Ok(l),
        None => Err(unknown_label(quoted(lower.as_str()).as_str())),
    }
}

/// How many of the signals are returned.
pub fn signals_returned(found: usize, limit: usize) -> (r: usize)
    ensures
        r == (if limit > 0 && limit < found {
            limit
        } else {
            found
        }),
{
    if limit > 0 && limit < found {
        limit
    } else {
        found
    }
}

/// Each language goes by its own name or its short form, and any other label is
/// unknown.
pub proof fn law_languages_go_by_their_names(s: Seq<char>)
    ensures
        language_labelled(s) == Some(Language::Rust) <==> s == "rust"@,
        language_labelled(s) == Some(Language::TypeScript) <==> s == "typescript"@ || s == "ts"@,
        language_labelled(s) == Some(Language::JavaScript) <==> s == "javascript"@ || s == "js"@,
        language_labelled(s) == Some(Language::Python) <==> s == "python"@ || s == "py"@,
        language_labelled(s) == Some(Language::Go) <==> s == "go"@,
        language_labelled(s) == Some(Language::Java) <==> s == "java"@,
        language_labelled(s) == Some(Language::C) <==> s == "c"@,
        language_labelled(s) == Some(Language::Cpp) <==> s == "cpp"@ || s == "c++"@,
        language_labelled(s) == Some(Language::Ruby) <==> s == "ruby"@ || s == "rb"@,
        language_labelled(s) == Some(Language::Scala) <==> s == "scala"@,
        language_labelled(s) == Some(Language::Elixir) <==> s == "elixir"@ || s == "ex"@,
        language_labelled(s) == Some(Language::Haskell) <==> s == "haskell"@ || s == "hs"@,
        language_labelled(s) == Some(Language::Unknown) <==> s == "unknown"@,
{
    reveal_strlit("rust");
    reveal_strlit("typescript");
    reveal_strlit("ts");
    reveal_strlit("javascript");
    reveal_strlit("js");
    reveal_strlit("python");
    reveal_strlit("py");
    reveal_strlit("go");
    reveal_strlit("java");
    reveal_strlit("c");
    reveal_strlit("cpp");
    reveal_strlit("c++");
    reveal_strlit("ruby");
    reveal_strlit("rb");
    reveal_strlit("scala");
    reveal_strlit("elixir");
    reveal_strlit("ex");
    reveal_strlit("haskell");
    reveal_strlit("hs");
    reveal_strlit("unknown");
    assert("rust"@[2] == 's' && "ruby"@[2] == 'b');
    assert("rust"@.len() == 4 && "rust"@[0] == 'r' && "rust"@[1] == 'u');
    assert("typescript"@.len() == 10 && "typescript"@[0] == 't' && "typescript"@[1] == 'y');
    assert("ts"@.len() == 2 && "ts"@[0] == 't' && "ts"@[1] == 's');
    assert("javascript"@.len() == 10 && "javascript"@[0] == 'j' && "javascript"@[1] == 'a');
    assert("js"@.len() == 2 && "js"@[0] == 'j' && "js"@[1] == 's');
    assert("python"@.len() == 6 && "python"@[0] == 'p' && "python"@[1] == 'y');
    assert("py"@.len() == 2 && "py"@[0] == 'p' && "py"@[1] == 'y');
    assert("go"@.len() == 2 && "go"@[0] == 'g' && "go"@[1] == 'o');
    assert("java"@.len() == 4 && "java"@[0] == 'j' && "java"@[1] == 'a');
    assert("c"@.len() == 1 && "c"@[0] == 'c');
    assert("cpp"@.len() == 3 && "cpp"@[0] == 'c' && "cpp"@[1] == 'p');
    assert("c++"@.len() == 3 && "c++"@[0] == 'c' && "c++"@[1] == '+');
    assert("ruby"@.len() == 4 && "ruby"@[0] == 'r' && "ruby"@[1] == 'u');
    assert("rb"@.len() == 2 && "rb"@[0] == 'r' && "rb"@[1] == 'b');
    assert("scala"@.len() == 5 && "scala"@[0] == 's' && "scala"@[1] == 'c');
    assert("elixir"@.len() == 6 && "elixir"@[0] == 'e' && "elixir"@[1] == 'l');
    assert("ex"@.len() == 2 && "ex"@[0] == 'e' && "ex"@[1] == 'x');
    assert("haskell"@.len() == 7 && "haskell"@[0] == 'h' && "haskell"@[1] == 'a');
    assert("hs"@.len() == 2 && "hs"@[0] == 'h' && "hs"@[1] == 's');
    assert("unknown"@.len() == 7 && "unknown"@[0] == 'u' && "unknown"@[1] == 'n');
}

} // verus!
