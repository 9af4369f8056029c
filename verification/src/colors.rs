//! ANSI 24-bit colours of the command line.
use vstd::prelude::*;

verus! {

pub const RED: &'static str = "\x1b[38;2;248;81;73m";

pub const YELLOW: &'static str = "\x1b[38;2;210;153;34m";

pub const GREEN: &'static str = "\x1b[38;2;63;185;80m";

pub const BLUE: &'static str = "\x1b[38;2;88;166;255m";

pub const PURPLE: &'static str = "\x1b[38;2;188;140;255m";

pub const GRAY: &'static str = "\x1b[38;2;139;148;158m";

pub const CYAN: &'static str = "\x1b[38;2;57;211;83m";

pub const WHITE: &'static str = "\x1b[38;2;230;237;243m";

pub const BOLD: &'static str = "\x1b[1m";

pub const RESET: &'static str = "\x1b[0m";

/// A colour, or nothing where colours are off.
pub open spec fn shade(on: bool, color: Seq<char>) -> Seq<char> {
    if on {
        color
    } else {
        ""@
    }
}

pub fn tint(on: bool, color: &'static str) -> (r: &'static str)
    ensures
        r@ == shade(on, color@),
{
    if on {
        color
    } else {
        ""
    }
}

/// A text in a colour.
pub open spec fn tinted(on: bool, color: Seq<char>, s: Seq<char>) -> Seq<char> {
    shade(on, color) + s + shade(on, RESET@)
}

pub fn paint(on: bool, color: &'static str, s: &str) -> (r: String)
    ensures
        r@ == tinted(on, color@, s@),
{
    tint(on, color).to_owned().concat(s).concat(tint(on, RESET))
}

/// Without colours a text is painted as it is; with colours it stands between the
/// colour and the reset.
pub proof fn law_painting_keeps_the_text(color: Seq<char>, s: Seq<char>)
    ensures
        tinted(false, color, s) == s,
        tinted(true, color, s) == color + s + "\x1b[0m"@,
        shade(false, color).len() == 0,
{
    reveal_strlit("");
    assert(tinted(false, color, s) =~= s);
}

} // verus!
