//! `mati config`: reading and changing the enforcement settings.
use vstd::prelude::*;
use crate::json;
use crate::text;

verus! {

/// Arguments of `mati config`.
#[derive(Debug, PartialEq, Eq)]
pub struct ConfigArgs {
    pub command: ConfigCommand,
}

#[derive(Debug, PartialEq, Eq)]
pub enum ConfigCommand {
    /// Show a setting.
    Get { key: String },
    /// Change a setting.
    Assign { key: String, value: String },
}

/// What is printed after a change.
pub open spec fn change_text(key: Seq<char>, value: Seq<char>, old: Seq<char>) -> Option<Seq<char>> {
    if key == "audit.write_durability"@ {
        Some(
            if old == value {
                "audit.write_durability is already "@ + value
            } else if old.len() == 0 {
                "audit.write_durability: "@ + value
            } else {
                "audit.write_durability: "@ + old + " \u{2192} "@ + value
            },
        )
    } else if key == "enforcement.retention"@ {
        Some("enforcement.retention: "@ + value + " days"@)
    } else {
        None
    }
}

/// The line on a change from an old value, empty where that is not known; a key
/// that has no line of its own yields none.
pub fn change_line(key: &str, value: &str, was: &str) -> (r: Option<String>)
    ensures
        json::opt_text(r) == change_text(key@, value@, was@),
{
    if text::same(key, "audit.write_durability") {
        if text::same(was, value) {
            Some("audit.write_durability is already ".to_owned().concat(value))
        } else if text::same(was, "") {
            proof {
                reveal_strlit("");
            }
            Some("audit.write_durability: ".to_owned().concat(value))
        } else {
            proof {
                reveal_strlit("");
                assert(was@.len() == 0 ==> was@ =~= ""@);
            }
            Some(
                "audit.write_durability: ".to_owned().concat(was).concat(" \u{2192} ").concat(
                    value,
                ),
            )
        }
    } else if text::same(key, "enforcement.retention") {
        Some("enforcement.retention: ".to_owned().concat(value).concat(" days"))
    } else {
        None
    }
}

/// A change of the durability tells the old value and the new one, and that nothing
/// changed exactly where they agree; a change of the retention tells the days. Other
/// settings are told nowhere here.
pub proof fn law_changes_are_told(value: Seq<char>, old: Seq<char>, key: Seq<char>)
    ensures
        ({
            let d = "audit.write_durability"@;
            &&& change_text(d, value, value) == Some("audit.write_durability is already "@ + value)
            &&& old != value && old.len() > 0 ==> change_text(d, value, old) == Some(
                "audit.write_durability: "@ + old + " \u{2192} "@ + value,
            )
            &&& old != value && old.len() == 0 ==> change_text(d, value, old) == Some(
                "audit.write_durability: "@ + value,
            )
            &&& change_text("enforcement.retention"@, value, old) == Some(
                "enforcement.retention: "@ + value + " days"@,
            )
            &&& change_text(key, value, old) is Some <==> key == d || key
                == "enforcement.retention"@
        }),
{
    reveal_strlit("audit.write_durability");
    reveal_strlit("enforcement.retention");
    assert("audit.write_durability"@.len() == 22 && "enforcement.retention"@.len() == 21);
}

} // verus!
