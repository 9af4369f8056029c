//! `mati policy verify`: which key a signed policy bundle is held against, and how
//! the outcome is shown. Nothing here signs a bundle.
use vstd::prelude::*;
use base64::Engine;
use crate::json;
use crate::json::Json;
use crate::json::JsonView;
use crate::text;

verus! {

/// Arguments of `mati policy`.
#[derive(Debug, PartialEq, Eq)]
pub struct PolicyArgs {
    pub command: PolicyCommand,
}

#[derive(Debug, PartialEq, Eq)]
pub enum PolicyCommand {
    /// Verify the signature of a bundle.
    Verify(VerifyArgs),
}

/// Arguments of `mati policy verify`.
#[derive(Debug, PartialEq, Eq)]
pub struct VerifyArgs {
    /// The file that holds the bundle.
    pub bundle: String,
    /// A public key in base64, trusted under the bundle's own key id.
    pub key: Option<String>,
    /// Print the outcome as JSON.
    pub json: bool,
}

/// A key that signatures are held against.
#[derive(Debug, PartialEq, Eq)]
pub struct TrustedKey {
    pub key_id: String,
    /// The 32 bytes of an Ed25519 public key.
    pub public_key: Vec<u8>,
}

/// Why a key cannot be used.
#[derive(Debug, PartialEq, Eq)]
pub enum KeyError {
    NotBase64(base64::DecodeError),
    NotAKey,
}

impl KeyError {
    pub fn message(&self) -> (r: String)
        ensures
            r@ == (match *self {
                KeyError::NotBase64(_) => "decoding --key base64"@,
                KeyError::NotAKey => "--key must be a 32-byte Ed25519 public key"@,
            }),
    {
        match self {
            KeyError::NotBase64(_) => "decoding --key base64".to_owned(),
            KeyError::NotAKey => "--key must be a 32-byte Ed25519 public key".to_owned(),
        }
    }
}

// ---------------------------------------------------------------------------
// Base64
// ---------------------------------------------------------------------------

/// The error of the base64 decoder; nothing is read out of it here.
#[verifier::external_type_specification]
#[verifier::external_body]
pub struct ExDecodeError(base64::DecodeError);

/// The bytes that a text stands for in the standard base64 alphabet with padding;
/// none where it stands for no bytes.
pub uninterp spec fn base64_bytes(s: Seq<char>) -> Option<Seq<u8>>;

/// Calls `base64::engine::general_purpose::STANDARD.decode`: the bytes of a text,
/// or an error where the text is not in that form. The decoder reads its argument
/// only, so the outcome is a function of the text. Which error comes is not said.
#[verifier::external_body]
fn decode_base64(s: &str) -> (r: Result<Vec<u8>, base64::DecodeError>)
    ensures
        match r {
            Ok(v) => base64_bytes(s@) == Some(v@),
            Err(_) => base64_bytes(s@) is None,
        },
{
    base64::engine::general_purpose::STANDARD.decode(s)
}

/// Whether `r` is the key under an id that decoded bytes make up.
pub open spec fn is_key_of(
    key_id: Seq<char>,
    raw: Option<Seq<u8>>,
    r: Result<TrustedKey, KeyError>,
) -> bool {
    match raw {
        None => r matches Err(KeyError::NotBase64(_)),
        Some(v) => if v.len() == 32 {
            r matches Ok(k) && k.key_id@ == key_id && k.public_key@ == v
        } else {
            r matches Err(KeyError::NotAKey)
        },
    }
}

/// The key under an id that decoded bytes make up: exactly 32 of them.
pub fn key_of_bytes(key_id: &str, raw: Result<Vec<u8>, base64::DecodeError>) -> (r: Result<
    TrustedKey,
    KeyError,
>)
    ensures
        is_key_of(
            key_id@,
            match raw {
                Ok(v) => Some(v@),
                Err(_) => None,
            },
            r,
        ),
{
    match raw {
        Err(e) => Err(KeyError::NotBase64(e)),
        Ok(v) => if v.len() == 32 {
            Ok(TrustedKey { key_id: key_id.to_owned(), public_key: v })
        } else {
            Err(KeyError::NotAKey)
        },
    }
}

/// The key that the user trusts for a bundle. Blanks around the text are dropped.
pub fn trusted_key(key_id: &str, key: &str) -> (r: Result<TrustedKey, KeyError>)
    ensures
        is_key_of(key_id@, base64_bytes(text::trimmed(key@)), r),
{
    let key = text::trim(key);
    key_of_bytes(key_id, decode_base64(key.as_str()))
}

// ---------------------------------------------------------------------------
// The outcome
// ---------------------------------------------------------------------------

/// A rule of a bundle.
#[derive(Debug, PartialEq, Eq)]
pub struct PolicyRule {
    pub level: String,
    pub target: String,
    pub id: String,
}

/// A bundle whose signature holds.
#[derive(Debug, PartialEq, Eq)]
pub struct VerifiedBundle {
    pub org_id: String,
    pub bundle_id: String,
    pub rules: Vec<PolicyRule>,
}

pub open spec fn rule_lines(v: Seq<PolicyRule>) -> Seq<Seq<char>> {
    v.map_values(
        |r: PolicyRule| "    ["@ + r.level@ + "] "@ + r.target@ + " \u{2192} "@ + r.id@,
    )
}

/// What is printed of a bundle that holds.
pub open spec fn verified_text(b: VerifiedBundle) -> Seq<Seq<char>> {
    seq![
        "\u{2713} verified: org="@ + b.org_id@ + " bundle="@ + b.bundle_id@ + " ("@ + text::dec(
            b.rules@.len(),
        ) + " rule(s))"@,
    ] + rule_lines(b.rules@)
}

pub fn verified_lines(b: &VerifiedBundle) -> (r: Vec<String>)
    ensures
        text::texts(r@) == verified_text(*b),
{
    let mut out: Vec<String> = Vec::new();
    text::push_line(
        &mut out,
        "\u{2713} verified: org=".to_owned().concat(b.org_id.as_str()).concat(" bundle=").concat(
            b.bundle_id.as_str(),
        ).concat(" (").concat(text::decimal(b.rules.len() as u64).as_str()).concat(" rule(s))"),
    );
    let ghost head = text::texts(out@);
    let mut i: usize = 0;
    assert(head + rule_lines(b.rules@.take(0)) =~= head);
    while i < b.rules.len()
        invariant
            i <= b.rules.len(),
            text::texts(out@) == head + rule_lines(b.rules@.take(i as int)),
        decreases b.rules.len() - i,
    {
        let r = &b.rules[i];
        text::push_line(
            &mut out,
            "    [".to_owned().concat(r.level.as_str()).concat("] ").concat(
                r.target.as_str(),
            ).concat(" \u{2192} ").concat(r.id.as_str()),
        );
        assert(text::texts(out@) =~= head + rule_lines(b.rules@.take(i + 1)));
        i = i + 1;
    }
    assert(b.rules@.take(i as int) =~= b.rules@);
    assert(text::texts(out@) =~= verified_text(*b));
    out
}

/// What is printed of a bundle that does not hold.
pub fn failed_line(error: &str) -> (r: String)
    ensures
        r@ == "\u{2717} verification failed: "@ + error@,
{
    "\u{2717} verification failed: ".to_owned().concat(error)
}

/// The outcome as a value.
pub open spec fn outcome_view(outcome: Result<VerifiedBundle, String>) -> JsonView {
    match outcome {
        Ok(b) => JsonView::Object(
            seq![
                ("verified"@, JsonView::Bool(true)),
                ("org_id"@, JsonView::Str(b.org_id@)),
                ("bundle_id"@, JsonView::Str(b.bundle_id@)),
                ("rules"@, JsonView::Number(text::dec(b.rules@.len()))),
            ],
        ),
        Err(e) => JsonView::Object(
            seq![("verified"@, JsonView::Bool(false)), ("error"@, JsonView::Str(e@))],
        ),
    }
}

pub fn outcome_json(outcome: &Result<VerifiedBundle, String>) -> (r: Json)
    ensures
        r@ == outcome_view(*outcome),
{
    let mut m: Vec<(String, Json)> = Vec::new();
    match outcome {
        Ok(b) => {
            m.push(("verified".to_owned(), Json::Bool(true)));
            m.push(("org_id".to_owned(), Json::Str(b.org_id.clone())));
            m.push(("bundle_id".to_owned(), Json::Str(b.bundle_id.clone())));
            m.push(("rules".to_owned(), Json::Number(text::decimal(b.rules.len() as u64))));
        },
        Err(e) => {
            m.push(("verified".to_owned(), Json::Bool(false)));
            m.push(("error".to_owned(), Json::Str(e.clone())));
        },
    }
    proof {
        json::lemma_object_view(m);
        assert(json::members(m@) =~= outcome_view(*outcome)->Object_0);
    }
    Json::Object(m)
}

/// A bundle that does not hold makes the command fail.
pub fn exit_code(outcome: &Result<VerifiedBundle, String>) -> (r: i32)
    ensures
        r == (if *outcome is Ok {
            0i32
        } else {
            1i32
        }),
{
    match outcome {
        Ok(_) => 0,
        Err(_) => 1,
    }
}

/// The outcome says that a bundle was verified exactly where it was; then it names the
/// organisation and the bundle, else the error.
pub proof fn law_outcome_tells_whether_it_holds(outcome: Result<VerifiedBundle, String>)
    ensures
        json::member(outcome_view(outcome), "verified"@) == Some(JsonView::Bool(outcome is Ok)),
        outcome matches Ok(b) ==> json::member(outcome_view(outcome), "org_id"@) == Some(
            JsonView::Str(b.org_id@),
        ) && json::member(outcome_view(outcome), "bundle_id"@) == Some(
            JsonView::Str(b.bundle_id@),
        ) && json::member(outcome_view(outcome), "rules"@) == Some(
            JsonView::Number(text::dec(b.rules@.len())),
        ),
        outcome matches Err(e) ==> json::member(outcome_view(outcome), "error"@) == Some(
            JsonView::Str(e@),
        ),
{
    reveal_strlit("verified");
    reveal_strlit("org_id");
    reveal_strlit("bundle_id");
    reveal_strlit("rules");
    reveal_strlit("error");
    assert("verified"@.len() == 8 && "org_id"@.len() == 6 && "bundle_id"@.len() == 9
        && "rules"@.len() == 5 && "error"@.len() == 5);
    let m = outcome_view(outcome)->Object_0;
    reveal_with_fuel(json::lookup, 5);
    assert(m.skip(1)[0] == m[1]);
    if outcome is Ok {
        assert(m.skip(1).skip(1)[0] == m[2]);
        assert(m.skip(1).skip(1).skip(1)[0] == m[3]);
    }
}

/// Every rule of a verified bundle is shown, with what it is about.
pub proof fn law_every_rule_is_shown(b: VerifiedBundle, i: int)
    requires
        0 <= i < b.rules@.len(),
    ensures
        verified_text(b).len() == 1 + b.rules@.len(),
        verified_text(b)[1 + i] == "    ["@ + b.rules@[i].level@ + "] "@ + b.rules@[i].target@
            + " \u{2192} "@ + b.rules@[i].id@,
        text::text_contains(verified_text(b)[0], "org="@ + b.org_id@),
        text::text_contains(verified_text(b)[0], " bundle="@ + b.bundle_id@),
{
    let l = verified_text(b);
    assert(l[1 + i] == rule_lines(b.rules@)[i]);
    reveal_strlit("org=");
    reveal_strlit("\u{2713} verified: org=");
    let head = "\u{2713} verified: org="@;
    let a = head.take(head.len() - 4);
    let o = "org="@ + b.org_id@;
    let p = " bundle="@ + b.bundle_id@;
    let z = " ("@ + text::dec(b.rules@.len()) + " rule(s))"@;
    assert(l[0] =~= a + o + (p + z));
    text::lemma_part_occurs(a, o, p + z);
    assert(l[0] =~= (a + o) + p + z);
    text::lemma_part_occurs(a + o, p, z);
}

/// A key is taken exactly where it decodes to 32 bytes, which are then the key.
pub proof fn law_keys_have_their_length(
    key_id: Seq<char>,
    raw: Option<Seq<u8>>,
    r: Result<TrustedKey, KeyError>,
)
    requires
        is_key_of(key_id, raw, r),
    ensures
        r is Ok <==> (raw matches Some(v) && v.len() == 32),
        r matches Ok(k) ==> raw == Some(k.public_key@) && k.key_id@ == key_id,
        r matches Err(KeyError::NotBase64(_)) <==> raw is None,
{
}

} // verus!
