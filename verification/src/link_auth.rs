//! Link authentication: a link proves itself by presenting a well-formed
//! UUID as its id, and is handed a fresh session id in return.
use vstd::prelude::*;

verus! {

/// An ASCII hexadecimal digit, either case.
pub open spec fn is_hex_digit(c: char) -> bool {
    ('0' <= c && c <= '9') || ('a' <= c && c <= 'f') || ('A' <= c && c <= 'F')
}

/// Positions 8, 13, 18 and 23 of the hyphenated form hold hyphens.
pub open spec fn is_hyphen_position(i: int) -> bool {
    i == 8 || i == 13 || i == 18 || i == 23
}

/// The 32 hex digits of a UUID with no separators.
pub open spec fn is_simple_uuid(s: Seq<char>) -> bool {
    s.len() == 32 && forall|i: int| 0 <= i < 32 ==> is_hex_digit(#[trigger] s[i])
}

/// The hyphenated form: groups of 8, 4, 4, 4 and 12 hex digits.
pub open spec fn is_hyphenated_uuid(s: Seq<char>) -> bool {
    s.len() == 36 && forall|i: int|
        0 <= i < 36 ==> if is_hyphen_position(i) {
            #[trigger] s[i] == '-'
        } else {
            is_hex_digit(s[i])
        }
}

/// `s` starts with `urn:uuid:`, in any letter case.
pub open spec fn has_urn_prefix(s: Seq<char>) -> bool {
    let lower = |c: char| if 'A' <= c && c <= 'Z' {
        ((c as u32) + 32) as char
    } else {
        c
    };
    s.len() >= 9 && lower(s[0]) == 'u' && lower(s[1]) == 'r' && lower(s[2]) == 'n' && s[3] == ':'
        && lower(s[4]) == 'u' && lower(s[5]) == 'u' && lower(s[6]) == 'i' && lower(s[7]) == 'd'
        && s[8] == ':'
}

/// The text forms a UUID parser accepts: simple, hyphenated, hyphenated in
/// braces, or hyphenated behind a `urn:uuid:` prefix.
pub open spec fn is_uuid_text(s: Seq<char>) -> bool {
    ||| is_simple_uuid(s)
    ||| is_hyphenated_uuid(s)
    ||| (s.len() == 38 && s[0] == '{' && s[37] == '}' && is_hyphenated_uuid(s.subrange(1, 37)))
    ||| (s.len() == 45 && has_urn_prefix(s) && is_hyphenated_uuid(s.skip(9)))
}

/// A lower-case hyphenated UUID of version 4, the form a random UUID is
/// written in.
pub open spec fn is_random_uuid_text(s: Seq<char>) -> bool {
    &&& is_hyphenated_uuid(s)
    &&& forall|i: int| 0 <= i < 36 ==> !('A' <= #[trigger] s[i] && s[i] <= 'Z')
    &&& s[14] == '4'
}

/// Whether `text` parses as a UUID.
///
/// Calls `uuid::Uuid::parse_str` and keeps only whether it succeeded.
/// Claimed: it succeeds exactly on the forms [`is_uuid_text`] describes
/// (simple, hyphenated, braced, URN), with hex digits of either case.
#[verifier::external_body]
fn parses_as_uuid(text: &str) -> (ok: bool)
    ensures
        ok == is_uuid_text(text@),
{
    uuid::Uuid::parse_str(text).is_ok()
}

/// A fresh random UUID, written out.
///
/// Calls `uuid::Uuid::new_v4` and formats it. Claimed: the text is a
/// lower-case hyphenated version-4 UUID. Not claimed: which one — it is
/// random.
#[verifier::external_body]
fn fresh_uuid_text() -> (s: String)
    ensures
        is_random_uuid_text(s@),
{
    uuid::Uuid::new_v4().to_string()
}

/// The id of an authenticated session.
#[derive(Debug, PartialEq, Eq)]
pub struct SessionId(pub String);

/// Why a link was refused.
#[derive(Debug, PartialEq, Eq)]
pub enum AuthError {
    /// The presented link id is not a UUID.
    InvalidLinkId,
}

/// Admits any link whose id is a well-formed UUID.
#[derive(Debug)]
pub struct PublicUuidAuthenticator {}

impl PublicUuidAuthenticator {
    /// One session per link at a time.
    pub fn allow_multiple_sessions(&self) -> (r: bool)
        ensures
            !r,
    {
        false
    }

    /// A new session replaces the link's old ones.
    pub fn kick_old_sessions(&self) -> (r: bool)
        ensures
            r,
    {
        true
    }

    /// Admit the link with id `link_id` if it is a UUID, under a fresh
    /// random session id.
    pub fn auth(&self, link_id: &str) -> (r: Result<SessionId, AuthError>)
        ensures
            r is Ok <==> is_uuid_text(link_id@),
            r matches Ok(session) ==> is_random_uuid_text(session.0@),
            r matches Err(e) ==> e == AuthError::InvalidLinkId,
    {
        if parses_as_uuid(link_id) {
            Ok(SessionId(fresh_uuid_text()))
        } else {
            Err(AuthError::InvalidLinkId)
        }
    }
}

} // verus!
