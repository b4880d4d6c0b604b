//! The few places where the library calls outside code. Each function's
//! body is unverified; its contract states only what the outside crate's
//! source or documentation shows.

use vstd::prelude::*;

verus! {

/// Relies on `uuid::Uuid::new_v4` and its `Display` impl: a random
/// RFC 9562 version-4 id, rendered in the 36-character hyphenated form.
/// The id is random, so nothing is promised beyond its length.
#[verifier::external_body]
pub fn fresh_id() -> (r: String)
    ensures
        r@.len() == 36,
{
    uuid::Uuid::new_v4().to_string()
}

/// Relies on `chrono::Utc::now`: the current wall-clock time in
/// milliseconds since the Unix epoch. Nothing is promised of the value.
#[verifier::external_body]
pub fn now_millis() -> i64 {
    chrono::Utc::now().timestamp_millis()
}

/// Relies on `chrono::Utc::now` and `DateTime::to_rfc3339`: the current
/// wall-clock time as an RFC 3339 string. Nothing is promised of the value.
#[verifier::external_body]
pub fn now_rfc3339() -> String {
    chrono::Utc::now().to_rfc3339()
}

/// What `str::to_lowercase` returns; a function of the characters alone.
pub uninterp spec fn lowercase_of(s: Seq<char>) -> Seq<char>;

/// Relies on `str::to_lowercase`: the Unicode lowercase form of `s`,
/// which depends on the characters of `s` alone.
#[verifier::external_body]
pub fn to_lowercase(s: &str) -> (r: String)
    ensures
        r@ == lowercase_of(s@),
{
    s.to_lowercase()
}

} // verus!
