//! Trusted bridges to outside crates: random identifiers (uuid), extension
//! based MIME lookup (mime_guess), clock readings (chrono) and monotonic
//! timing (std). Each item's contract states only what the outside source
//! or documentation shows; everything built on top of them is verified.

use vstd::prelude::*;
use chrono::Datelike;

verus! {

/// The shape of a canonical hyphenated identifier: 36 characters, each a
/// lowercase hexadecimal digit or a dash.
pub open spec fn uuid_chars(u: Seq<char>) -> bool {
    u.len() == 36 && forall|i: int|
        0 <= i < 36 ==> (u[i] == '-' || ('0' as int <= u[i] as int && u[i] as int <= '9' as int)
            || ('a' as int <= u[i] as int && u[i] as int <= 'f' as int))
}

/// Relies on `uuid::Uuid::new_v4` and its `Display` form: a fresh random
/// identifier rendered as 36 lowercase hexadecimal digits in five dash
/// separated groups. Nothing is assumed beyond that shape.
#[verifier::external_body]
pub fn fresh_uuid_string() -> (r: String)
    ensures
        uuid_chars(r@),
{
    uuid::Uuid::new_v4().to_string()
}

/// What `mime_guess` answers for a file name: a pure lookup of the name's
/// extension in a fixed table, so a function of the name alone.
pub uninterp spec fn mime_guess_of(name: Seq<char>) -> Option<Seq<char>>;

/// Relies on `mime_guess::from_path(..).first()`: the first guess for the
/// name's extension, `None` when the table has no entry for it.
#[verifier::external_body]
pub fn mime_from_name(name: &str) -> (r: Option<String>)
    ensures
        match r {
            Some(m) => mime_guess_of(name@) == Some(m@),
            None => mime_guess_of(name@) is None,
        },
{
    mime_guess::from_path(name).first().map(|m| m.to_string())
}

/// What `str::to_lowercase` returns: Unicode case folding, a function of the
/// characters alone.
pub uninterp spec fn lower_of(s: Seq<char>) -> Seq<char>;

/// Relies on `str::to_lowercase`: the result depends on the characters
/// alone, and an empty string stays empty.
#[verifier::external_body]
pub fn fold_lower(s: &str) -> (r: String)
    ensures
        r@ == lower_of(s@),
        s@.len() == 0 ==> r@.len() == 0,
{
    s.to_lowercase()
}

/// Relies on `chrono::Local::now` and the `Datelike` accessors: the month
/// ranges over 1..=12 and the day over 1..=31, as chrono documents; nothing
/// is assumed of the year.
#[verifier::external_body]
pub fn today_ymd() -> (r: (i32, u32, u32))
    ensures
        1 <= r.1 <= 12,
        1 <= r.2 <= 31,
{
    let now = chrono::Local::now();
    (now.year(), now.month(), now.day())
}

/// Relies on `chrono::Local::now().to_rfc3339`: the value depends on the
/// clock, but its rendering always carries the fixed skeleton — a year
/// field of four digits or an explicit sign and more, the dashed month
/// and day, `'T'`, the colon-separated time, an optional dot-fraction,
/// and a signed colon offset at the end — as chrono's rfc3339 writer
/// shows.
#[verifier::external_body]
pub fn now_rfc3339() -> (r: String)
    ensures
        crate::text::timestamp_shape(r@),
{
    chrono::Local::now().to_rfc3339()
}

/// What `str::trim` returns: both ends stripped of Unicode whitespace, a
/// function of the characters alone.
pub uninterp spec fn trim_of(s: Seq<char>) -> Seq<char>;

/// Relies on `str::trim`: the result depends on the characters alone and
/// is a piece of the input, so it is never longer.
#[verifier::external_body]
pub fn trimmed(s: &str) -> (r: &str)
    ensures
        r@ == trim_of(s@),
        r@.len() <= s@.len(),
{
    s.trim()
}

#[verifier::external_type_specification]
#[verifier::external_body]
pub struct ExInstant(std::time::Instant);

/// Relies on `std::time::Instant::now`; the value is a clock reading, so
/// nothing is assumed of it.
#[verifier::external_body]
pub fn instant_now() -> (r: std::time::Instant) {
    std::time::Instant::now()
}

/// Relies on `std::time::Instant::elapsed` and `Duration::as_millis`; the
/// value depends on the clock, so nothing is assumed of it.
#[verifier::external_body]
pub fn elapsed_millis(start: &std::time::Instant) -> (r: u128) {
    start.elapsed().as_millis()
}

} // verus!
