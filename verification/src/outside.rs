//! The engine's window on the outside world: every unverified call the
//! library makes lives here, behind a contract that states only what the
//! callee's documentation or source shows.

use vstd::prelude::*;

verus! {

/// What `urlencoding::encode` returns for a given character sequence.
/// Percent-encoding is a pure function of its input, so the result gets
/// a name rather than a page-long description.
pub uninterp spec fn percent_encoded(s: Seq<char>) -> Seq<char>;

/// Relies on urlencoding::encode: percent-encodes everything but
/// ASCII letters, digits, `-`, `.`, `_` and `~`; depends on the input alone.
#[verifier::external_body]
pub fn percent_encode(s: &str) -> (r: String)
    ensures
        r@ == percent_encoded(s@),
        s@.len() == 0 ==> r@.len() == 0,
{
    urlencoding::encode(s).into_owned()
}

/// The scheme `url::Url::parse` reports for a given character sequence:
/// `None` when the input does not parse as an absolute URL. Parsing is a
/// pure function of its input.
pub uninterp spec fn url_scheme_of(s: Seq<char>) -> Option<Seq<char>>;

/// Relies on url::Url::parse and url::Url::scheme: parses an absolute
/// URL and reports its (lowercased) scheme; both depend on the input alone.
#[verifier::external_body]
pub fn url_scheme(s: &str) -> (r: Option<String>)
    ensures
        r.deep_view() == url_scheme_of(s@),
{
    match url::Url::parse(s) {
        Ok(u) => Some(u.scheme().to_string()),
        Err(_) => None,
    }
}

/// Relies on chrono::Local::now, DateTime::naive_local and
/// DateTime::timestamp: the local wall-clock time, reported as whole
/// minutes, so that dividing by sixty and reducing modulo twenty-four
/// yields the local hour of day. Nothing is promised of a clock
/// reading.
#[verifier::external_body]
pub fn local_now_minutes() -> (r: u64)
{
    let secs = chrono::Local::now().naive_local().and_utc().timestamp();
    if secs <= 0 {
        0
    } else {
        (secs as u64) / 60
    }
}

/// Relies on the documented behaviour of `String::push`: appends one
/// character at the end.
pub assume_specification[ String::push ](s: &mut String, c: char)
    ensures
        final(s)@ == old(s)@.push(c),
;

} // verus!
