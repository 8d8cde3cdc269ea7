//! The problem document every API error is reported as: a stable URN type,
//! the status's canonical title, the status code and a detail line.

use vstd::prelude::*;
use vstd::string::*;

use crate::models::opt_view;
use crate::text::{decimal, spec_decimal};

verus! {

/// Every error type URN starts with this.
pub const TYPE_PREFIX: &'static str = "urn:agoralume:error:";

/// An API error, reported as a problem document.
#[derive(Clone, Debug)]
pub struct ApiError {
    /// The stable type URN.
    pub kind: String,
    /// The status's canonical reason phrase.
    pub title: String,
    pub status: u16,
    pub detail: Option<String>,
    /// The authentication challenge a 401 carries.
    pub challenge: Option<&'static str>,
    /// The wait a 429 carries, in seconds.
    pub retry_after_secs: Option<u32>,
}

/// The canonical reason phrase of an HTTP status code, as the `http` crate
/// knows it (`StatusCode::canonical_reason`).
pub uninterp spec fn status_reason(status: u16) -> Option<Seq<char>>;

/// The canonical reason phrase of a status code
/// (`http::StatusCode::canonical_reason`), `None` for a code it has none for.
/// Stated for the codes this library reports; the rest of the table is
/// named only.
#[verifier::external_body]
fn canonical_reason(status: u16) -> (r: Option<String>)
    ensures
        opt_view(r) == status_reason(status),
        status == 401 ==> opt_view(r) == Some("Unauthorized"@),
        status == 403 ==> opt_view(r) == Some("Forbidden"@),
        status == 404 ==> opt_view(r) == Some("Not Found"@),
        status == 409 ==> opt_view(r) == Some("Conflict"@),
        status == 422 ==> opt_view(r) == Some("Unprocessable Entity"@),
        status == 429 ==> opt_view(r) == Some("Too Many Requests"@),
{
    match axum::http::StatusCode::from_u16(status) {
        Ok(code) => match code.canonical_reason() {
            Some(text) => Some(text.to_string()),
            None => None,
        },
        Err(_) => None,
    }
}

/// The type URN of an error slug.
pub open spec fn spec_kind(slug: Seq<char>) -> Seq<char> {
    "urn:agoralume:error:"@ + slug
}

/// The title reported for a status: its canonical reason, or "Error".
pub open spec fn spec_title(status: u16) -> Seq<char> {
    match status_reason(status) {
        Some(t) => t,
        None => "Error"@,
    }
}

impl ApiError {
    fn new(status: u16, slug: &str, detail: String) -> (r: ApiError)
        ensures
            r.kind@ == spec_kind(slug@),
            r.title@ == spec_title(status),
            status == 401 ==> r.title@ == "Unauthorized"@,
            status == 403 ==> r.title@ == "Forbidden"@,
            status == 404 ==> r.title@ == "Not Found"@,
            status == 409 ==> r.title@ == "Conflict"@,
            status == 422 ==> r.title@ == "Unprocessable Entity"@,
            status == 429 ==> r.title@ == "Too Many Requests"@,
            r.status == status,
            r.detail == Some(detail),
            r.challenge is None,
            r.retry_after_secs is None,
    {
        let mut kind = String::from_str(TYPE_PREFIX);
        kind.append(slug);
        let title = match canonical_reason(status) {
            Some(t) => t,
            None => String::from_str("Error"),
        };
        ApiError { kind, title, status, detail: Some(detail), challenge: None, retry_after_secs: None }
    }

    /// 401, with the authentication challenge a client must answer.
    pub fn unauthorized(slug: &str, detail: String, challenge: &'static str) -> (r: ApiError)
        ensures
            r.kind@ == spec_kind(slug@),
            r.title@ == "Unauthorized"@,
            r.status == 401,
            r.detail == Some(detail),
            r.challenge == Some(challenge),
            r.retry_after_secs is None,
    {
        let mut e = Self::new(401, slug, detail);
        e.challenge = Some(challenge);
        e
    }

    /// 403: authenticated, but not allowed.
    pub fn forbidden(slug: &str, detail: String) -> (r: ApiError)
        ensures
            r.kind@ == spec_kind(slug@),
            r.title@ == "Forbidden"@,
            r.status == 403,
            r.detail == Some(detail),
            r.challenge is None,
            r.retry_after_secs is None,
    {
        Self::new(403, slug, detail)
    }

    /// 404.
    pub fn not_found(detail: String) -> (r: ApiError)
        ensures
            r.kind@ == spec_kind("not-found"@),
            r.title@ == "Not Found"@,
            r.status == 404,
            r.detail == Some(detail),
            r.challenge is None,
            r.retry_after_secs is None,
    {
        Self::new(404, "not-found", detail)
    }

    /// 409: well-formed, but colliding with a rule about the current state.
    pub fn conflict(slug: &str, detail: String) -> (r: ApiError)
        ensures
            r.kind@ == spec_kind(slug@),
            r.title@ == "Conflict"@,
            r.status == 409,
            r.detail == Some(detail),
            r.challenge is None,
            r.retry_after_secs is None,
    {
        Self::new(409, slug, detail)
    }

    /// 422: parsed, but not something the server can act on.
    pub fn unprocessable(detail: String) -> (r: ApiError)
        ensures
            r.kind@ == spec_kind("invalid-request"@),
            r.title@ == "Unprocessable Entity"@,
            r.status == 422,
            r.detail == Some(detail),
            r.challenge is None,
            r.retry_after_secs is None,
    {
        Self::new(422, "invalid-request", detail)
    }

    /// 429, carrying how long to wait before trying again.
    pub fn too_many_requests(slug: &str, detail: String, retry_after_secs: u32) -> (r: ApiError)
        ensures
            r.kind@ == spec_kind(slug@),
            r.title@ == "Too Many Requests"@,
            r.status == 429,
            r.detail == Some(detail),
            r.challenge is None,
            r.retry_after_secs == Some(retry_after_secs),
    {
        let mut e = Self::new(429, slug, detail);
        e.retry_after_secs = Some(retry_after_secs);
        e
    }
}

/// The headers a problem document is answered with, as plain values.
pub open spec fn spec_headers(e: ApiError) -> Seq<(Seq<char>, Seq<char>)> {
    let base = seq![("content-type"@, "application/problem+json"@)];
    let with_challenge = match e.challenge {
        Some(c) => base.push(("www-authenticate"@, c@)),
        None => base,
    };
    match e.retry_after_secs {
        Some(secs) => with_challenge.push(("retry-after"@, spec_decimal(secs as nat))),
        None => with_challenge,
    }
}

/// A list of header pairs as plain values.
pub open spec fn header_views(h: Seq<(&'static str, String)>) -> Seq<(Seq<char>, Seq<char>)> {
    h.map_values(|p: (&'static str, String)| (p.0@, p.1@))
}

impl ApiError {
    /// The response headers: always the problem media type; the challenge
    /// (`WWW-Authenticate`) only when there is one, which only a 401 has; and
    /// `Retry-After` only when there is a wait, which only a 429 has.
    pub fn headers(&self) -> (r: Vec<(&'static str, String)>)
        ensures
            header_views(r@) == spec_headers(*self),
    {
        let mut r: Vec<(&'static str, String)> = Vec::new();
        r.push(("content-type", String::from_str("application/problem+json")));
        if let Some(c) = self.challenge {
            r.push(("www-authenticate", String::from_str(c)));
        }
        if let Some(secs) = self.retry_after_secs {
            r.push(("retry-after", decimal(secs as u64)));
        }
        assert(header_views(r@) =~= spec_headers(*self));
        r
    }
}

} // verus!
