//! What is decided about a request before and behind its handler.
use vstd::prelude::*;
use crate::api_error::{TOO_MANY_REQUESTS, UNAUTHORIZED};
use crate::decimal::dec_u64;
use crate::decimal::dec;
use crate::json::{no_members, object, push_member, Json};
use crate::json::{member_of, member_views, JsonView};
use crate::text::{begins, chars_of, own, same, string_of_all, CharSet};
use crate::text::{opt_str, starts_with};
use crate::trim::{part, trim_chars};
use crate::trim::{law_trimmed_text_is_kept, trim};

verus! {

/// The path belongs to the API.
pub open spec fn is_api(path: Seq<char>) -> bool {
    starts_with(path, "/v1/"@)
}

/// Computes [`is_api`].
pub fn is_v1(path: &str) -> (r: bool)
    ensures
        r == is_api(path@),
{
    begins(path, "/v1/")
}

/// A header: its name and its value.
pub type Header = (String, String);

/// What headers say.
pub open spec fn header_views(s: Seq<Header>) -> Seq<(Seq<char>, Seq<char>)> {
    s.map_values(|h: Header| (h.0@, h.1@))
}

/// Puts a header behind others.
fn push_header(out: &mut Vec<Header>, name: &str, value: String)
    ensures
        header_views(final(out)@) == header_views(old(out)@).push((name@, value@)),
{
    let ghost before = out@;
    let ghost vv = value@;
    out.push((own(name), value));
    assert(header_views(out@) =~= header_views(before).push((name@, vv)));
}

/// An error body in the shape of the API.
pub open spec fn error_json(
    message: Seq<char>,
    kind: Seq<char>,
    param: Option<Seq<char>>,
    code: Seq<char>,
) -> JsonView {
    JsonView::Object(
        seq![
            (
                "error"@,
                JsonView::Object(
                    seq![
                        ("message"@, JsonView::Str(message)),
                        ("type"@, JsonView::Str(kind)),
                        (
                            "param"@,
                            match param {
                                Some(p) => JsonView::Str(p),
                                None => JsonView::Null,
                            },
                        ),
                        ("code"@, JsonView::Str(code)),
                    ],
                ),
            ),
        ],
    )
}

/// Computes [`error_json`].
fn error_body(message: &str, kind: &str, param: Option<&str>, code: &str) -> (r: Json)
    ensures
        r@ == error_json(message@, kind@, opt_str(param), code@),
{
    let ghost want = error_json(message@, kind@, opt_str(param), code@)->Object_0;
    let mut e = no_members();
    push_member(&mut e, "message", Json::text(message));
    push_member(&mut e, "type", Json::text(kind));
    let p = match param {
        Some(p) => Json::text(p),
        None => Json::Null,
    };
    push_member(&mut e, "param", p);
    push_member(&mut e, "code", Json::text(code));
    assert(member_views(e@) =~= want[0].1->Object_0);
    let mut o = no_members();
    push_member(&mut o, "error", object(e));
    assert(member_views(o@) =~= want);
    object(o)
}

// ---------------------------------------------------------------------------
// Observability
// ---------------------------------------------------------------------------
/// The headers of an answer of the API: the request's identifier, where it can
/// be one, the time taken, and what clients expect to find.
pub open spec fn observed(id: Option<Seq<char>>, elapsed_ms: nat) -> Seq<(Seq<char>, Seq<char>)> {
    (match id {
        Some(s) => seq![("x-request-id"@, s)],
        None => Seq::empty(),
    }) + seq![
        ("openai-processing-ms"@, dec(elapsed_ms)),
        ("x-ratelimit-limit-requests"@, "1000000"@),
        ("x-ratelimit-remaining-requests"@, "999999"@),
        ("x-ratelimit-reset-requests"@, "0s"@),
        ("x-ratelimit-limit-tokens"@, "1000000000"@),
        ("x-ratelimit-remaining-tokens"@, "999999999"@),
        ("x-ratelimit-reset-tokens"@, "0s"@),
        ("openai-organization"@, "atlas-local"@),
        ("openai-version"@, "2026-01-01"@),
    ]
}

/// The headers that an answer gets, by its path.
pub fn observability_headers(path: &str, request_id: Option<&str>, elapsed_ms: u64) -> (r: Vec<Header>)
    ensures
        header_views(r@) == if is_api(path@) {
            observed(opt_str(request_id), elapsed_ms as nat)
        } else {
            Seq::empty()
        },
{
    let mut out: Vec<Header> = Vec::new();
    assert(header_views(out@) =~= Seq::empty());
    if !is_v1(path) {
        return out;
    }
    match request_id {
        Some(id) => {
            push_header(&mut out, "x-request-id", own(id));
        },
        None => {},
    }
    push_header(&mut out, "openai-processing-ms", dec_u64(elapsed_ms));
    push_header(&mut out, "x-ratelimit-limit-requests", own("1000000"));
    push_header(&mut out, "x-ratelimit-remaining-requests", own("999999"));
    push_header(&mut out, "x-ratelimit-reset-requests", own("0s"));
    push_header(&mut out, "x-ratelimit-limit-tokens", own("1000000000"));
    push_header(&mut out, "x-ratelimit-remaining-tokens", own("999999999"));
    push_header(&mut out, "x-ratelimit-reset-tokens", own("0s"));
    push_header(&mut out, "openai-organization", own("atlas-local"));
    push_header(&mut out, "openai-version", own("2026-01-01"));
    assert(header_views(out@) =~= observed(opt_str(request_id), elapsed_ms as nat));
    out
}

// ---------------------------------------------------------------------------
// Authentication
// ---------------------------------------------------------------------------
/// The path asks for a token.
pub open spec fn guarded(path: Seq<char>) -> bool {
    is_api(path) || path == "/tokenize"@ || path == "/detokenize"@
}

/// The token that a header presents.
pub open spec fn bearer(header: Option<Seq<char>>) -> Option<Seq<char>> {
    match header {
        Some(h) => if starts_with(h, "Bearer "@) {
            Some(trim(h.skip("Bearer "@.len() as int), CharSet::White))
        } else {
            None
        },
        None => None,
    }
}

/// What becomes of a request.
#[derive(Debug)]
pub enum Admission {
    /// Lets it through.
    Pass,
    /// Lets it through if this token is accepted.
    Check(String),
    /// Answers with this status and this body.
    Refuse(u16, Json),
}

/// The answer to a request without a token.
pub open spec fn missing_key() -> JsonView {
    error_json(
        "Missing Authorization: Bearer header"@,
        "invalid_request_error"@,
        None,
        "missing_api_key"@,
    )
}

/// The answer to a request with a token that is not accepted.
pub open spec fn invalid_key() -> JsonView {
    error_json("Invalid bearer token"@, "invalid_request_error"@, None, "invalid_api_key"@)
}

/// Computes [`bearer`].
fn presented(header: &str) -> (r: Option<String>)
    ensures
        match r {
            Some(t) => bearer(Some(header@)) == Some(t@),
            None => bearer(Some(header@)) is None,
        },
{
    if !begins(header, "Bearer ") {
        return None;
    }
    let v = chars_of(header);
    let n = chars_of("Bearer ").len();
    let rest = part(&v, n, v.len());
    assert(rest@ =~= header@.skip("Bearer "@.len() as int));
    Some(string_of_all(&trim_chars(&rest, CharSet::White)))
}

/// Says what becomes of a request, by its path and the header that it presents.
pub fn require_auth(enabled: bool, path: &str, header: Option<&str>) -> (r: Admission)
    ensures
        if !enabled || !guarded(path@) {
            r is Pass
        } else {
            match bearer(opt_str(header)) {
                Some(t) => r matches Admission::Check(s) && s@ == t,
                None => r matches Admission::Refuse(status, body) && status == UNAUTHORIZED && body@
                    == missing_key(),
            }
        },
{
    if !enabled {
        return Admission::Pass;
    }
    if !(is_v1(path) || same(path, "/tokenize") || same(path, "/detokenize")) {
        return Admission::Pass;
    }
    let token = match header {
        Some(h) => presented(h),
        None => None,
    };
    match token {
        Some(t) => Admission::Check(t),
        None => Admission::Refuse(
            UNAUTHORIZED,
            error_body(
                "Missing Authorization: Bearer header",
                "invalid_request_error",
                None,
                "missing_api_key",
            ),
        ),
    }
}

/// Whose requests are counted together: those that present one token, or else
/// come from one forwarded address, or else from one peer.
pub open spec fn identity(
    header: Option<Seq<char>>,
    forwarded: Option<Seq<char>>,
    peer: Option<Seq<char>>,
) -> Seq<char> {
    match (bearer(header), forwarded, peer) {
        (Some(t), _, _) => t,
        (None, Some(f), _) => f,
        (None, None, Some(p)) => p,
        (None, None, None) => Seq::empty(),
    }
}

/// Computes [`identity`].
pub fn extract_identity(header: Option<&str>, forwarded: Option<&str>, peer: Option<&str>) -> (r:
    String)
    ensures
        r@ == identity(opt_str(header), opt_str(forwarded), opt_str(peer)),
{
    if let Some(h) = header {
        if let Some(t) = presented(h) {
            return t;
        }
    }
    match (forwarded, peer) {
        (Some(f), _) => own(f),
        (None, Some(p)) => own(p),
        (None, None) => String::new(),
    }
}

/// Says what becomes of a request once its token has been checked.
pub fn after_check(accepted: bool) -> (r: Admission)
    ensures
        if accepted {
            r is Pass
        } else {
            r matches Admission::Refuse(status, body) && status == UNAUTHORIZED && body@ == invalid_key()
        },
{
    if accepted {
        Admission::Pass
    } else {
        Admission::Refuse(
            UNAUTHORIZED,
            error_body(
                "Invalid bearer token",
                "invalid_request_error",
                None,
                "invalid_api_key",
            ),
        )
    }
}

/// A request outside the API is never refused for its token, and one inside it
/// never passes unchecked.
pub proof fn law_api_asks_for_a_token(path: Seq<char>)
    ensures
        is_api(path) ==> guarded(path),
        guarded(path) ==> is_api(path) || path == "/tokenize"@ || path == "/detokenize"@,
{
}

// ---------------------------------------------------------------------------
// Rate limits
// ---------------------------------------------------------------------------
/// What is left of one limit.
#[derive(Debug, Clone, Copy)]
pub struct RateWindow {
    pub limit: u64,
    pub remaining: u64,
    pub reset_secs: u64,
}

/// Which limit was hit.
#[derive(Debug, Clone, Copy, PartialEq, Eq, Structural)]
pub enum DenialReason {
    Requests,
    Tokens,
}

/// What the limiter says of a request.
#[derive(Debug, Clone, Copy)]
pub struct RateDecision {
    pub allowed: bool,
    pub denied_by: Option<DenialReason>,
    pub retry_after_secs: u64,
    pub requests: RateWindow,
    pub tokens: RateWindow,
}

/// The headers that tell a client of its limits.
pub open spec fn rate_headers(d: RateDecision) -> Seq<(Seq<char>, Seq<char>)> {
    seq![
        ("x-ratelimit-limit-requests"@, dec(d.requests.limit as nat)),
        ("x-ratelimit-remaining-requests"@, dec(d.requests.remaining as nat)),
        ("x-ratelimit-reset-requests"@, dec(d.requests.reset_secs as nat) + "s"@),
        ("x-ratelimit-limit-tokens"@, dec(d.tokens.limit as nat)),
        ("x-ratelimit-remaining-tokens"@, dec(d.tokens.remaining as nat)),
        ("x-ratelimit-reset-tokens"@, dec(d.tokens.reset_secs as nat) + "s"@),
    ]
}

/// A number of seconds.
fn seconds(n: u64) -> (r: String)
    ensures
        r@ == dec(n as nat) + "s"@,
{
    let mut s = dec_u64(n);
    s.append("s");
    s
}

/// Computes [`rate_headers`].
pub fn apply_rate_headers(d: &RateDecision) -> (r: Vec<Header>)
    ensures
        header_views(r@) == rate_headers(*d),
{
    let mut out: Vec<Header> = Vec::new();
    assert(header_views(out@) =~= Seq::empty());
    push_header(&mut out, "x-ratelimit-limit-requests", dec_u64(d.requests.limit));
    push_header(&mut out, "x-ratelimit-remaining-requests", dec_u64(d.requests.remaining));
    push_header(&mut out, "x-ratelimit-reset-requests", seconds(d.requests.reset_secs));
    push_header(&mut out, "x-ratelimit-limit-tokens", dec_u64(d.tokens.limit));
    push_header(&mut out, "x-ratelimit-remaining-tokens", dec_u64(d.tokens.remaining));
    push_header(&mut out, "x-ratelimit-reset-tokens", seconds(d.tokens.reset_secs));
    assert(header_views(out@) =~= rate_headers(*d));
    out
}

/// Says whether the limiter is asked about a request.
pub fn is_limited(path: &str, enabled: bool) -> (r: bool)
    ensures
        r == (enabled && is_api(path@)),
{
    enabled && is_v1(path)
}

/// What the client hit.
pub open spec fn denied_param(d: Option<DenialReason>) -> Seq<char> {
    match d {
        Some(DenialReason::Requests) => "requests"@,
        Some(DenialReason::Tokens) => "tokens"@,
        None => ""@,
    }
}

/// The answer to a request over its limit.
#[derive(Debug)]
pub struct Denial {
    pub status: u16,
    pub headers: Vec<Header>,
    pub body: Json,
}

/// The answer to a request that the limiter denies; nothing for one that it
/// allows.
pub fn deny(d: &RateDecision) -> (r: Option<Denial>)
    ensures
        match r {
            None => d.allowed,
            Some(a) => {
                &&& !d.allowed
                &&& a.status == TOO_MANY_REQUESTS
                &&& header_views(a.headers@) == rate_headers(*d).push(
                    ("retry-after"@, dec(d.retry_after_secs as nat)),
                )
                &&& a.body@ == error_json(
                    "Rate limit exceeded for "@ + denied_param(d.denied_by) + ". Retry after "@ + dec(
                        d.retry_after_secs as nat,
                    ) + "s."@,
                    "rate_limit_exceeded"@,
                    Some(denied_param(d.denied_by)),
                    "rate_limit_exceeded"@,
                )
            },
        },
{
    if d.allowed {
        return None;
    }
    let param = match d.denied_by {
        Some(DenialReason::Requests) => "requests",
        Some(DenialReason::Tokens) => "tokens",
        None => "",
    };
    let mut m = own("Rate limit exceeded for ");
    m.append(param);
    m.append(". Retry after ");
    m.append(dec_u64(d.retry_after_secs).as_str());
    m.append("s.");
    let mut headers = apply_rate_headers(d);
    push_header(&mut headers, "retry-after", dec_u64(d.retry_after_secs));
    Some(
        Denial {
            status: TOO_MANY_REQUESTS,
            headers,
            body: error_body(
                m.as_str(),
                "rate_limit_exceeded",
                Some(param),
                "rate_limit_exceeded",
            ),
        },
    )
}

/// An answer of the API names its request and tells the time that it took.
pub proof fn law_answers_name_their_request(id: Seq<char>, elapsed_ms: nat)
    ensures
        observed(Some(id), elapsed_ms).contains(("x-request-id"@, id)),
        observed(Some(id), elapsed_ms).contains(("openai-processing-ms"@, dec(elapsed_ms))),
        observed(None, elapsed_ms).contains(("openai-processing-ms"@, dec(elapsed_ms))),
        observed(Some(id), elapsed_ms) == seq![("x-request-id"@, id)] + observed(None, elapsed_ms),
{
    let with = observed(Some(id), elapsed_ms);
    let bare = observed(None, elapsed_ms);
    assert(with[0] == ("x-request-id"@, id));
    assert(with[1] == ("openai-processing-ms"@, dec(elapsed_ms)));
    assert(bare[0] == ("openai-processing-ms"@, dec(elapsed_ms)));
    assert(with =~= seq![("x-request-id"@, id)] + bare);
}

/// The token that a client presents is the one that is checked, and the one by
/// which its requests are counted, whatever addresses they come from.
pub proof fn law_presented_token_is_read(
    t: Seq<char>,
    forwarded: Option<Seq<char>>,
    peer: Option<Seq<char>>,
)
    requires
        t.len() > 0 ==> !CharSet::White.has(t[0]) && !CharSet::White.has(t.last()),
    ensures
        bearer(Some("Bearer "@ + t)) == Some(t),
        identity(Some("Bearer "@ + t), forwarded, peer) == t,
{
    let h = "Bearer "@ + t;
    assert(h.subrange(0, "Bearer "@.len() as int) =~= "Bearer "@);
    assert(h.skip("Bearer "@.len() as int) =~= t);
    law_trimmed_text_is_kept(t, CharSet::White);
}

/// Without a token requests are counted by the address that was forwarded, and
/// without that by the peer's.
pub proof fn law_requests_are_counted_by_address(
    header: Option<Seq<char>>,
    f: Seq<char>,
    p: Seq<char>,
    peer: Option<Seq<char>>,
)
    requires
        header matches Some(h) ==> !starts_with(h, "Bearer "@),
    ensures
        identity(header, Some(f), peer) == f,
        identity(header, None, Some(p)) == p,
{
}

/// An error body holds what it was made of.
pub proof fn law_error_bodies_hold_what_they_say(
    message: Seq<char>,
    kind: Seq<char>,
    param: Option<Seq<char>>,
    code: Seq<char>,
)
    ensures
        ({
            let e = member_of(error_json(message, kind, param, code), "error"@);
            &&& e is Some
            &&& member_of(e->0, "message"@) == Some(JsonView::Str(message))
            &&& member_of(e->0, "type"@) == Some(JsonView::Str(kind))
            &&& member_of(e->0, "code"@) == Some(JsonView::Str(code))
            &&& param matches Some(p) ==> member_of(e->0, "param"@) == Some(JsonView::Str(p))
            &&& param is None ==> member_of(e->0, "param"@) == Some(JsonView::Null)
        }),
{
    reveal_strlit("message");
    reveal_strlit("type");
    reveal_strlit("param");
    reveal_strlit("code");
    assert("type"@[0] != "code"@[0]);
    assert("message"@.len() == 7 && "type"@.len() == 4 && "param"@.len() == 5 && "code"@.len() == 4);
    reveal_with_fuel(crate::json::key_at, 5);
}

/// The headers tell each number of a decision, under its own name, and the two
/// limits apart.
pub proof fn law_headers_tell_the_limits(d: RateDecision)
    ensures
        rate_headers(d).contains(("x-ratelimit-limit-requests"@, dec(d.requests.limit as nat))),
        rate_headers(d).contains(
            ("x-ratelimit-remaining-requests"@, dec(d.requests.remaining as nat)),
        ),
        rate_headers(d).contains(
            ("x-ratelimit-reset-requests"@, dec(d.requests.reset_secs as nat) + "s"@),
        ),
        rate_headers(d).contains(("x-ratelimit-limit-tokens"@, dec(d.tokens.limit as nat))),
        rate_headers(d).contains(("x-ratelimit-remaining-tokens"@, dec(d.tokens.remaining as nat))),
        rate_headers(d).contains(
            ("x-ratelimit-reset-tokens"@, dec(d.tokens.reset_secs as nat) + "s"@),
        ),
{
    let h = rate_headers(d);
    assert(h[0].1 == dec(d.requests.limit as nat));
    assert(h[1].1 == dec(d.requests.remaining as nat));
    assert(h[2].1 == dec(d.requests.reset_secs as nat) + "s"@);
    assert(h[3].1 == dec(d.tokens.limit as nat));
    assert(h[4].1 == dec(d.tokens.remaining as nat));
    assert(h[5].1 == dec(d.tokens.reset_secs as nat) + "s"@);
}

/// A client without a token is told that it is missing, one with a wrong one
/// that it is invalid, and one over its limit which limit it is.
pub proof fn law_refusals_tell_their_reason()
    ensures
        missing_key() == error_json(
            "Missing Authorization: Bearer header"@,
            "invalid_request_error"@,
            None,
            "missing_api_key"@,
        ),
        invalid_key() == error_json(
            "Invalid bearer token"@,
            "invalid_request_error"@,
            None,
            "invalid_api_key"@,
        ),
        denied_param(Some(DenialReason::Requests)) == "requests"@,
        denied_param(Some(DenialReason::Tokens)) == "tokens"@,
        denied_param(None).len() == 0,
{
    reveal_strlit("");
}

} // verus!
