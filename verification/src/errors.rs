//! Error kinds, the retryable classification, the quota-reset
//! parsing, and the mapping from errors to inbound HTTP error bodies.

use vstd::prelude::*;
use vstd::string::StringExecFns;
use vstd::string::StringSliceAdditionalSpecFns;

verus! {

/// Upstream error body: `code`, `message`, `status`, and the
/// quota-reset timestamps lifted from the error details' metadata.
#[derive(Debug)]
pub struct GeminiErrorBody {
    pub code: u32,
    pub message: String,
    pub status: String,
    pub quota_reset_timestamps: Vec<String>,
}

/// Parsed upstream error response.
#[derive(Debug)]
pub struct GeminiError {
    pub error: GeminiErrorBody,
}

/// Every failure the control plane distinguishes.
#[derive(Debug)]
pub enum NexusError {
    /// A URL failed to parse.
    UrlParse,
    /// A transport-level HTTP failure.
    Reqwest,
    /// A JSON body failed to parse.
    Json,
    /// A refresh is required before the credential can serve.
    MissingAccessToken,
    /// The userinfo payload carried no email.
    MissingEmailInUserinfo,
    /// The token request failed before the server answered.
    Oauth2Token(String),
    /// The authorisation server refused: authoritative, not retryable.
    Oauth2Server { error: String },
    /// Acquisition found no usable credential.
    NoAvailableCredential,
    /// An inter-task RPC or channel failed.
    RactorError(String),
    /// A credential store failure.
    DatabaseError,
    /// The upstream generate endpoint answered with a non-2xx status.
    UpstreamStatus(u16),
    /// The upstream answered with a parsed error body.
    GeminiServerError(GeminiError),
}

/// Transport faults and upstream server errors may be retried; an
/// authoritative OAuth refusal, a parse failure, and the upstream
/// 4xx statuses that feed credential-state classification may not.
pub open spec fn spec_is_retryable(e: &NexusError) -> bool {
    match e {
        NexusError::Reqwest => true,
        NexusError::UpstreamStatus(c) => 500 <= *c <= 599,
        _ => false,
    }
}

impl NexusError {
    /// Whether a refresh or upstream helper should retry after this
    /// error.
    pub fn is_retryable(&self) -> (r: bool)
        ensures
            r == spec_is_retryable(self),
    {
        match self {
            NexusError::Reqwest => true,
            NexusError::UpstreamStatus(c) => 500 <= *c && *c <= 599,
            _ => false,
        }
    }
}

// ---------------------------------------------------------------------------
// Quota-reset parsing
// ---------------------------------------------------------------------------

/// What chrono's RFC 3339 parser yields for a timestamp string, as
/// seconds since the Unix epoch; `None` when the string does not
/// parse.
pub uninterp spec fn rfc3339_secs_of(s: Seq<char>) -> Option<i64>;

/// Relies on chrono's `DateTime::parse_from_rfc3339` followed by
/// `timestamp`: both are functions of the characters alone.
#[verifier::external_body]
pub(crate) fn parse_rfc3339_secs(s: &str) -> (r: Option<i64>)
    ensures
        r == rfc3339_secs_of(s@),
{
    match chrono::DateTime::parse_from_rfc3339(s) {
        Ok(dt) => Some(dt.timestamp()),
        Err(_) => None,
    }
}

/// The first timestamp that parses and lies in the future decides the
/// cooldown: its distance from `now` in seconds.
pub open spec fn spec_quota_delay(ts: Seq<Seq<char>>, now: int) -> Option<int>
    decreases ts.len(),
{
    if ts.len() == 0 {
        None
    } else {
        match rfc3339_secs_of(ts[0]) {
            Some(t) => {
                if t - now > 0 {
                    Some(t - now)
                } else {
                    spec_quota_delay(ts.drop_first(), now)
                }
            },
            None => spec_quota_delay(ts.drop_first(), now),
        }
    }
}

impl GeminiError {
    /// Seconds until the reported quota reset, if the error body
    /// carried a parseable future timestamp.
    pub fn quota_reset_delay(&self, now: i64) -> (r: Option<u64>)
        ensures
            ({
                let ts = self.error.quota_reset_timestamps@.map_values(|s: String| s@);
                match r {
                    Some(d) => spec_quota_delay(ts, now as int) == Some(d as int),
                    None => spec_quota_delay(ts, now as int) is None,
                }
            }),
    {
        let ghost ts = self.error.quota_reset_timestamps@.map_values(|s: String| s@);
        proof {
            assert(ts.skip(0) =~= ts);
        }
        let mut i: usize = 0;
        while i < self.error.quota_reset_timestamps.len()
            invariant
                i <= ts.len(),
                ts == self.error.quota_reset_timestamps@.map_values(|s: String| s@),
                spec_quota_delay(ts, now as int) == spec_quota_delay(
                    ts.skip(i as int),
                    now as int,
                ),
            decreases ts.len() - i,
        {
            proof {
                assert(ts.skip(i as int)[0] == ts[i as int]);
                assert(ts.skip(i as int).drop_first() =~= ts.skip(i as int + 1));
            }
            match parse_rfc3339_secs(self.error.quota_reset_timestamps[i].as_str()) {
                Some(t) => {
                    let diff: i128 = (t as i128) - (now as i128);
                    if diff > 0 {
                        return Some(diff as u64);
                    }
                },
                None => {},
            }
            i += 1;
        }
        proof {
            assert(ts.skip(ts.len() as int) =~= Seq::<Seq<char>>::empty());
        }
        None
    }
}

// ---------------------------------------------------------------------------
// Inbound error bodies
// ---------------------------------------------------------------------------

/// Standardised API error payload: a string code and a message.
pub struct ApiErrorBody {
    pub code: String,
    pub message: String,
}

/// The wrapper the client receives: `{"error": {...}}`.
pub struct ApiErrorResponse {
    pub error: ApiErrorBody,
}

/// The HTTP status an error maps to.
pub open spec fn spec_status_of(e: &NexusError) -> int {
    match e {
        NexusError::GeminiServerError(g) => {
            let c = g.error.code % 0x10000;
            if 100 <= c <= 999 {
                c as int
            } else {
                400
            }
        },
        NexusError::DatabaseError => 500,
        NexusError::RactorError(_) => 500,
        NexusError::Json => 401,
        NexusError::Oauth2Token(_) => 401,
        NexusError::Oauth2Server { .. } => 401,
        NexusError::MissingAccessToken => 401,
        NexusError::MissingEmailInUserinfo => 401,
        NexusError::NoAvailableCredential => 503,
        NexusError::Reqwest => 502,
        NexusError::UrlParse => 502,
        NexusError::UpstreamStatus(c) => *c as int,
    }
}

/// The string code carried in the error body.
pub open spec fn spec_code_of(e: &NexusError) -> Seq<char> {
    match e {
        NexusError::GeminiServerError(g) => g.error.status@,
        NexusError::DatabaseError => "INTERNAL_ERROR"@,
        NexusError::RactorError(_) => "INTERNAL_ERROR"@,
        NexusError::Json => "UNAUTHORIZED"@,
        NexusError::Oauth2Token(_) => "UNAUTHORIZED"@,
        NexusError::Oauth2Server { .. } => "UNAUTHORIZED"@,
        NexusError::MissingAccessToken => "UNAUTHORIZED"@,
        NexusError::MissingEmailInUserinfo => "UNAUTHORIZED"@,
        NexusError::NoAvailableCredential => "NO_CREDENTIAL"@,
        NexusError::Reqwest => "BAD_GATEWAY"@,
        NexusError::UrlParse => "BAD_GATEWAY"@,
        NexusError::UpstreamStatus(c) => if *c == 429 {
            "RATE_LIMIT"@
        } else if *c == 401 {
            "UNAUTHORIZED"@
        } else if *c == 403 {
            "FORBIDDEN"@
        } else if *c == 404 {
            "NOT_FOUND"@
        } else {
            "UPSTREAM_ERROR"@
        },
    }
}

/// The human-readable message carried in the error body.
pub open spec fn spec_message_of(e: &NexusError) -> Seq<char> {
    match e {
        NexusError::GeminiServerError(g) => g.error.message@,
        NexusError::DatabaseError => "An internal server error occurred."@,
        NexusError::RactorError(_) => "An internal server error occurred."@,
        NexusError::Json => "Authentication error."@,
        NexusError::Oauth2Token(_) => "Authentication error."@,
        NexusError::Oauth2Server { .. } => "Authentication error."@,
        NexusError::MissingAccessToken => "Authentication error."@,
        NexusError::MissingEmailInUserinfo => "Authentication error."@,
        NexusError::NoAvailableCredential => "No available credentials to process the request."@,
        NexusError::Reqwest => "Upstream service is unavailable."@,
        NexusError::UrlParse => "Upstream service is unavailable."@,
        NexusError::UpstreamStatus(c) => if *c == 429 {
            "Upstream rate limit exceeded."@
        } else if *c == 401 {
            "Upstream authentication failed."@
        } else if *c == 403 {
            "Upstream permission denied."@
        } else if *c == 404 {
            "Upstream resource not found."@
        } else {
            "An upstream error occurred."@
        },
    }
}

impl NexusError {
    /// The triple an HTTP layer needs: status, string code, message.
    pub fn response_parts(&self) -> (r: (u16, ApiErrorBody))
        ensures
            r.0 as int == spec_status_of(self),
            r.1.code@ == spec_code_of(self),
            r.1.message@ == spec_message_of(self),
    {
        match self {
            NexusError::GeminiServerError(g) => {
                let c16: u16 = (g.error.code % 0x10000) as u16;
                let status: u16 = if 100 <= c16 && c16 <= 999 {
                    c16
                } else {
                    400
                };
                (
                    status,
                    ApiErrorBody {
                        code: g.error.status.clone(),
                        message: g.error.message.clone(),
                    },
                )
            },
            NexusError::DatabaseError | NexusError::RactorError(_) => (
                500,
                ApiErrorBody {
                    code: "INTERNAL_ERROR".to_owned(),
                    message: "An internal server error occurred.".to_owned(),
                },
            ),
            NexusError::Json | NexusError::Oauth2Token(_) | NexusError::Oauth2Server { .. }
                | NexusError::MissingAccessToken | NexusError::MissingEmailInUserinfo => (
                401,
                ApiErrorBody {
                    code: "UNAUTHORIZED".to_owned(),
                    message: "Authentication error.".to_owned(),
                },
            ),
            NexusError::NoAvailableCredential => (
                503,
                ApiErrorBody {
                    code: "NO_CREDENTIAL".to_owned(),
                    message: "No available credentials to process the request.".to_owned(),
                },
            ),
            NexusError::Reqwest | NexusError::UrlParse => (
                502,
                ApiErrorBody {
                    code: "BAD_GATEWAY".to_owned(),
                    message: "Upstream service is unavailable.".to_owned(),
                },
            ),
            NexusError::UpstreamStatus(c) => {
                let body = if *c == 429 {
                    ApiErrorBody {
                        code: "RATE_LIMIT".to_owned(),
                        message: "Upstream rate limit exceeded.".to_owned(),
                    }
                } else if *c == 401 {
                    ApiErrorBody {
                        code: "UNAUTHORIZED".to_owned(),
                        message: "Upstream authentication failed.".to_owned(),
                    }
                } else if *c == 403 {
                    ApiErrorBody {
                        code: "FORBIDDEN".to_owned(),
                        message: "Upstream permission denied.".to_owned(),
                    }
                } else if *c == 404 {
                    ApiErrorBody {
                        code: "NOT_FOUND".to_owned(),
                        message: "Upstream resource not found.".to_owned(),
                    }
                } else {
                    ApiErrorBody {
                        code: "UPSTREAM_ERROR".to_owned(),
                        message: "An upstream error occurred.".to_owned(),
                    }
                };
                (*c, body)
            },
        }
    }
}

// ---------------------------------------------------------------------------
// JSON rendering of error bodies
// ---------------------------------------------------------------------------

/// A string whose UTF-8 bytes may stand inside a JSON string literal
/// unescaped: no quote, no backslash, no control byte.
pub open spec fn json_safe(bs: Seq<u8>) -> bool {
    forall|i: int| 0 <= i < bs.len() ==> bs[i] != 0x22 && bs[i] != 0x5c && bs[i] >= 0x20
}

/// The rendered inbound error body.
pub open spec fn spec_error_body_json(code: Seq<char>, message: Seq<char>) -> Seq<char> {
    "{\"error\":{\"code\":\""@ + code + "\",\"message\":\""@ + message + "\"}}"@
}

/// Whether a string can be rendered unescaped.
pub fn is_json_safe(s: &str) -> (r: bool)
    ensures
        r == json_safe(s.spec_bytes()),
{
    let bs = s.as_bytes();
    let mut i: usize = 0;
    while i < bs.len()
        invariant
            i <= bs@.len(),
            bs@ == s.spec_bytes(),
            forall|j: int| 0 <= j < i as int ==> bs@[j] != 0x22 && bs@[j] != 0x5c && bs@[j] >= 0x20,
        decreases bs@.len() - i,
    {
        let b = bs[i];
        if b == 0x22 || b == 0x5c || b < 0x20 {
            return false;
        }
        i += 1;
    }
    true
}

/// Render `{"error":{"code":<code>,"message":<message>}}`, both
/// fields quoted. The caller keeps unsafe strings out; the total
/// entry point below checks first.
pub fn render_error_body(code: &str, message: &str) -> (r: String)
    requires
        json_safe(code.spec_bytes()),
        json_safe(message.spec_bytes()),
    ensures
        r@ == spec_error_body_json(code@, message@),
{
    let mut s: String = "{\"error\":{\"code\":\"".to_owned();
    s.append(code);
    s.append("\",\"message\":\"");
    s.append(message);
    s.append("\"}}");
    s
}

/// Render the inbound error body when both fields are JSON-safe;
/// `None` otherwise (an HTTP layer then serialises with escaping).
pub fn try_render_error_body(code: &str, message: &str) -> (r: Option<String>)
    ensures
        match r {
            Some(s) => json_safe(code.spec_bytes()) && json_safe(message.spec_bytes()) && s@
                == spec_error_body_json(code@, message@),
            None => !(json_safe(code.spec_bytes()) && json_safe(message.spec_bytes())),
        },
{
    if is_json_safe(code) && is_json_safe(message) {
        Some(render_error_body(code, message))
    } else {
        None
    }
}

/// The exact body answered to an oversized request, beside HTTP 413.
/// No credential state changes on this path.
pub fn payload_too_large_body() -> (r: String)
    ensures
        r@ == "{\"error\":{\"code\":413,\"message\":\"request body too large\",\"status\":\"PAYLOAD_TOO_LARGE\"}}"@,
{
    "{\"error\":{\"code\":413,\"message\":\"request body too large\",\"status\":\"PAYLOAD_TOO_LARGE\"}}".to_owned()
}

/// Inbound request bodies above this many bytes are refused with 413.
pub const MAX_BODY_BYTES: usize = 30 * 1024 * 1024;

/// Whether a request body of `len` bytes is within the inbound limit.
pub fn body_within_limit(len: usize) -> (r: bool)
    ensures
        r == (len <= MAX_BODY_BYTES),
{
    len <= MAX_BODY_BYTES
}

} // verus!
