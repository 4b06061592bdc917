use gcli_nexus::errors::{
    body_within_limit, payload_too_large_body, try_render_error_body, GeminiError,
    GeminiErrorBody, NexusError, MAX_BODY_BYTES,
};

fn gemini_error(code: u32, status: &str, timestamps: &[&str]) -> GeminiError {
    GeminiError {
        error: GeminiErrorBody {
            code,
            message: "quota exhausted".to_string(),
            status: status.to_string(),
            quota_reset_timestamps: timestamps.iter().map(|t| t.to_string()).collect(),
        },
    }
}

#[test]
fn retryable_classification() {
    assert!(NexusError::Reqwest.is_retryable());
    assert!(NexusError::UpstreamStatus(500).is_retryable());
    assert!(NexusError::UpstreamStatus(503).is_retryable());
    assert!(NexusError::UpstreamStatus(599).is_retryable());
    assert!(!NexusError::UpstreamStatus(429).is_retryable());
    assert!(!NexusError::UpstreamStatus(401).is_retryable());
    assert!(!NexusError::UpstreamStatus(403).is_retryable());
    assert!(!NexusError::UpstreamStatus(404).is_retryable());
    assert!(!NexusError::Json.is_retryable());
    assert!(!NexusError::Oauth2Server {
        error: "invalid_grant".to_string()
    }
    .is_retryable());
    assert!(!NexusError::UrlParse.is_retryable());
    assert!(!NexusError::DatabaseError.is_retryable());
    assert!(!NexusError::NoAvailableCredential.is_retryable());
}

#[test]
fn response_parts_for_each_kind() {
    let (s, b) = NexusError::NoAvailableCredential.response_parts();
    assert_eq!(s, 503);
    assert_eq!(b.code, "NO_CREDENTIAL");
    assert_eq!(b.message, "No available credentials to process the request.");

    let (s, b) = NexusError::DatabaseError.response_parts();
    assert_eq!((s, b.code.as_str()), (500, "INTERNAL_ERROR"));
    let (s, b) = NexusError::RactorError("x".to_string()).response_parts();
    assert_eq!((s, b.code.as_str()), (500, "INTERNAL_ERROR"));

    let (s, b) = NexusError::Json.response_parts();
    assert_eq!((s, b.code.as_str()), (401, "UNAUTHORIZED"));
    assert_eq!(b.message, "Authentication error.");
    let (s, _) = NexusError::MissingAccessToken.response_parts();
    assert_eq!(s, 401);

    let (s, b) = NexusError::Reqwest.response_parts();
    assert_eq!((s, b.code.as_str()), (502, "BAD_GATEWAY"));
    let (s, _) = NexusError::UrlParse.response_parts();
    assert_eq!(s, 502);

    let (s, b) = NexusError::UpstreamStatus(429).response_parts();
    assert_eq!((s, b.code.as_str()), (429, "RATE_LIMIT"));
    let (s, b) = NexusError::UpstreamStatus(401).response_parts();
    assert_eq!((s, b.code.as_str()), (401, "UNAUTHORIZED"));
    let (s, b) = NexusError::UpstreamStatus(403).response_parts();
    assert_eq!((s, b.code.as_str()), (403, "FORBIDDEN"));
    let (s, b) = NexusError::UpstreamStatus(404).response_parts();
    assert_eq!((s, b.code.as_str()), (404, "NOT_FOUND"));
    let (s, b) = NexusError::UpstreamStatus(418).response_parts();
    assert_eq!((s, b.code.as_str()), (418, "UPSTREAM_ERROR"));
}

#[test]
fn gemini_error_passes_code_and_status_through() {
    let e = NexusError::GeminiServerError(gemini_error(429, "RESOURCE_EXHAUSTED", &[]));
    let (s, b) = e.response_parts();
    assert_eq!(s, 429);
    assert_eq!(b.code, "RESOURCE_EXHAUSTED");
    assert_eq!(b.message, "quota exhausted");

    // A code outside the valid status range falls back to 400.
    let e = NexusError::GeminiServerError(gemini_error(42, "ODD", &[]));
    let (s, _) = e.response_parts();
    assert_eq!(s, 400);
}

#[test]
fn quota_reset_delay_takes_first_future_timestamp() {
    // 2001-09-09T01:46:40Z is 1_000_000_000 seconds after the epoch.
    let now: i64 = 999_999_940;
    let g = gemini_error(429, "RESOURCE_EXHAUSTED", &["2001-09-09T01:46:40Z"]);
    assert_eq!(g.quota_reset_delay(now), Some(60));
}

#[test]
fn quota_reset_delay_skips_bad_and_past_entries() {
    let now: i64 = 1_000_000_000;
    let g = gemini_error(
        429,
        "RESOURCE_EXHAUSTED",
        &["not a timestamp", "2001-09-09T01:46:40Z", "2001-09-09T01:48:20Z"],
    );
    // The first entry does not parse; the second is not in the
    // future; the third is 100 s away.
    assert_eq!(g.quota_reset_delay(now), Some(100));

    let g = gemini_error(429, "RESOURCE_EXHAUSTED", &["garbage"]);
    assert_eq!(g.quota_reset_delay(now), None);
    let g = gemini_error(429, "RESOURCE_EXHAUSTED", &[]);
    assert_eq!(g.quota_reset_delay(now), None);
}

#[test]
fn render_error_body_quotes_both_fields() {
    let body = try_render_error_body("NO_CREDENTIAL", "No available credentials.").unwrap();
    assert_eq!(
        body,
        "{\"error\":{\"code\":\"NO_CREDENTIAL\",\"message\":\"No available credentials.\"}}"
    );
}

#[test]
fn render_error_body_refuses_unsafe_strings() {
    assert!(try_render_error_body("CODE", "say \"hi\"").is_none());
    assert!(try_render_error_body("CODE", "back\\slash").is_none());
    assert!(try_render_error_body("CODE", "line\nbreak").is_none());
    assert!(try_render_error_body("CO\"DE", "fine").is_none());
}

#[test]
fn oversized_body_is_refused_with_the_exact_payload() {
    // A 31 MiB body is over the 30 MiB limit.
    assert!(!body_within_limit(31 * 1024 * 1024));
    assert!(body_within_limit(MAX_BODY_BYTES));
    assert!(!body_within_limit(MAX_BODY_BYTES + 1));

    let body = payload_too_large_body();
    assert!(body.contains("\"code\":413"));
    assert!(body.contains("\"status\":\"PAYLOAD_TOO_LARGE\""));
    assert!(body.contains("\"message\":\"request body too large\""));
}
