use gcli_nexus::auth::ensure_authorized;

fn check(
    goog: Option<&str>,
    auth: Option<&str>,
    query: Option<&str>,
    expected: &str,
) -> bool {
    let goog = goog.map(|s| s.to_string());
    let auth = auth.map(|s| s.to_string());
    let query = query.map(|s| s.to_string());
    ensure_authorized(
        goog.as_ref(),
        auth.as_ref(),
        query.as_ref(),
        &expected.to_string(),
    )
}

#[test]
fn goog_api_key_header_grants() {
    assert!(check(Some("secret"), None, None, "secret"));
    assert!(!check(Some("wrong"), None, None, "secret"));
    assert!(!check(Some(""), None, None, "secret"));
}

#[test]
fn bearer_header_grants_with_any_scheme_case() {
    assert!(check(None, Some("Bearer secret"), None, "secret"));
    assert!(check(None, Some("bearer secret"), None, "secret"));
    assert!(check(None, Some("BEARER secret"), None, "secret"));
    assert!(!check(None, Some("Bearer wrong"), None, "secret"));
    assert!(!check(None, Some("Basic secret"), None, "secret"));
    assert!(!check(None, Some("Bearersecret"), None, "secret"));
    assert!(!check(None, Some("secret"), None, "secret"));
}

#[test]
fn query_key_parameter_grants() {
    assert!(check(None, None, Some("key=secret"), "secret"));
    assert!(check(None, None, Some("a=b&key=secret&c=d"), "secret"));
    assert!(!check(None, None, Some("key=wrong"), "secret"));
    assert!(!check(None, None, Some("notkey=secret"), "secret"));
    assert!(!check(None, None, Some(""), "secret"));
}

#[test]
fn query_values_are_form_decoded() {
    // Percent-encoded and plus-encoded forms decode before comparison.
    assert!(check(None, None, Some("key=se%63ret"), "secret"));
    assert!(check(None, None, Some("key=a+b"), "a b"));
    // The raw, undecoded text does not equal the key.
    assert!(!check(None, None, Some("key=se%63ret"), "se%63ret"));
}

#[test]
fn nothing_presented_is_refused() {
    assert!(!check(None, None, None, "secret"));
}

#[test]
fn any_single_grant_suffices() {
    assert!(check(Some("wrong"), Some("Bearer secret"), None, "secret"));
    assert!(check(Some("wrong"), Some("Basic x"), Some("key=secret"), "secret"));
}
