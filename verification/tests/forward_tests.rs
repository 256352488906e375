use quick_capture::forward::{parse_extra_headers, plan_forward, trim_str, AuthPlan, ForwardError};

#[test]
fn parse_headers_splits_on_commas_and_first_colon() {
    let headers = parse_extra_headers(Some("X-One: a, X-Two: b:c"));
    assert_eq!(headers.len(), 2);
    assert_eq!(headers[0].name, "X-One");
    assert_eq!(headers[0].value, "a");
    assert_eq!(headers[1].name, "X-Two");
    assert_eq!(headers[1].value, "b:c");
}

#[test]
fn parse_headers_drops_unparseable_items() {
    let headers = parse_extra_headers(Some("no colon here, X-Good: yes, also bad"));
    assert_eq!(headers.len(), 1);
    assert_eq!(headers[0].name, "X-Good");
    assert_eq!(headers[0].value, "yes");
}

#[test]
fn parse_headers_last_value_wins_for_duplicate_keys() {
    let headers = parse_extra_headers(Some("X-Dup: first, X-Other: o, X-Dup: second"));
    assert_eq!(headers.len(), 2);
    assert_eq!(headers[0].name, "X-Other");
    assert_eq!(headers[0].value, "o");
    assert_eq!(headers[1].name, "X-Dup");
    assert_eq!(headers[1].value, "second");
}

#[test]
fn parse_headers_none_or_blank_yields_nothing() {
    assert_eq!(parse_extra_headers(None).len(), 0);
    assert_eq!(parse_extra_headers(Some("")).len(), 0);
    assert_eq!(parse_extra_headers(Some("   ")).len(), 0);
}

#[test]
fn trim_removes_surrounding_whitespace() {
    assert_eq!(trim_str("  spaced  "), "spaced");
    assert_eq!(trim_str("inner space kept"), "inner space kept");
    assert_eq!(trim_str("\t\n"), "");
}

#[test]
fn forward_rejects_empty_url() {
    let err = plan_forward("", "none", None, None, None, None).unwrap_err();
    assert_eq!(err, ForwardError::EmptyUrl);
    assert_eq!(err.message(), "Error: URL cannot be empty");
}

#[test]
fn forward_bearer_requires_token() {
    let err = plan_forward("http://example.test", "bearer", None, None, None, None).unwrap_err();
    assert_eq!(err, ForwardError::MissingBearerToken);
    assert_eq!(err.message(), "Error: Bearer token required for bearer auth");

    let plan =
        plan_forward("http://example.test", "bearer", Some("tok123"), None, None, None).unwrap();
    match plan.auth {
        AuthPlan::Bearer(token) => assert_eq!(token, "tok123"),
        other => panic!("expected bearer auth, got {:?}", other),
    }
}

#[test]
fn forward_basic_requires_both_credentials() {
    let err = plan_forward("http://example.test", "basic", None, Some("user"), None, None)
        .unwrap_err();
    assert_eq!(err, ForwardError::MissingBasicCredentials);
    assert_eq!(
        err.message(),
        "Error: Username and password required for basic auth"
    );

    let plan = plan_forward(
        "http://example.test",
        "basic",
        None,
        Some("user"),
        Some("pass"),
        None,
    )
    .unwrap();
    match plan.auth {
        AuthPlan::Basic(user, pass) => {
            assert_eq!(user, "user");
            assert_eq!(pass, "pass");
        }
        other => panic!("expected basic auth, got {:?}", other),
    }
}

#[test]
fn forward_unknown_auth_means_no_auth() {
    let plan = plan_forward(
        "http://example.test",
        "unheard-of",
        None,
        None,
        None,
        Some("X-H: v"),
    )
    .unwrap();
    assert!(matches!(plan.auth, AuthPlan::NoAuth));
    assert_eq!(plan.headers.len(), 1);
    assert_eq!(plan.headers[0].name, "X-H");
    assert_eq!(plan.headers[0].value, "v");
}
