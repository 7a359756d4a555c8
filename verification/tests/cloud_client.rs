use plow_logic::cloud_client::{
    error_for_response, network_message, response_message, runtime_context_url,
    url_encode_path_segment, validate_request, CloudError, CloudRequest, NETWORK_EXIT_CODE,
};

fn request(repo: &str) -> CloudRequest {
    CloudRequest {
        api_key: "plow_live_test".to_owned(),
        api_endpoint: Some("http://127.0.0.1:3000/".to_owned()),
        repo: repo.to_owned(),
        project_id: None,
        period_days: 30,
        environment: None,
        commit_sha: None,
    }
}

#[test]
fn runtime_context_url_percent_encodes_repo_as_single_segment() {
    let url = runtime_context_url(&request("acme/web"));
    assert!(url.starts_with("http://127.0.0.1:3000/v1/coverage/acme%2Fweb/runtime-context?"));
    assert!(url.contains("periodDays=30"));
    assert!(url.contains("format=plow-cloud-runtime-v1"));
}

#[test]
fn runtime_context_url_encodes_optional_query_values() {
    let mut req = request("acme/web");
    req.project_id = Some("app one".to_owned());
    req.environment = Some("prod/eu".to_owned());
    req.commit_sha = Some("abc123".to_owned());
    let url = runtime_context_url(&req);
    assert!(url.contains("projectId=app%20one"));
    assert!(url.contains("environment=prod%2Feu"));
    assert!(url.contains("commitSha=abc123"));
}

#[test]
fn validate_request_rejects_invalid_period() {
    let mut req = request("acme/web");
    req.period_days = 91;
    assert!(matches!(
        validate_request(&req),
        Err(CloudError::Validation(_))
    ));
}

#[test]
fn cloud_request_debug_masks_api_key() {
    let req = CloudRequest {
        api_key: "plow_live_secret_token_value".to_owned(),
        api_endpoint: Some("https://api.plow.cloud".to_owned()),
        repo: "acme/web".to_owned(),
        project_id: None,
        period_days: 30,
        environment: None,
        commit_sha: None,
    };
    let formatted = req.debug_string();
    assert!(
        !formatted.contains("plow_live_secret_token_value"),
        "api_key leaked through Debug: {formatted}"
    );
    assert!(
        formatted.contains("api_key: \"***\""),
        "expected explicit redaction marker, got: {formatted}"
    );
    assert!(formatted.contains("repo: \"acme/web\""));
    assert!(formatted.contains("period_days: 30"));
}

#[test]
fn cloud_error_exit_code_for_validation_is_two() {
    assert_eq!(CloudError::Validation("any".to_owned()).exit_code(), 2);
}

#[test]
fn runtime_context_url_full_form_with_default_endpoint() {
    let mut req = request("  acme/wéb ");
    req.api_endpoint = None;
    req.period_days = 7;
    req.environment = Some("   ".to_owned());
    assert_eq!(
        runtime_context_url(&req),
        "https://api.plow.cloud/v1/coverage/acme%2Fw%C3%A9b/runtime-context?periodDays=7&format=plow-cloud-runtime-v1"
    );
}

#[test]
fn runtime_context_url_strips_trailing_slashes_of_endpoint() {
    let mut req = request("r");
    req.api_endpoint = Some(" http://h// ".to_owned());
    assert!(runtime_context_url(&req).starts_with("http://h/v1/coverage/r/runtime-context?"));
}

#[test]
fn url_encoding_keeps_unreserved_and_escapes_the_rest() {
    assert_eq!(url_encode_path_segment("aZ0-._~ /?€"), "aZ0-._~%20%2F%3F%E2%82%AC");
}

#[test]
fn validate_request_order_of_checks() {
    let mut req = request("  ");
    req.api_key = " ".to_owned();
    req.period_days = 0;
    assert!(matches!(validate_request(&req), Err(CloudError::Auth(_))));
    req.api_key = "k".to_owned();
    assert!(matches!(validate_request(&req), Err(CloudError::Validation(m)) if m == "repository is empty; pass --repo owner/repo"));
    req.repo = "a/b".to_owned();
    assert!(matches!(validate_request(&req), Err(CloudError::Validation(m)) if m == "--coverage-period must be between 1 and 90 days"));
    req.period_days = 90;
    assert!(validate_request(&req).is_ok());
}

#[test]
fn error_codes_and_messages_for_responses() {
    let e = error_for_response(401, None, "x", "acme/web");
    assert_eq!(e.exit_code(), 3);
    assert_eq!(e.message(), "Plow API key is invalid or revoked.");
    let e = error_for_response(403, Some("tier_required"), "x", "acme/web");
    assert!(matches!(e, CloudError::TierRequired(_)));
    let e = error_for_response(403, Some("other"), "denied", "acme/web");
    assert_eq!(e.message(), "runtime-context request failed with HTTP 403: denied");
    assert_eq!(e.exit_code(), NETWORK_EXIT_CODE);
    let e = error_for_response(404, Some("repo_not_found"), "x", "acme/web");
    assert_eq!(e.message(), "Repo not accessible to your org: acme/web");
    let e = error_for_response(400, Some("validation_error"), "bad", "acme/web");
    assert_eq!(e.message(), "Cloud rejected the request: bad");
    assert_eq!(e.exit_code(), 2);
    let e = error_for_response(503, None, " busy ", "acme/web");
    assert!(matches!(e, CloudError::Network(_)));
    assert!(e.message().starts_with("Could not reach plow.cloud for cloud runtime coverage (busy)."));
}

#[test]
fn network_message_without_detail() {
    let m = network_message("  ");
    assert!(m.starts_with("Could not reach plow.cloud for cloud runtime coverage.\n\n"));
}

#[test]
fn response_message_prefers_non_blank_envelope_message() {
    assert_eq!(response_message(Some(" oops "), "body"), " oops ");
    assert_eq!(response_message(Some("  "), " body \n"), "body");
    assert_eq!(response_message(None, "b"), "b");
}

#[test]
fn cloud_request_debug_escapes_strings_as_str_debug_does() {
    for repo in [
        "acme/web",
        "tab\there \"q\" back\\slash",
        "ctl\u{1}\u{1f}\u{7f}\0end",
        "it's ünïcødé \u{200b} \u{301}x",
        "line\nbreak\r",
    ] {
        let req = CloudRequest {
            api_key: "k".to_owned(),
            api_endpoint: None,
            repo: repo.to_owned(),
            project_id: Some(repo.to_owned()),
            period_days: 7,
            environment: None,
            commit_sha: None,
        };
        let expected = format!(
            "CloudRequest {{ api_key: \"***\", api_endpoint: None, repo: {:?}, project_id: Some({:?}), period_days: 7, environment: None, commit_sha: None }}",
            repo, repo
        );
        assert_eq!(req.debug_string(), expected);
    }
}

#[test]
fn runtime_context_request_headers() {
    let req = CloudRequest {
        api_key: "plow_live_x".to_owned(),
        api_endpoint: None,
        repo: "acme/web".to_owned(),
        project_id: None,
        period_days: 30,
        environment: None,
        commit_sha: None,
    };
    assert_eq!(
        plow_logic::cloud_client::request_headers(&req),
        vec![
            ("Authorization".to_string(), "Bearer plow_live_x".to_string()),
            ("Accept".to_string(), "application/json".to_string()),
            ("Accept-Encoding".to_string(), "identity".to_string()),
        ]
    );
}
