use mailgate::request_error::{RequestError, RequestErrorType, RequestLimitError};

#[test]
fn blank_keeps_its_fields() {
    let e = RequestError::blank(418, "Teapot", "Short and stout.");
    assert_eq!(e.p_type, RequestErrorType::Other);
    assert_eq!(e.status, 418);
    assert_eq!(e.title.as_deref(), Some("Teapot"));
    assert_eq!(e.detail, "Short and stout.");
    assert!(e.limit.is_none());
}

#[test]
fn fixed_problems_have_their_status_and_text() {
    let cases = [
        (RequestError::internal_server_error(), 500, "Internal Server Error", "There was a problem while processing your request. Please contact the system administrator."),
        (RequestError::unavailable(), 503, "Temporarily Unavailable", "There was a temporary problem while processing your request. Please try again in a few moments."),
        (RequestError::invalid_parameters(), 400, "Invalid Parameters", "One or multiple parameters could not be parsed."),
        (RequestError::forbidden(), 403, "Forbidden", "You do not have enough permissions to access this resource."),
        (RequestError::too_many_requests(), 429, "Too Many Requests", "Your request has been rate limited. Please try again in a few seconds."),
        (RequestError::too_many_auth_attempts(), 429, "Too Many Authentication Attempts", "Your request has been rate limited. Please try again in a few minutes."),
        (RequestError::not_found(), 404, "Not Found", "The requested resource does not exist on this server."),
        (RequestError::unauthorized(), 401, "Unauthorized", "You have to authenticate first."),
    ];
    for (e, status, title, detail) in cases {
        assert_eq!(e.status, status);
        assert_eq!(e.title.as_deref(), Some(title));
        assert_eq!(e.detail, detail);
        assert_eq!(e.p_type, RequestErrorType::Other);
        assert_eq!(e.to_string(), detail);
    }
}

#[test]
fn limit_errors_name_the_limit() {
    let e = RequestError::limit(RequestLimitError::Size);
    assert_eq!(e.p_type, RequestErrorType::Limit);
    assert_eq!(e.status, 400);
    assert!(e.title.is_none());
    assert_eq!(e.detail, "The request is larger than the server is willing to process.");
    assert_eq!(e.limit, Some(RequestLimitError::Size));
    assert_eq!(
        RequestError::limit(RequestLimitError::CallsIn).detail,
        "The request exceeds the maximum number of calls in a single request."
    );
    assert_eq!(
        RequestError::limit(RequestLimitError::Concurrent).detail,
        "The request exceeds the maximum number of concurrent requests."
    );
}

#[test]
fn capability_and_parse_errors_carry_the_detail() {
    let e = RequestError::unknown_capability("urn:x");
    assert_eq!(e.p_type, RequestErrorType::UnknownCapability);
    assert_eq!(e.detail, "The Request object used capability 'urn:x', which is not supportedby this server.");
    let e = RequestError::not_json("EOF at line 1");
    assert_eq!(e.p_type, RequestErrorType::NotJSON);
    assert_eq!(e.detail, "Failed to parse JSON: EOF at line 1");
    let e = RequestError::not_request("missing using");
    assert_eq!(e.p_type, RequestErrorType::NotRequest);
    assert_eq!(e.status, 400);
    assert_eq!(e.detail, "missing using");
}
