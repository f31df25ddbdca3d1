use chat_backend::http::{
    build_response, parse_method, prepare_request, HttpError, Method, HTTP_TIMEOUT_SECS,
};

#[test]
fn every_supported_method_dispatches_in_any_case() {
    assert_eq!(parse_method("GET").unwrap(), Method::Get);
    assert_eq!(parse_method("get").unwrap(), Method::Get);
    assert_eq!(parse_method("gEt").unwrap(), Method::Get);
    assert_eq!(parse_method("POST").unwrap(), Method::Post);
    assert_eq!(parse_method("PoSt").unwrap(), Method::Post);
    assert_eq!(parse_method("post").unwrap(), Method::Post);
    assert_eq!(parse_method("PUT").unwrap(), Method::Put);
    assert_eq!(parse_method("put").unwrap(), Method::Put);
    assert_eq!(parse_method("DELETE").unwrap(), Method::Delete);
    assert_eq!(parse_method("delete").unwrap(), Method::Delete);
    assert_eq!(parse_method("DeLeTe").unwrap(), Method::Delete);
}

#[test]
fn any_other_method_is_refused() {
    for name in ["PATCH", "HEAD", "OPTIONS", "get ", " get", "GETX", "", "G", "PO ST"] {
        match parse_method(name) {
            Err(HttpError::UnsupportedMethod(m)) => assert_eq!(m, name),
            other => panic!("{:?} accepted {:?}", name, other),
        }
    }
}

#[test]
fn unsupported_method_message_names_the_method() {
    let err = parse_method("PATCH").unwrap_err();
    assert_eq!(err.message(), "Unsupported HTTP method: PATCH");
}

#[test]
fn failure_messages_name_the_failing_stage() {
    assert_eq!(
        HttpError::ClientBuild(String::from("boom")).message(),
        "Failed to create HTTP client: boom"
    );
    assert_eq!(HttpError::Send(String::from("timed out")).message(), "Request failed: timed out");
    assert_eq!(
        HttpError::BodyRead(String::from("bad bytes")).message(),
        "Failed to read response body: bad bytes"
    );
}

#[test]
fn prepared_request_keeps_inputs_and_fixed_timeout() {
    let headers = vec![(String::from("accept"), String::from("application/json"))];
    let prepared = prepare_request(
        String::from("http://example.test/a"),
        "post",
        Some(headers.clone()),
        Some(String::from("{}")),
    )
    .unwrap();
    assert_eq!(prepared.method, Method::Post);
    assert_eq!(prepared.url, "http://example.test/a");
    assert_eq!(prepared.headers, headers);
    assert_eq!(prepared.body, Some(String::from("{}")));
    assert_eq!(prepared.timeout_secs, 30);
    assert_eq!(HTTP_TIMEOUT_SECS, 30);
}

#[test]
fn prepare_request_refuses_bad_method_before_any_io() {
    let r = prepare_request(String::from("http://example.test"), "PATCH", None, None);
    match r {
        Err(e) => assert_eq!(e.message(), "Unsupported HTTP method: PATCH"),
        Ok(_) => panic!("PATCH was accepted"),
    }
}

#[test]
fn response_is_relayed_with_normalized_headers() {
    let raw = vec![(String::from("x-test"), Some(String::from("abc")))];
    let resp = build_response(201, raw, String::from("ok"));
    assert_eq!(resp.status, 201);
    assert_eq!(resp.headers, vec![(String::from("x-test"), String::from("abc"))]);
    assert_eq!(resp.body, "ok");
}

#[test]
fn repeated_header_keeps_last_value() {
    let raw = vec![
        (String::from("a"), Some(String::from("1"))),
        (String::from("b"), Some(String::from("2"))),
        (String::from("a"), Some(String::from("3"))),
    ];
    let resp = build_response(200, raw, String::new());
    let mut headers = resp.headers;
    headers.sort();
    assert_eq!(
        headers,
        vec![(String::from("a"), String::from("3")), (String::from("b"), String::from("2"))]
    );
}

#[test]
fn non_text_header_value_becomes_empty_string() {
    let raw = vec![(String::from("x-bin"), None)];
    let resp = build_response(200, raw, String::new());
    assert_eq!(resp.headers, vec![(String::from("x-bin"), String::new())]);
}

#[test]
fn empty_header_list_collapses_to_nothing() {
    let resp = build_response(204, Vec::new(), String::new());
    assert!(resp.headers.is_empty());
    assert_eq!(resp.status, 204);
}
