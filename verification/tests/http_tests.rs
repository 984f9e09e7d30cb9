use rusty_radio::http_request::{HttpBuilderError, Method, Request};
use rusty_radio::http_response::{Response, ResponseError, ResponseStatusCode};

#[test]
fn test_response_status_code_from_u16() {
    let response_status_code = ResponseStatusCode::from(200);
    assert_eq!(response_status_code, ResponseStatusCode::Successful(200));

    let response_status_code = ResponseStatusCode::from(300);
    assert_eq!(response_status_code, ResponseStatusCode::Redirection(300));

    let response_status_code = ResponseStatusCode::from(306);
    assert_eq!(response_status_code, ResponseStatusCode::Redirection(306));

    let response_status_code = ResponseStatusCode::from(499);
    assert_eq!(response_status_code, ResponseStatusCode::ClientError(499));

    let response_status_code = ResponseStatusCode::from(500);
    assert_eq!(response_status_code, ResponseStatusCode::ServerError(500));

    let response_status_code = ResponseStatusCode::from(600);
    assert_eq!(response_status_code, ResponseStatusCode::Invalid(600));
}

#[test]
fn test_response_status_code_from_option_u16() {
    let response_status_code = ResponseStatusCode::from(Some(200));
    assert_eq!(response_status_code, ResponseStatusCode::Successful(200));

    let response_status_code = ResponseStatusCode::from(Some(300));
    assert_eq!(response_status_code, ResponseStatusCode::Redirection(300));

    let response_status_code = ResponseStatusCode::from(Some(306));
    assert_eq!(response_status_code, ResponseStatusCode::Redirection(306));

    let response_status_code = ResponseStatusCode::from(Some(499));
    assert_eq!(response_status_code, ResponseStatusCode::ClientError(499));

    let response_status_code = ResponseStatusCode::from(Some(500));
    assert_eq!(response_status_code, ResponseStatusCode::ServerError(500));

    let response_status_code = ResponseStatusCode::from(Some(600));
    assert_eq!(response_status_code, ResponseStatusCode::Invalid(600));

    let response_status_code = ResponseStatusCode::from(None);
    assert_eq!(response_status_code, ResponseStatusCode::Unknown);
}

#[test]
fn status_code_class_bounds() {
    assert_eq!(ResponseStatusCode::from(99), ResponseStatusCode::Invalid(99));
    assert_eq!(ResponseStatusCode::from(100), ResponseStatusCode::Informational(100));
    assert_eq!(ResponseStatusCode::from(199), ResponseStatusCode::Informational(199));
    assert_eq!(ResponseStatusCode::from(299), ResponseStatusCode::Successful(299));
    assert_eq!(ResponseStatusCode::from(400), ResponseStatusCode::ClientError(400));
    assert_eq!(ResponseStatusCode::from(599), ResponseStatusCode::ServerError(599));
    assert_eq!(ResponseStatusCode::default(), ResponseStatusCode::Unknown);
}

#[test]
fn test_response() {
    let header_buffer =
        b"HTTP/1.1 200 OK\r\nContent-Type: audio/mpeg\r\nLocation: http://redirect.com\r\n\r\n";

    let r = Response::new(header_buffer);

    assert!(r.is_ok());

    let response = r.unwrap();

    assert_eq!(response.status_code, ResponseStatusCode::Successful(200));
    assert!(response.location.is_some());
    assert_eq!(response.location.unwrap(), "http://redirect.com");
}

#[test]
fn response_size_and_status_getter() {
    let head = b"HTTP/1.1 302 Found\r\nlocation: http://a.de/x\r\n\r\nbody";
    let response = Response::new(head).unwrap();
    assert_eq!(response.status_code(), ResponseStatusCode::Redirection(302));
    assert_eq!(response.size, head.len() - 4);
    assert_eq!(response.location.as_deref(), Some("http://a.de/x"));
}

#[test]
fn response_first_location_wins_in_any_case() {
    let head = b"HTTP/1.0 301 Moved\r\nLOCATION: http://first.de\r\nLocation: http://second.de\r\n\r\n";
    let response = Response::new(head).unwrap();
    assert_eq!(response.location.as_deref(), Some("http://first.de"));
}

#[test]
fn response_without_location() {
    let head = b"HTTP/1.1 404 Not Found\r\nServer: x\r\n\r\n";
    let response = Response::new(head).unwrap();
    assert_eq!(response.status_code, ResponseStatusCode::ClientError(404));
    assert!(response.location.is_none());
}

#[test]
fn response_incomplete_head() {
    let head = b"HTTP/1.1 200 OK\r\nServer: x\r\n";
    assert!(matches!(Response::new(head), Err(ResponseError::IncompleteHeaders)));
}

#[test]
fn response_malformed_head() {
    let head = b"HTTQ/1.1 200 OK\r\n\r\n";
    assert!(matches!(Response::new(head), Err(ResponseError::HeaderParse(_))));
}

#[test]
fn response_location_too_long() {
    let mut head = b"HTTP/1.1 301 Moved\r\nLocation: http://".to_vec();
    head.extend(std::iter::repeat(b'a').take(250));
    head.extend_from_slice(b"\r\n\r\n");
    assert!(matches!(Response::new(&head), Err(ResponseError::UrlParse)));
}

#[test]
fn response_location_not_utf8() {
    let head = b"HTTP/1.1 301 Moved\r\nLocation: http://\xff\xfe\r\n\r\n";
    assert!(matches!(Response::new(head), Err(ResponseError::StringConversion(_))));
}

#[test]
fn response_default_is_unknown() {
    let r = Response::default();
    assert_eq!(r.status_code, ResponseStatusCode::Unknown);
    assert!(r.location.is_none());
    assert_eq!(r.size, 0);
}

#[test]
fn test_simple_get() {
    let mut request = Request::new(Method::GET, "/pub/WWW/").unwrap();
    request.host("www.example.org").unwrap();
    let request_str = request.to_string();

    assert_eq!(
        request_str,
        "GET /pub/WWW/ HTTP/1.1\r\nHost: www.example.org\r\n\r\n"
    );
}

#[test]
fn test_request_builder() -> Result<(), HttpBuilderError> {
    let mut request = Request::new(Method::GET, "/path/to/resource")?;
    request.host("example.com")?;
    request.header("User-Agent", "MyClient/1.0")?;
    request.body("Hello, world!")?;
    let request_str = request.to_string();

    assert_eq!(
        request_str,
        "GET /path/to/resource HTTP/1.1\r\nHost: example.com\r\nUser-Agent: MyClient/1.0\r\n\r\nHello, world!"
    );
    Ok(())
}

#[test]
fn method_names() {
    assert_eq!(Method::GET.as_str(), "GET");
    assert_eq!(Method::POST.as_str(), "POST");
    assert_eq!(Method::PUT.as_str(), "PUT");
    assert_eq!(Method::DELETE.as_str(), "DELETE");
    assert_eq!(Method::PATCH.as_str(), "PATCH");
    assert_eq!(Method::HEAD.as_str(), "HEAD");
    assert_eq!(Method::OPTIONS.as_str(), "OPTIONS");
}

#[test]
fn request_empty_path_is_root() {
    let request = Request::new(Method::HEAD, "").unwrap();
    assert_eq!(request.to_string(), "HEAD / HTTP/1.1\r\n\r\n");
}

#[test]
fn request_path_too_long() {
    let path = "a".repeat(129);
    assert!(matches!(
        Request::new(Method::GET, &path),
        Err(HttpBuilderError::StringConversionError)
    ));
    let path = "a".repeat(128);
    assert!(Request::new(Method::GET, &path).is_ok());
}

#[test]
fn request_header_overflow_keeps_fitting_pieces() {
    let mut request = Request::new(Method::GET, "/").unwrap();
    let value = "v".repeat(498);
    request.header("Key", &value).unwrap();
    // 505 bytes used; "Next" fits, ": " fits, the value does not.
    let r = request.header("Next", "123456789");
    assert!(matches!(r, Err(HttpBuilderError::StringPushError)));
    let text = request.to_string();
    assert!(text.ends_with("\r\nNext: \r\n"));
}

#[test]
fn request_body_too_long() {
    let mut request = Request::new(Method::POST, "/").unwrap();
    let body = "b".repeat(1025);
    assert!(matches!(request.body(&body), Err(HttpBuilderError::StringConversionError)));
    assert_eq!(request.to_string(), "POST / HTTP/1.1\r\n\r\n");
    request.body("ok").unwrap();
    assert_eq!(request.to_string(), "POST / HTTP/1.1\r\n\r\nok");
}
