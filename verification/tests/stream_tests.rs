use rusty_radio::http_request::HttpBuilderError;
use rusty_radio::http_response::{Response, ResponseStatusCode};
use rusty_radio::m3u::{M3UError, M3U};
use rusty_radio::stream::{
    bounded_url, classify_token, extended_m3u_step, fill_step, header_end_found,
    response_action, simple_m3u_location, stream_request, ContentType, ReadEvent,
    ResponseAction, StreamError, StreamingState, TokenKind,
};
use rusty_radio::stream::{first_address, next_url, StreamEvent};

/// Feeds a playlist to the extended playlist reader a byte at a time, as the
/// streaming task does, ending with the end of the content.
fn read_extended(data: &[u8]) -> Result<ContentType, StreamError> {
    let mut m3u = M3U::<256>::new();
    for &b in data {
        assert!(m3u.can_take(b));
        if let Some(result) = extended_m3u_step(&mut m3u, ReadEvent::Byte(b)) {
            return result;
        }
    }
    extended_m3u_step(&mut m3u, ReadEvent::Eof).expect("end of content always decides")
}

#[test]
fn test_parse_extended_m3u_invalid_data() {
    // The content "#EXTM3U", then a failed read (a broken pipe).
    let data_bytes = "#EXTM3U".as_bytes();
    let mut m3u = M3U::<256>::new();
    let mut result = None;
    for &b in data_bytes {
        assert!(m3u.can_take(b));
        result = extended_m3u_step(&mut m3u, ReadEvent::Byte(b));
        assert!(result.is_none());
    }
    if result.is_none() {
        result = extended_m3u_step(&mut m3u, ReadEvent::Failed);
    }
    assert!(matches!(result, Some(Err(StreamError::InvalidM3U(_)))));
}

#[test]
fn extended_playlist_at_its_end_without_url() {
    let result = read_extended("#EXTM3U".as_bytes());
    assert!(matches!(result, Err(StreamError::InvalidM3U(M3UError::MalformedUrl))));
}

#[test]
fn test_parse_extended_m3u_valid_url() {
    let data = "#EXTM3U\nhttp://example.com/stream\n";
    let result = read_extended(data.as_bytes());
    match result {
        Ok(ContentType::ExtendedM3U(url)) => {
            assert_eq!(url.as_str(), "http://example.com/stream");
        }
        _ => panic!("Expected ExtendedM3U content type"),
    }
}

#[test]
fn test_determine_content_type() {
    let data = "http://example.com/stream\n";
    let bytes = data.as_bytes();
    assert_eq!(classify_token(&bytes[..7]), TokenKind::SimpleM3U);
    let result = simple_m3u_location(&bytes[7..]);
    assert!(matches!(result, Ok(ContentType::SimpleM3U(_))));
    if let Ok(ContentType::SimpleM3U(url)) = result {
        assert_eq!(url, "http://example.com/stream");
    }
}

#[test]
fn tokens() {
    assert_eq!(classify_token(b"#EXTM3U"), TokenKind::ExtendedM3U);
    assert_eq!(classify_token(b"ID3\x04\x00\x00\x00"), TokenKind::Audio);
    assert_eq!(classify_token(b"\xff\xfb\x90\x00\x00\x00\x00"), TokenKind::Audio);
    assert_eq!(classify_token(b"HTTP://"), TokenKind::Audio);
}

#[test]
fn simple_playlist_first_line_only() {
    let r = simple_m3u_location(b"a.de/one\r\nhttp://b.de/two\n");
    match r {
        Ok(ContentType::SimpleM3U(url)) => assert_eq!(url, "http://a.de/one"),
        _ => panic!("expected a simple playlist"),
    }
    let r = simple_m3u_location(b"a.de/last\r");
    match r {
        Ok(ContentType::SimpleM3U(url)) => assert_eq!(url, "http://a.de/last\r"),
        _ => panic!("expected a simple playlist"),
    }
}

#[test]
fn simple_playlist_errors() {
    assert!(matches!(simple_m3u_location(b""), Err(StreamError::EmptyM3U)));
    assert!(matches!(simple_m3u_location(b"\xff"), Err(StreamError::MalformedUrl)));
    let long = "x".repeat(250);
    assert!(matches!(
        simple_m3u_location(long.as_bytes()),
        Err(StreamError::StationUrlTooLong)
    ));
}

#[test]
fn extended_playlist_errors() {
    assert!(matches!(
        read_extended(b"#EXTM3U\nhttp://a b\n"),
        Err(StreamError::InvalidM3U(M3UError::MalformedUrl))
    ));
    assert!(matches!(
        read_extended(b"#EXTM3U\nhx"),
        Err(StreamError::InvalidM3U(M3UError::MalformedUrl))
    ));
    let mut m3u = M3U::<256>::new();
    assert!(matches!(
        extended_m3u_step(&mut m3u, ReadEvent::Bytes(3)),
        Some(Err(StreamError::TooManyBytesReadIn(3)))
    ));
}

#[test]
fn extended_playlist_pending_url_at_end() {
    match read_extended(b"#EXTM3U\nhttp://a.de/s") {
        Ok(ContentType::ExtendedM3U(url)) => assert_eq!(url, "http://a.de/s"),
        _ => panic!("expected the pending URL"),
    }
}

#[test]
fn head_end_detection() {
    let buf = b"HTTP/1.1 200 OK\r\n\r\nxx";
    assert!(!header_end_found(buf, 3));
    assert!(!header_end_found(buf, 18));
    assert!(header_end_found(buf, 19));
    assert!(!header_end_found(buf, 20));
}

#[test]
fn responses_lead_on() {
    let ok = Response::new(b"HTTP/1.1 200 OK\r\n\r\n").unwrap();
    assert!(matches!(response_action(ok), Ok(ResponseAction::ReadContent)));
    let moved = Response::new(b"HTTP/1.1 302 Found\r\nLocation: http://x.de/\r\n\r\n").unwrap();
    match response_action(moved) {
        Ok(ResponseAction::Redirect(url)) => assert_eq!(url, "http://x.de/"),
        _ => panic!("expected a redirect"),
    }
    let lost = Response::new(b"HTTP/1.1 302 Found\r\n\r\n").unwrap();
    assert!(matches!(
        response_action(lost),
        Err(StreamError::NoRedirectionLocationFound)
    ));
    let missing = Response::new(b"HTTP/1.1 404 Not Found\r\n\r\n").unwrap();
    assert!(matches!(
        response_action(missing),
        Err(StreamError::InvalidHttpCode(ResponseStatusCode::ClientError(404)))
    ));
}

#[test]
fn request_for_a_station() {
    let target = stream_request("http://liveradio.swr.de/sw282p3/swr3/play.mp3", "rr/1.0").unwrap();
    assert_eq!(target.host, "liveradio.swr.de");
    assert_eq!(target.port, 80);
    assert_eq!(
        target.request,
        "GET /sw282p3/swr3/play.mp3 HTTP/1.1\r\nHost: liveradio.swr.de\r\nUser-Agent: rr/1.0\r\nConnection: keep-alive\r\n\r\n"
    );
    let target = stream_request("https://a.de:8000", "x").unwrap();
    assert_eq!(target.port, 8000);
    assert!(target.request.starts_with("GET / HTTP/1.1\r\nHost: a.de\r\n"));
    let target = stream_request("HTTPS://b.de/", "x").unwrap();
    assert_eq!(target.port, 443);
}

#[test]
fn request_errors() {
    assert!(matches!(stream_request("ftp://a.de/", "x"), Err(StreamError::MalformedUrl)));
    assert!(matches!(stream_request("a.de/x", "x"), Err(StreamError::MalformedUrl)));
    let long_path = format!("http://a.de/{}", "p".repeat(200));
    assert!(matches!(
        stream_request(&long_path, "x"),
        Err(StreamError::HttpRequest(HttpBuilderError::StringConversionError))
    ));
    let agent = "u".repeat(600);
    assert!(matches!(
        stream_request("http://a.de/", &agent),
        Err(StreamError::HttpRequest(HttpBuilderError::StringPushError))
    ));
}

#[test]
fn url_buffer_bound() {
    let url = "h".repeat(256);
    assert_eq!(bounded_url(&url, StreamError::M3uUrlTooLong).unwrap(), url);
    let url = "h".repeat(257);
    assert!(matches!(
        bounded_url(&url, StreamError::RedirectionUrlTooLong),
        Err(StreamError::RedirectionUrlTooLong)
    ));
}

#[test]
fn playing_starts_at_three_quarters() {
    assert_eq!(fill_step(StreamingState::FillingPipe, 74, 100), (StreamingState::FillingPipe, false));
    assert_eq!(fill_step(StreamingState::FillingPipe, 75, 100), (StreamingState::Playing, true));
    assert_eq!(fill_step(StreamingState::Playing, 100, 100), (StreamingState::Playing, false));
}

#[test]
fn next_request_urls() {
    assert_eq!(
        next_url(StreamEvent::Redirected(String::from("http://b.de/x"))).unwrap(),
        "http://b.de/x"
    );
    assert_eq!(
        next_url(StreamEvent::StationChosen(String::from("http://s.de/"))).unwrap(),
        "http://s.de/"
    );
    assert_eq!(
        next_url(StreamEvent::PlaylistFound(String::from("http://p.de/a.mp3"))).unwrap(),
        "http://p.de/a.mp3"
    );
    assert_eq!(
        next_url(StreamEvent::StationChanged(Some(String::from("http://n.de/")))).unwrap(),
        "http://n.de/"
    );
    assert_eq!(next_url(StreamEvent::StationChanged(None)).unwrap(), "");
    let long = format!("http://{}", "x".repeat(300));
    assert!(matches!(
        next_url(StreamEvent::StationChosen(long.clone())),
        Err(StreamError::StationUrlTooLong)
    ));
    assert!(matches!(
        next_url(StreamEvent::PlaylistFound(long.clone())),
        Err(StreamError::M3uUrlTooLong)
    ));
    assert!(matches!(
        next_url(StreamEvent::StationChanged(Some(long))),
        Err(StreamError::RedirectionUrlTooLong)
    ));
}

#[test]
fn first_address_of_a_lookup() {
    assert!(matches!(first_address::<u32>(&[]), Err(StreamError::IpAddressNotFound)));
    assert_eq!(first_address(&[7u32, 8u32]).unwrap(), 7);
}
