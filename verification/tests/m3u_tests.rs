use rusty_radio::m3u::{M3UError, M3U};

const SIMPLE_M3U: &str = "http://listen.181fm.com/181-classical_128k.mp3\n";

const EXTENDED_M3U: &str = "#EXTM3U\n\n#EXTINF:0, station name\nhttp://radio.com/stream/mp3/stream.mp3\nn#EXTINF:0, station name\nhttp://hitradio.com//mp3/stream.mp3\n";

#[test]
fn test_parse_simple_m3u() {
    let mut url = String::new();

    let mut m3u = M3U::<1024>::new();
    for c in SIMPLE_M3U.chars() {
        let b: u8 = c.try_into().unwrap();
        let partial_url = m3u.parse_m3u(b).unwrap();
        match partial_url {
            Some(full_url) => {
                url = full_url;
                break;
            }
            None => continue,
        }
    }

    let expected_url = String::from("http://listen.181fm.com/181-classical_128k.mp3");
    assert_eq!(expected_url, url);
}

#[test]
fn test_parse_extended_m3u() {
    let mut url = String::new();

    let mut m3u = M3U::<1024>::new();
    for c in EXTENDED_M3U.chars() {
        let b: u8 = c.try_into().unwrap();
        let partial_url = m3u.parse_m3u(b).unwrap();
        match partial_url {
            Some(full_url) => {
                url = full_url;
                break;
            }
            None => continue,
        }
    }

    let expected_url = String::from("http://radio.com/stream/mp3/stream.mp3");
    assert_eq!(expected_url, url);
}

#[test]
fn test_parse_simple_m3u_unterminated() {
    let simple_m3u_unterminated = "http://listen.181fm.com/181-classical_128k.mp3";

    let mut m3u = M3U::<1024>::new();
    for c in simple_m3u_unterminated.chars() {
        let b: u8 = c.try_into().unwrap();
        let partial_url = m3u.parse_m3u(b).unwrap();
        match partial_url {
            Some(_) => {
                assert!(false, "Should not happen as the url is unterminated")
            }
            None => continue,
        }
    }

    let url = m3u.terminate().unwrap();

    let expected_url = String::from("http://listen.181fm.com/181-classical_128k.mp3");
    assert_eq!(expected_url, url);
}

#[test]
fn test_parse_extended_m3u_invalid_url() {
    let incorrect_m3u_string = "#EXTM3U\n\n#EXTINF:0, station name\nhttp://radio.com/ stream/mp3/stream.mp3\nn#EXTINF:0, station name\nhttp://hitradio.com//mp3/stream.mp3\n";

    let mut m3u = M3U::<1024>::new();
    for c in incorrect_m3u_string.chars() {
        let b: u8 = c.try_into().unwrap();
        let r = m3u.parse_m3u(b);
        match r {
            Ok(None) => continue,
            Ok(Some(_)) => assert!(false, "Fully parsed malformed URL!"),
            Err(err) => {
                assert_eq!(err, M3UError::MalformedUrl);
                break;
            }
        };
    }
}

fn feed(m3u: &mut M3U<64>, text: &[u8]) -> Result<Option<String>, M3UError> {
    for &b in text {
        assert!(m3u.can_take(b));
        match m3u.parse_m3u(b)? {
            Some(url) => return Ok(Some(url)),
            None => continue,
        }
    }
    Ok(None)
}

#[test]
fn carriage_return_ends_url() {
    let mut m3u = M3U::<64>::new();
    assert_eq!(feed(&mut m3u, b"x http://a.de/s\r\n"), Ok(Some(String::from("http://a.de/s"))));
}

#[test]
fn stray_h_is_skipped() {
    let mut m3u = M3U::<64>::new();
    assert_eq!(feed(&mut m3u, b"hello"), Ok(None));
    assert_eq!(m3u.terminate(), Err(M3UError::MalformedUrl));
}

#[test]
fn title_with_h_before_url() {
    let mut m3u = M3U::<64>::new();
    assert_eq!(
        feed(&mut m3u, b"#EXTINF:-1,The Hits\nhttp://x.de/a.mp3\n"),
        Ok(Some(String::from("http://x.de/a.mp3")))
    );
}

#[test]
fn broken_scheme_restarts_on_h() {
    let mut m3u = M3U::<64>::new();
    assert_eq!(
        feed(&mut m3u, b"htthttp://a.b/c\n"),
        Ok(Some(String::from("http://a.b/c")))
    );
    let mut m3u = M3U::<64>::new();
    assert_eq!(feed(&mut m3u, b"http:/x https://y http://z"), Ok(None));
    assert_eq!(m3u.terminate(), Ok(String::from("http://z")));
}

#[test]
fn empty_after_scheme_is_malformed() {
    let mut m3u = M3U::<64>::new();
    assert_eq!(feed(&mut m3u, b"http://\n"), Err(M3UError::MalformedUrl));
}

#[test]
fn terminate_without_url_is_malformed() {
    let mut m3u = M3U::<64>::default();
    assert_eq!(feed(&mut m3u, b"#EXTM3U\n"), Ok(None));
    assert_eq!(m3u.terminate(), Err(M3UError::MalformedUrl));
}

#[test]
fn url_that_is_not_utf8() {
    let mut m3u = M3U::<64>::new();
    let r = feed(&mut m3u, b"http://a\xff\n");
    assert!(matches!(r, Err(M3UError::Utf8ConversionError(_))));
}

#[test]
fn buffer_limit_is_reported_before_overflow() {
    let mut m3u = M3U::<8>::new();
    assert_eq!(feed_small(&mut m3u, b"http://a"), None);
    assert!(!m3u.can_take(b'b'));
    assert!(m3u.can_take(b'\n'));
    assert_eq!(m3u.parse_m3u(b'\n'), Ok(Some(String::from("http://a"))));
}

fn feed_small(m3u: &mut M3U<8>, text: &[u8]) -> Option<String> {
    for &b in text {
        assert!(m3u.can_take(b));
        if let Some(url) = m3u.parse_m3u(b).unwrap() {
            return Some(url);
        }
    }
    None
}

#[test]
fn new_and_default_scan_alike() {
    let text = b"#EXTINF:-1,hh\nhttp://a.de/x\n";
    let mut a = M3U::<64>::new();
    let mut b = M3U::<64>::default();
    for &c in text.iter() {
        assert_eq!(a.parse_m3u(c), b.parse_m3u(c));
    }
    let mut a = M3U::<64>::new();
    let mut b = M3U::<64>::default();
    assert_eq!(a.terminate(), b.terminate());
    assert_eq!(a.terminate(), Err(M3UError::MalformedUrl));
}

#[test]
fn terminate_gives_url_from_first_scheme() {
    let mut m3u = M3U::<64>::new();
    assert_eq!(feed(&mut m3u, b"ht http:/ h http://first/x"), Ok(None));
    assert_eq!(m3u.terminate(), Ok(String::from("http://first/x")));
    let mut m3u = M3U::<64>::new();
    assert_eq!(feed(&mut m3u, b"http://"), Ok(None));
    assert_eq!(m3u.terminate(), Err(M3UError::MalformedUrl));
}
