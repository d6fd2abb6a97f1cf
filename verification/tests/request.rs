use marquito::request::{
    content_length, finish_head, from_slice, parse_headers, normalize_headers, parse_usize,
    parse_version, request_head_bounds, split_body, split_to_byte, split_to_delimiter,
    HttpErrorKind, RequestError, RequestHead, Version,
};

fn pairs(hs: &[(&str, &str)]) -> Vec<(String, String)> {
    hs.iter().map(|(n, v)| (n.to_string(), v.to_string())).collect()
}

#[test]
fn split_to_byte_takes_the_part_before() {
    let mut buf: &str = "GET /a HTTP/1.1";
    assert_eq!(split_to_byte(&mut buf, b' '), Ok("GET"));
    assert_eq!(buf, "/a HTTP/1.1");
    assert_eq!(split_to_byte(&mut buf, b' '), Ok("/a"));
    assert_eq!(buf, "HTTP/1.1");
}

#[test]
fn split_to_byte_without_the_byte_fails_and_keeps_the_text() {
    let mut buf: &str = "no-colon-here";
    assert_eq!(split_to_byte(&mut buf, b':'), Err(RequestError::InvalidFormat));
    assert_eq!(buf, "no-colon-here");
}

#[test]
fn split_to_byte_after_multibyte_text() {
    let mut buf: &str = "çé:ü";
    assert_eq!(split_to_byte(&mut buf, b':'), Ok("çé"));
    assert_eq!(buf, "ü");
}

#[test]
fn split_to_delimiter_takes_a_line() {
    let mut buf: &str = "first\r\nsecond\r\n";
    assert_eq!(split_to_delimiter(&mut buf), Ok("first"));
    assert_eq!(buf, "second\r\n");
    assert_eq!(split_to_delimiter(&mut buf), Ok("second"));
    assert_eq!(buf, "");
    assert_eq!(split_to_delimiter(&mut buf), Err(RequestError::InvalidFormat));
}

#[test]
fn split_to_delimiter_needs_both_characters() {
    let mut buf: &str = "a\rb\nc\r\r\nd";
    assert_eq!(split_to_delimiter(&mut buf), Ok("a\rb\nc\r"));
    assert_eq!(buf, "d");
}

#[test]
fn from_slice_reads_a_full_head() {
    let head = from_slice(b"POST /file.txt HTTP/1.1\r\nHost: localhost\r\nContent-Length:   5\r\n")
        .unwrap();
    assert_eq!(head.method, "POST");
    assert_eq!(head.target, "/file.txt");
    assert_eq!(head.path, "/file.txt");
    assert_eq!(head.version, Version::Http11);
    assert_eq!(head.headers, pairs(&[("host", "localhost"), ("content-length", "5")]));
}

#[test]
fn from_slice_takes_the_path_of_an_absolute_target() {
    let head = from_slice(b"GET http://example.com/a/b?c=1 HTTP/1.0\r\n").unwrap();
    assert_eq!(head.target, "http://example.com/a/b?c=1");
    assert_eq!(head.path, "/a/b");
    assert_eq!(head.version, Version::Http10);
    assert!(head.headers.is_empty());
}

#[test]
fn from_slice_knows_every_version() {
    for (text, v) in [
        ("HTTP/0.9", Version::Http09),
        ("HTTP/1.0", Version::Http10),
        ("HTTP/1.1", Version::Http11),
        ("HTTP/2.0", Version::Http2),
        ("HTTP/3.0", Version::Http3),
    ] {
        let raw = format!("GET / {}\r\n", text);
        assert_eq!(from_slice(raw.as_bytes()).unwrap().version, v);
    }
}

#[test]
fn from_slice_refuses_non_utf8() {
    assert_eq!(
        from_slice(b"GET /\xff HTTP/1.1\r\n").err(),
        Some(RequestError::InvalidEncoding)
    );
}

#[test]
fn from_slice_needs_a_line_break() {
    assert_eq!(from_slice(b"GET / HTTP/1.1").err(), Some(RequestError::InvalidFormat));
}

#[test]
fn from_slice_needs_two_spaces() {
    assert_eq!(from_slice(b"GET /\r\n").err(), Some(RequestError::InvalidFormat));
    assert_eq!(from_slice(b"GET\r\n").err(), Some(RequestError::InvalidFormat));
}

#[test]
fn from_slice_refuses_a_bad_method() {
    assert_eq!(
        from_slice(b"G@T / HTTP/1.1\r\n").err(),
        Some(RequestError::HttpError(HttpErrorKind::InvalidMethod))
    );
    assert_eq!(
        from_slice(b" / HTTP/1.1\r\n").err(),
        Some(RequestError::HttpError(HttpErrorKind::InvalidMethod))
    );
}

#[test]
fn from_slice_accepts_extension_methods() {
    let head = from_slice(b"PURGE! / HTTP/1.1\r\n").unwrap();
    assert_eq!(head.method, "PURGE!");
}

#[test]
fn from_slice_refuses_an_empty_target() {
    assert_eq!(
        from_slice(b"GET  HTTP/1.1\r\n").err(),
        Some(RequestError::HttpError(HttpErrorKind::InvalidUri))
    );
}

#[test]
fn from_slice_checks_method_before_version() {
    assert_eq!(
        from_slice(b"G@T / HTTP/9.9\r\nbad\r\n").err(),
        Some(RequestError::HttpError(HttpErrorKind::InvalidMethod))
    );
}

#[test]
fn from_slice_refuses_an_unknown_version() {
    assert_eq!(
        from_slice(b"GET / HTTP/1.2\r\n").err(),
        Some(RequestError::UnsupportedVersion)
    );
    assert_eq!(
        from_slice(b"GET / http/1.1\r\n").err(),
        Some(RequestError::UnsupportedVersion)
    );
}

#[test]
fn from_slice_refuses_a_header_without_colon() {
    assert_eq!(
        from_slice(b"GET / HTTP/1.1\r\nHost: x\r\nbroken\r\n").err(),
        Some(RequestError::InvalidFormat)
    );
}

#[test]
fn from_slice_refuses_the_empty_line_that_ends_a_head() {
    assert_eq!(
        from_slice(b"GET / HTTP/1.1\r\nHost: x\r\n\r\n").err(),
        Some(RequestError::InvalidFormat)
    );
}

#[test]
fn from_slice_ignores_text_after_the_last_line_break() {
    let head = from_slice(b"GET / HTTP/1.1\r\nA: 1\r\nB").unwrap();
    assert_eq!(head.headers, pairs(&[("a", "1")]));
}

#[test]
fn header_values_lose_leading_unicode_white_space() {
    let hs = parse_headers("X:\t\u{a0}\u{3000} v a l \r\nY:\r\nZ:a:b\r\n").unwrap();
    assert_eq!(hs, pairs(&[("X", "v a l "), ("Y", ""), ("Z", "a:b")]));
}

#[test]
fn parse_version_reads_only_exact_texts() {
    assert_eq!(parse_version("HTTP/2.0"), Some(Version::Http2));
    assert_eq!(parse_version("HTTP/2"), None);
    assert_eq!(parse_version(""), None);
}

#[test]
fn finish_head_uses_the_given_path() {
    let head = finish_head("GET", "x", Some("/given".to_string()), "HTTP/1.1", "K: v\r\n").unwrap();
    assert_eq!(head.path, "/given");
    assert_eq!(head.target, "x");
    assert_eq!(head.headers, pairs(&[("k", "v")]));
    assert_eq!(
        finish_head("GET", "x", None, "HTTP/1.1", "").err(),
        Some(RequestError::HttpError(HttpErrorKind::InvalidUri))
    );
    assert_eq!(
        finish_head("GET", "x", Some("/".to_string()), "HTTP/4.0", "").err(),
        Some(RequestError::UnsupportedVersion)
    );
}

#[test]
fn request_head_bounds_finds_the_empty_line() {
    let buf = b"GET / HTTP/1.1\r\nA: 1\r\n\r\nbody";
    let (head, body) = request_head_bounds(buf).unwrap();
    assert_eq!(&buf[..head], b"GET / HTTP/1.1\r\nA: 1\r\n");
    assert_eq!(&buf[body..], b"body");
    assert_eq!(request_head_bounds(b"GET / HTTP/1.1\r\nA: 1\r\n"), None);
    assert_eq!(request_head_bounds(b""), None);
    assert_eq!(request_head_bounds(b"\r\n\r\n"), Some((2, 4)));
}

#[test]
fn a_found_head_is_read_by_from_slice() {
    let buf = b"GET /f HTTP/1.1\r\nHost: h\r\n\r\n";
    let (head, _) = request_head_bounds(buf).unwrap();
    let parsed = from_slice(&buf[..head]).unwrap();
    assert_eq!(parsed.path, "/f");
    assert_eq!(parsed.headers, pairs(&[("host", "h")]));
}

fn head_with(headers: &[(&str, &str)]) -> RequestHead {
    RequestHead {
        method: "POST".to_string(),
        target: "/f".to_string(),
        path: "/f".to_string(),
        version: Version::Http11,
        headers: pairs(headers),
    }
}

#[test]
fn content_length_reads_the_first_length_header() {
    assert_eq!(content_length(&head_with(&[])), Ok(None));
    assert_eq!(content_length(&head_with(&[("Host", "h")])), Ok(None));
    assert_eq!(content_length(&head_with(&[("Content-Length", "12")])), Ok(Some(12)));
    assert_eq!(content_length(&head_with(&[("CONTENT-length", "+7")])), Ok(Some(7)));
    assert_eq!(
        content_length(&head_with(&[("content-length", "3"), ("content-length", "x")])),
        Ok(Some(3))
    );
}

#[test]
fn content_length_errors() {
    assert_eq!(
        content_length(&head_with(&[("content-length", "12a")])),
        Err(RequestError::InvalidContentLength)
    );
    assert_eq!(
        content_length(&head_with(&[("content-length", "")])),
        Err(RequestError::InvalidContentLength)
    );
    assert_eq!(
        content_length(&head_with(&[("content-length", "é")])),
        Err(RequestError::InvalidHeaderEncoding)
    );
}

#[test]
fn parse_usize_matches_std() {
    for s in ["0", "42", "+42", "", "+", "-1", "1 ", "18446744073709551615", "18446744073709551616", "007", "99999999999999999999"] {
        assert_eq!(parse_usize(s), s.parse::<usize>().ok(), "{:?}", s);
    }
}

#[test]
fn head_written_is_head_read() {
    let method = "PUT";
    let target = "/dir/x.txt";
    let headers = [("Host", "example"), ("X-Empty", ""), ("Accept", "a, b: c")];
    let mut text = format!("{} {} {}\r\n", method, target, "HTTP/1.1");
    for (n, v) in headers.iter() {
        text.push_str(&format!("{}: {}\r\n", n, v));
    }
    let head = from_slice(text.as_bytes()).unwrap();
    assert_eq!(head.method, method);
    assert_eq!(head.target, target);
    assert_eq!(head.path, target);
    assert_eq!(head.version, Version::Http11);
    assert_eq!(
        head.headers,
        pairs(&[("host", "example"), ("x-empty", ""), ("accept", "a, b: c")])
    );
}

#[test]
fn split_to_byte_with_a_high_byte_the_text_lacks() {
    let mut buf: &str = "plain ascii";
    assert_eq!(split_to_byte(&mut buf, 0xE9), Err(RequestError::InvalidFormat));
    assert_eq!(buf, "plain ascii");
    let mut buf: &str = "caf\u{e9}";
    assert_eq!(split_to_byte(&mut buf, 0xFF), Err(RequestError::InvalidFormat));
    assert_eq!(buf, "caf\u{e9}");
}

#[test]
fn from_slice_refuses_a_bad_header_name() {
    let r = from_slice(b"GET /a HTTP/1.1\r\nBad Name: x\r\n");
    assert_eq!(r.err(), Some(RequestError::HttpError(HttpErrorKind::InvalidHeaderName)));
    let r = from_slice(b"GET /a HTTP/1.1\r\n: x\r\n");
    assert_eq!(r.err(), Some(RequestError::HttpError(HttpErrorKind::InvalidHeaderName)));
    let r = from_slice("GET /a HTTP/1.1\r\nN\u{e4}me: x\r\n".as_bytes());
    assert_eq!(r.err(), Some(RequestError::HttpError(HttpErrorKind::InvalidHeaderName)));
}

#[test]
fn from_slice_refuses_a_bad_header_value() {
    let r = from_slice(b"GET /a HTTP/1.1\r\nName: a\x7fb\r\n");
    assert_eq!(r.err(), Some(RequestError::HttpError(HttpErrorKind::InvalidHeaderValue)));
    let r = from_slice(b"GET /a HTTP/1.1\r\nName: a\x01\r\n");
    assert_eq!(r.err(), Some(RequestError::HttpError(HttpErrorKind::InvalidHeaderValue)));
}

#[test]
fn from_slice_accepts_what_the_http_crate_takes_in_headers() {
    let h = from_slice("GET /a HTTP/1.1\r\nX-Odd\"#$%&'*+-.^_`|~9: tab\there caf\u{e9}\r\n".as_bytes())
        .unwrap();
    assert_eq!(h.headers, pairs(&[("x-odd\"#$%&'*+-.^_`|~9", "tab\there caf\u{e9}")]));
}

#[test]
fn header_format_is_checked_before_header_contents() {
    let r = from_slice(b"GET /a HTTP/1.1\r\nBad Name: x\r\nno colon\r\n");
    assert_eq!(r.err(), Some(RequestError::InvalidFormat));
}

#[test]
fn the_first_refused_header_decides() {
    assert_eq!(
        normalize_headers(&pairs(&[("A", "ok"), ("B", "\x00"), ("C D", "x")])),
        Err(HttpErrorKind::InvalidHeaderValue)
    );
    assert_eq!(normalize_headers(&pairs(&[("A B", "\x00")])), Err(HttpErrorKind::InvalidHeaderName));
    assert_eq!(
        normalize_headers(&pairs(&[("A", ""), ("b", "x y"), ("Content-TYPE", "Text/Plain")])),
        Ok(pairs(&[("a", ""), ("b", "x y"), ("content-type", "Text/Plain")]))
    );
    let long = "a".repeat(65535);
    assert!(normalize_headers(&pairs(&[(long.as_str(), "x")])).is_ok());
    let too_long = "a".repeat(65536);
    assert_eq!(
        normalize_headers(&pairs(&[(too_long.as_str(), "x")])),
        Err(HttpErrorKind::InvalidHeaderName)
    );
}

#[test]
fn split_body_takes_what_is_buffered() {
    let buf = b"HEAD\r\n\r\nhello world";
    assert_eq!(split_body(buf, 8, 5), (b"hello".to_vec(), 0));
    assert_eq!(split_body(buf, 8, 11), (b"hello world".to_vec(), 0));
    assert_eq!(split_body(buf, 8, 15), (b"hello world".to_vec(), 4));
    assert_eq!(split_body(buf, 19, 3), (vec![], 3));
    assert_eq!(split_body(buf, 8, 0), (vec![], 0));
}
