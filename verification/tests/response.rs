use marquito::request::Version;
use marquito::response::{
    encode_response, IntoResponse, Response, ResponseError, StatusCode, BAD_REQUEST,
    INTERNAL_SERVER_ERROR, NOT_FOUND, OK,
};

fn hs(r: &Response) -> Vec<(&str, &str)> {
    r.headers.iter().map(|(n, v)| (n.as_str(), v.as_str())).collect()
}

#[test]
fn status_becomes_an_empty_response() {
    let r = StatusCode(NOT_FOUND).into_response();
    assert_eq!(r.status, StatusCode(404));
    assert_eq!(r.version, Version::Http11);
    assert_eq!(hs(&r), vec![("content-length", "0")]);
    assert_eq!(r.body, None);
}

#[test]
fn bytes_become_an_octet_stream() {
    let r = vec![1u8, 2, 3, 4, 5].into_response();
    assert_eq!(r.status, StatusCode(OK));
    assert_eq!(
        hs(&r),
        vec![("content-type", "application/octet-stream"), ("content-length", "5")]
    );
    assert_eq!(r.body, Some(vec![1, 2, 3, 4, 5]));
}

#[test]
fn text_becomes_plain_text_with_its_byte_length() {
    let r = "héllo".into_response();
    assert_eq!(r.status, StatusCode(200));
    assert_eq!(
        hs(&r),
        vec![("content-type", "text/plain; charset=utf-8"), ("content-length", "6")]
    );
    assert_eq!(r.body, Some("héllo".as_bytes().to_vec()));
}

#[test]
fn a_status_pair_replaces_the_status_only() {
    let r = (StatusCode(BAD_REQUEST), "Empty message").into_response();
    assert_eq!(r.status, StatusCode(400));
    assert_eq!(
        hs(&r),
        vec![("content-type", "text/plain; charset=utf-8"), ("content-length", "13")]
    );
    assert_eq!(r.body, Some(b"Empty message".to_vec()));
    let r = (StatusCode(INTERNAL_SERVER_ERROR), StatusCode(OK)).into_response();
    assert_eq!(r.status, StatusCode(500));
    assert_eq!(hs(&r), vec![("content-length", "0")]);
}

#[test]
fn a_large_body_length_is_written_in_decimal() {
    let r = vec![0u8; 1234567].into_response();
    assert_eq!(hs(&r)[1], ("content-length", "1234567"));
}

#[test]
fn encode_writes_status_line_headers_and_body() {
    let r = (StatusCode(OK), b"hi".to_vec()).into_response();
    let bytes = encode_response(&r).unwrap();
    assert_eq!(
        bytes,
        b"HTTP/1.1 200\r\ncontent-type: application/octet-stream\r\ncontent-length: 2\r\n\r\nhi"
            .to_vec()
    );
}

#[test]
fn encode_without_body() {
    let r = StatusCode(NOT_FOUND).into_response();
    assert_eq!(encode_response(&r).unwrap(), b"HTTP/1.1 404\r\ncontent-length: 0\r\n\r\n".to_vec());
}

#[test]
fn encode_writes_other_versions_and_statuses() {
    let r = Response {
        version: Version::Http10,
        status: StatusCode(7),
        headers: vec![("x".to_string(), "a\tb".to_string())],
        body: Some(vec![]),
    };
    assert_eq!(encode_response(&r).unwrap(), b"HTTP/1.0 7\r\nx: a\tb\r\n\r\n".to_vec());
}

#[test]
fn encode_refuses_a_value_that_is_not_visible_ascii() {
    for bad in ["caf\u{e9}", "line\nbreak", "\u{7f}"] {
        let r = Response {
            version: Version::Http11,
            status: StatusCode(OK),
            headers: vec![("ok".to_string(), "fine".to_string()), ("x".to_string(), bad.to_string())],
            body: None,
        };
        assert_eq!(encode_response(&r), Err(ResponseError::InvalidHeaderEncoding));
    }
}

#[test]
fn built_responses_announce_their_length_and_encode() {
    for r in [
        StatusCode(BAD_REQUEST).into_response(),
        b"abc".to_vec().into_response(),
        "text".into_response(),
        (StatusCode(NOT_FOUND), "gone").into_response(),
        (StatusCode(OK), vec![9u8; 300]).into_response(),
    ] {
        let len = r.body.as_ref().map(|b| b.len()).unwrap_or(0);
        assert!(hs(&r).contains(&("content-length", len.to_string().as_str())));
        let bytes = encode_response(&r).unwrap();
        assert!(bytes.ends_with(r.body.as_deref().unwrap_or(&[])));
    }
}
