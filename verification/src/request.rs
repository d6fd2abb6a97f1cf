//! Parsing of an HTTP request head: the request line and the header lines.

use vstd::prelude::*;
use vstd::string::StringSliceAdditionalSpecFns;
use vstd::utf8::{decode_utf8, encode_utf8, encode_utf8_decode_utf8, valid_utf8};

use crate::response::{all_visible, readable_value};
use crate::text::{
    chars_of, crlf_at, find_char, lemma_ascii_char_encoded, find_crlf, is_first_crlf, is_first_index, is_white_space,
    lemma_first_crlf_unique, lemma_split_on_char_at, lemma_split_on_crlf_at, split_on_char,
    split_on_crlf, trim_start, trim_start_str,
};

verus! {

/// The line separator of HTTP/1.x.
pub const LINE_DELIMITER: [u8; 2] = [13u8, 10u8];

/// What separates a request head from its body.
pub const REQUEST_DELIMITER: [u8; 4] = [13u8, 10u8, 13u8, 10u8];

/// The HTTP versions a request line may name.
#[derive(Debug, Clone, Copy, PartialEq, Eq, Structural)]
pub enum Version {
    Http09,
    Http10,
    Http11,
    Http2,
    Http3,
}

/// How a version is written in a request line and in a status line.
pub open spec fn version_text(v: Version) -> Seq<char> {
    match v {
        Version::Http09 => "HTTP/0.9"@,
        Version::Http10 => "HTTP/1.0"@,
        Version::Http11 => "HTTP/1.1"@,
        Version::Http2 => "HTTP/2.0"@,
        Version::Http3 => "HTTP/3.0"@,
    }
}

/// The version that `text` names, if it names one.
pub open spec fn parse_version_spec(text: Seq<char>) -> Option<Version> {
    if text == "HTTP/0.9"@ {
        Some(Version::Http09)
    } else if text == "HTTP/1.0"@ {
        Some(Version::Http10)
    } else if text == "HTTP/1.1"@ {
        Some(Version::Http11)
    } else if text == "HTTP/2.0"@ {
        Some(Version::Http2)
    } else if text == "HTTP/3.0"@ {
        Some(Version::Http3)
    } else {
        None
    }
}

/// What the http crate refused in a request line.
#[derive(Debug, Clone, Copy, PartialEq, Eq, Structural)]
pub enum HttpErrorKind {
    InvalidMethod,
    InvalidUri,
    InvalidHeaderName,
    InvalidHeaderValue,
}

/// Why a request could not be read.
#[derive(Debug, Clone, Copy, PartialEq, Eq, Structural)]
pub enum RequestError {
    InvalidEncoding,
    InvalidFormat,
    HttpError(HttpErrorKind),
    UnsupportedVersion,
    InvalidHeaderEncoding,
    InvalidContentLength,
}

/// Whether two texts are the same.
pub fn text_eq(a: &str, b: &str) -> (r: bool)
    ensures
        r == (a@ == b@),
{
    let va = chars_of(a);
    let vb = chars_of(b);
    if va.len() != vb.len() {
        return false;
    }
    let mut i: usize = 0;
    while i < va.len()
        invariant
            va@ == a@,
            vb@ == b@,
            va.len() == vb.len(),
            i <= va.len(),
            forall|j: int| 0 <= j < i ==> va@[j] == vb@[j],
        decreases va.len() - i,
    {
        if va[i] != vb[i] {
            assert(a@[i as int] != b@[i as int]);
            return false;
        }
        i = i + 1;
    }
    assert(a@ =~= b@);
    true
}

/// The version that `text` names, if it names one.
pub fn parse_version(text: &str) -> (r: Option<Version>)
    ensures
        r == parse_version_spec(text@),
{
    if text_eq(text, "HTTP/0.9") {
        Some(Version::Http09)
    } else if text_eq(text, "HTTP/1.0") {
        Some(Version::Http10)
    } else if text_eq(text, "HTTP/1.1") {
        Some(Version::Http11)
    } else if text_eq(text, "HTTP/2.0") {
        Some(Version::Http2)
    } else if text_eq(text, "HTTP/3.0") {
        Some(Version::Http3)
    } else {
        None
    }
}

/// Takes the text before the first `byte` off the front of `buf`, and the
/// `byte` itself; fails, leaving `buf` as it was, when `buf` holds no `byte`.
/// A byte of 128 or more that `buf` holds sits inside a multi-byte character,
/// where the text cannot be cut: such a call is not allowed.
pub fn split_to_byte<'a>(buf: &mut &'a str, byte: u8) -> (r: Result<&'a str, RequestError>)
    requires
        byte < 128 || !encode_utf8(old(buf)@).contains(byte),
    ensures
        byte >= 128 ==> r == Err::<&'a str, RequestError>(RequestError::InvalidFormat)
            && final(buf)@ == old(buf)@,
        !encode_utf8(old(buf)@).contains(byte) ==> r == Err::<&'a str, RequestError>(
            RequestError::InvalidFormat,
        ) && final(buf)@ == old(buf)@,
        byte < 128 ==> match split_on_char(old(buf)@, byte as char) {
            Some((part, rest)) => r matches Ok(p) && p@ == part && final(buf)@ == rest,
            None => r == Err::<&'a str, RequestError>(RequestError::InvalidFormat) && final(buf)@
                == old(buf)@,
        },
{
    if byte >= 128 {
        return Err(RequestError::InvalidFormat);
    }
    let text: &'a str = *buf;
    let v = chars_of(text);
    let c = byte as char;
    match find_char(&v, c) {
        Some(i) => {
            proof {
                lemma_split_on_char_at(text@, c, i as int);
                lemma_ascii_char_encoded(text@, byte, i as int);
            }
            assert(i < v.len());
            let part = text.substring_char(0, i);
            *buf = text.substring_char(i + 1, v.len());
            Ok(part)
        },
        None => {
            assert(!exists|i: int| is_first_index(text@, c, i));
            Err(RequestError::InvalidFormat)
        },
    }
}

/// Takes the text before the first line break off the front of `buf`, and
/// the line break itself; fails, leaving `buf` as it was, when `buf` holds no
/// line break.
pub fn split_to_delimiter<'a>(buf: &mut &'a str) -> (r: Result<&'a str, RequestError>)
    ensures
        match split_on_crlf(old(buf)@) {
            Some((part, rest)) => r matches Ok(p) && p@ == part && final(buf)@ == rest,
            None => r == Err::<&'a str, RequestError>(RequestError::InvalidFormat) && final(buf)@
                == old(buf)@,
        },
{
    let text: &'a str = *buf;
    let v = chars_of(text);
    match find_crlf(&v) {
        Some(i) => {
            proof {
                lemma_split_on_crlf_at(text@, i as int);
            }
            assert(i + 1 < v.len());
            let part = text.substring_char(0, i);
            *buf = text.substring_char(i + 2, v.len());
            Ok(part)
        },
        None => {
            assert(!exists|i: int| is_first_crlf(text@, i));
            Err(RequestError::InvalidFormat)
        },
    }
}


/// A header list with each name and value taken by its characters.
pub open spec fn header_texts(hs: Seq<(String, String)>) -> Seq<(Seq<char>, Seq<char>)> {
    hs.map_values(|h: (String, String)| (h.0@, h.1@))
}

/// `done` followed by what `rest` gives, or the error of `rest`.
pub open spec fn prepend_headers(
    done: Seq<(Seq<char>, Seq<char>)>,
    rest: Result<Seq<(Seq<char>, Seq<char>)>, RequestError>,
) -> Result<Seq<(Seq<char>, Seq<char>)>, RequestError> {
    match rest {
        Ok(hs) => Ok(done + hs),
        Err(e) => Err(e),
    }
}

/// The header lines of `s`: each line up to a line break is a name, a
/// colon and a value, and the value loses its leading white space; text
/// after the last line break is not read.
pub open spec fn headers_spec(s: Seq<char>) -> Result<Seq<(Seq<char>, Seq<char>)>, RequestError>
    decreases s.len(),
{
    if exists|i: int| is_first_crlf(s, i) {
        let i = choose|i: int| is_first_crlf(s, i);
        match split_on_char(s.subrange(0, i), ':') {
            None => Err(RequestError::InvalidFormat),
            Some((name, value)) => prepend_headers(
                seq![(name, trim_start(value))],
                headers_spec(s.subrange(i + 2, s.len() as int)),
            ),
        }
    } else {
        Ok(seq![])
    }
}

/// The header lines of `rest`, as `headers_spec` reads them.
pub fn parse_headers(rest: &str) -> (r: Result<Vec<(String, String)>, RequestError>)
    ensures
        match r {
            Ok(hs) => headers_spec(rest@) == Ok::<_, RequestError>(header_texts(hs@)),
            Err(e) => headers_spec(rest@) == Err::<Seq<(Seq<char>, Seq<char>)>, _>(e),
        },
{
    let mut headers: Vec<(String, String)> = Vec::new();
    let mut cur: &str = rest;
    loop
        invariant
            prepend_headers(header_texts(headers@), headers_spec(cur@)) == headers_spec(rest@),
        decreases cur@.len(),
    {
        let ghost before = cur@;
        let mut after: &str = cur;
        match split_to_delimiter(&mut after) {
            Err(_) => {
                assert(header_texts(headers@) + seq![] =~= header_texts(headers@));
                return Ok(headers);
            },
            Ok(line) => {
                let ghost i = choose|i: int| is_first_crlf(before, i);
                let mut value: &str = line;
                match split_to_byte(&mut value, 58u8) {
                    Err(e) => {
                        return Err(e);
                    },
                    Ok(name) => {
                        let trimmed = trim_start_str(value);
                        let ghost old_headers = headers@;
                        headers.push((name.to_owned(), trimmed.to_owned()));
                        proof {
                            assert(header_texts(headers@) =~= header_texts(old_headers) + seq![
                                (name@, trim_start(value@)),
                            ]);
                            assert(after@ =~= before.subrange(i + 2, before.len() as int));
                            match headers_spec(after@) {
                                Ok(hs) => {
                                    assert(header_texts(old_headers) + (seq![
                                        (name@, trim_start(value@)),
                                    ] + hs) =~= header_texts(headers@) + hs);
                                },
                                Err(_) => {},
                            }
                        }
                        cur = after;
                    },
                }
            },
        }
    }
}

/// A character the http crate takes in a header name (its `HEADER_CHARS`
/// table): `! " # $ % & ' * + - . ^ _ ` | ~`, digits and letters.
pub open spec fn is_header_name_char(c: char) -> bool {
    let u = c as u32;
    ||| 0x21 <= u <= 0x27
    ||| u == 0x2A
    ||| u == 0x2B
    ||| u == 0x2D
    ||| u == 0x2E
    ||| 0x30 <= u <= 0x39
    ||| 0x41 <= u <= 0x5A
    ||| 0x5E <= u <= 0x60
    ||| 0x61 <= u <= 0x7A
    ||| u == 0x7C
    ||| u == 0x7E
}

/// A header name the http crate accepts: one to 65535 name characters.
pub open spec fn is_header_name(s: Seq<char>) -> bool {
    &&& 0 < s.len() <= 65535
    &&& forall|i: int| 0 <= i < s.len() ==> is_header_name_char(#[trigger] s[i])
}

/// A character the http crate takes in a header value: a tab, or anything
/// from the space on but the delete character (every byte of a character
/// past ASCII is 128 or more, which it takes).
pub open spec fn is_header_value_char(c: char) -> bool {
    let u = c as u32;
    (u >= 0x20 && u != 0x7F) || u == 0x09
}

/// A header value the http crate accepts.
pub open spec fn is_header_value(s: Seq<char>) -> bool {
    forall|i: int| 0 <= i < s.len() ==> is_header_value_char(#[trigger] s[i])
}

/// A header line the http crate takes, name and value.
pub open spec fn header_accepted(h: (Seq<char>, Seq<char>)) -> bool {
    is_header_name(h.0) && is_header_value(h.1)
}

/// What the http crate refuses first in a list of header lines, in order:
/// of each line the name first, then the value; `None` when it takes all.
pub open spec fn header_check(hs: Seq<(Seq<char>, Seq<char>)>) -> Option<HttpErrorKind>
    decreases hs.len(),
{
    if hs.len() == 0 {
        None
    } else if !is_header_name(hs[0].0) {
        Some(HttpErrorKind::InvalidHeaderName)
    } else if !is_header_value(hs[0].1) {
        Some(HttpErrorKind::InvalidHeaderValue)
    } else {
        header_check(hs.drop_first())
    }
}

/// `s` with its ASCII capitals made small.
pub open spec fn lower_text(s: Seq<char>) -> Seq<char> {
    s.map_values(|c: char| ascii_lower(c))
}

/// Header lines as the http crate keeps them: each name in small letters,
/// each value as it came.
pub open spec fn normalized_headers(hs: Seq<(Seq<char>, Seq<char>)>) -> Seq<(Seq<char>, Seq<char>)> {
    hs.map_values(|h: (Seq<char>, Seq<char>)| (lower_text(h.0), h.1))
}

/// `http::header::HeaderName::try_from(&str)` and `HeaderName::as_str`: by
/// its source (`from_bytes`, `parse_hdr` and the `HEADER_CHARS` table) it
/// accepts exactly the names of one to 65535 bytes whose bytes are all in
/// the table, the characters of `is_header_name_char`, and the name it keeps
/// is the table's image of each byte: capitals made small, the rest as is.
#[verifier::external_body]
fn header_name_of(name: &str) -> (r: Option<String>)
    ensures
        match r {
            Some(n) => is_header_name(name@) && n@ == lower_text(name@),
            None => !is_header_name(name@),
        },
{
    match http::header::HeaderName::try_from(name) {
        Ok(n) => Some(n.as_str().to_string()),
        Err(_) => None,
    }
}

/// `http::header::HeaderValue::try_from(&str)`: by its source
/// (`try_from_generic` and `is_valid`) it accepts exactly the texts whose
/// bytes are all a tab or at least 32 and not 127.
#[verifier::external_body]
fn header_value_accepted(value: &str) -> (r: bool)
    ensures
        r == is_header_value(value@),
{
    http::header::HeaderValue::try_from(value).is_ok()
}

/// Checks header lines as the http crate's request builder does, and gives
/// them as it keeps them: the first refusal, or the lines with their names
/// in small letters.
pub fn normalize_headers(headers: &Vec<(String, String)>) -> (r: Result<
    Vec<(String, String)>,
    HttpErrorKind,
>)
    ensures
        match r {
            Ok(v) => header_check(header_texts(headers@)) is None && header_texts(v@)
                == normalized_headers(header_texts(headers@)),
            Err(k) => header_check(header_texts(headers@)) == Some(k),
        },
{
    let ghost hs = header_texts(headers@);
    let mut out: Vec<(String, String)> = Vec::new();
    let mut i: usize = 0;
    assert(hs.skip(0) =~= hs);
    assert(header_texts(out@) =~= normalized_headers(hs.take(0)));
    while i < headers.len()
        invariant
            hs == header_texts(headers@),
            i <= headers.len(),
            header_check(hs) == header_check(hs.skip(i as int)),
            header_texts(out@) == normalized_headers(hs.take(i as int)),
        decreases headers.len() - i,
    {
        let ghost tail = hs.skip(i as int);
        assert(tail[0] == hs[i as int]);
        assert(tail.drop_first() =~= hs.skip(i + 1));
        let name = match header_name_of(headers[i].0.as_str()) {
            None => {
                return Err(HttpErrorKind::InvalidHeaderName);
            },
            Some(n) => n,
        };
        if !header_value_accepted(headers[i].1.as_str()) {
            return Err(HttpErrorKind::InvalidHeaderValue);
        }
        let ghost before = out@;
        out.push((name, headers[i].1.clone()));
        assert(header_texts(out@) =~= normalized_headers(hs.take(i + 1))) by {
            assert(hs.take(i + 1) =~= hs.take(i as int).push(hs[i as int]));
            assert(header_texts(out@) =~= header_texts(before).push(
                (lower_text(hs[i as int].0), hs[i as int].1),
            ));
        }
        i = i + 1;
    }
    assert(hs.skip(i as int).len() == 0);
    assert(hs.take(i as int) =~= hs);
    Ok(out)
}

/// The request head: what the request line names and the header lines.
pub struct RequestHead {
    pub method: String,
    pub target: String,
    pub path: String,
    pub version: Version,
    pub headers: Vec<(String, String)>,
}

/// A request head taken by its characters.
pub struct SpecHead {
    pub method: Seq<char>,
    pub target: Seq<char>,
    pub path: Seq<char>,
    pub version: Version,
    pub headers: Seq<(Seq<char>, Seq<char>)>,
}

impl View for RequestHead {
    type V = SpecHead;

    open spec fn view(&self) -> SpecHead {
        SpecHead {
            method: self.method@,
            target: self.target@,
            path: self.path@,
            version: self.version,
            headers: header_texts(self.headers@),
        }
    }
}

/// A method name the http crate accepts: not empty, and made of the
/// characters `! * + - . ^ _ ` | ~`, digits and letters.
pub open spec fn is_method_char(c: char) -> bool {
    let u = c as u32;
    ||| u == 0x21
    ||| u == 0x2A
    ||| u == 0x2B
    ||| u == 0x2D
    ||| u == 0x2E
    ||| 0x30 <= u <= 0x39
    ||| 0x41 <= u <= 0x5A
    ||| 0x5E <= u <= 0x60
    ||| 0x61 <= u <= 0x7A
    ||| u == 0x7C
    ||| u == 0x7E
}

/// A method name the http crate accepts.
pub open spec fn is_method_token(s: Seq<char>) -> bool {
    s.len() > 0 && forall|i: int| 0 <= i < s.len() ==> is_method_char(s[i])
}

/// `http::Method::try_from(&str)`: by its source (`Method::from_bytes` and
/// the `METHOD_CHARS` table) it accepts exactly the non-empty names whose
/// bytes are all in the table, the characters of `is_method_char`.
#[verifier::external_body]
fn method_accepted(name: &str) -> (r: bool)
    ensures
        r == is_method_token(name@),
{
    match http::Method::try_from(name) {
        Ok(_) => true,
        Err(_) => false,
    }
}

/// The path that the http crate reads from a request target, or `None`
/// when it refuses the target.
pub uninterp spec fn uri_path_of(target: Seq<char>) -> Option<Seq<char>>;

/// `http::Uri::try_from(&str)` followed by `Uri::path`: the path of the
/// target, or `None` where the target is refused. Nothing is claimed of the
/// URI grammar itself: the result is only named by `uri_path_of`.
#[verifier::external_body]
fn uri_path(target: &str) -> (r: Option<String>)
    ensures
        match r {
            Some(p) => uri_path_of(target@) == Some(p@),
            None => uri_path_of(target@) is None,
        },
{
    match http::Uri::try_from(target) {
        Ok(uri) => Some(uri.path().to_string()),
        Err(_) => None,
    }
}

/// `std::str::from_utf8`: by its documentation the text that the bytes
/// encode, or an error when they are not UTF-8.
#[verifier::external_body]
pub(crate) fn str_from_utf8(bytes: &[u8]) -> (r: Option<&str>)
    ensures
        r is Some <==> valid_utf8(bytes@),
        r matches Some(s) ==> s.spec_bytes() == bytes@,
{
    match std::str::from_utf8(bytes) {
        Ok(s) => Some(s),
        Err(_) => None,
    }
}

/// The rest of a request head once the method is accepted and the target
/// is read: the path the target gave, the version and the header lines.
pub open spec fn finish_head_spec(
    method: Seq<char>,
    target: Seq<char>,
    path: Option<Seq<char>>,
    version: Seq<char>,
    rest: Seq<char>,
) -> Result<SpecHead, RequestError> {
    match path {
        None => Err(RequestError::HttpError(HttpErrorKind::InvalidUri)),
        Some(p) => match parse_version_spec(version) {
            None => Err(RequestError::UnsupportedVersion),
            Some(v) => match headers_spec(rest) {
                Err(e) => Err(e),
                Ok(hs) => match header_check(hs) {
                    Some(k) => Err(RequestError::HttpError(k)),
                    None => Ok(
                        SpecHead {
                            method,
                            target,
                            path: p,
                            version: v,
                            headers: normalized_headers(hs),
                        },
                    ),
                },
            },
        },
    }
}

/// An optional text taken by its characters.
pub open spec fn opt_text(s: Option<String>) -> Option<Seq<char>> {
    match s {
        Some(t) => Some(t@),
        None => None,
    }
}

/// A request head taken by its characters, or the error.
pub open spec fn head_result(r: Result<RequestHead, RequestError>) -> Result<SpecHead, RequestError> {
    match r {
        Ok(h) => Ok(h@),
        Err(e) => Err(e),
    }
}

/// Completes a request head from the parts of its request line, the path
/// that the target gave (`None` where the target was refused), and the text
/// after the request line.
pub fn finish_head(method: &str, target: &str, path: Option<String>, version: &str, rest: &str) -> (r:
    Result<RequestHead, RequestError>)
    ensures
        head_result(r) == finish_head_spec(method@, target@, opt_text(path), version@, rest@),
{
    match path {
        None => Err(RequestError::HttpError(HttpErrorKind::InvalidUri)),
        Some(p) => match parse_version(version) {
            None => Err(RequestError::UnsupportedVersion),
            Some(v) => match parse_headers(rest) {
                Err(e) => Err(e),
                Ok(lines) => match normalize_headers(&lines) {
                    Err(k) => Err(RequestError::HttpError(k)),
                    Ok(headers) => Ok(
                        RequestHead {
                            method: method.to_owned(),
                            target: target.to_owned(),
                            path: p,
                            version: v,
                            headers,
                        },
                    ),
                },
            },
        },
    }
}

/// The request head that `buf` holds, read as the parsing rules say: the
/// bytes are UTF-8; a request line `METHOD TARGET VERSION` ends at the first
/// line break; the method is one the http crate accepts, the target one it
/// reads a path from, the version one of those `Version` lists; header lines
/// follow.
pub open spec fn from_slice_spec(buf: Seq<u8>) -> Result<SpecHead, RequestError> {
    if !valid_utf8(buf) {
        Err(RequestError::InvalidEncoding)
    } else {
        match split_on_crlf(decode_utf8(buf)) {
            None => Err(RequestError::InvalidFormat),
            Some((line, rest)) => match split_on_char(line, ' ') {
                None => Err(RequestError::InvalidFormat),
                Some((method, after_method)) => match split_on_char(after_method, ' ') {
                    None => Err(RequestError::InvalidFormat),
                    Some((target, version)) => if !is_method_token(method) {
                        Err(RequestError::HttpError(HttpErrorKind::InvalidMethod))
                    } else {
                        finish_head_spec(method, target, uri_path_of(target), version, rest)
                    },
                },
            },
        }
    }
}

/// Reads a request head from `buf`.
pub fn from_slice(buf: &[u8]) -> (r: Result<RequestHead, RequestError>)
    ensures
        head_result(r) == from_slice_spec(buf@),
{
    let text = match str_from_utf8(buf) {
        None => {
            return Err(RequestError::InvalidEncoding);
        },
        Some(s) => s,
    };
    proof {
        encode_utf8_decode_utf8(text@);
    }
    let mut rest: &str = text;
    let mut line = match split_to_delimiter(&mut rest) {
        Err(e) => {
            return Err(e);
        },
        Ok(l) => l,
    };
    let method = match split_to_byte(&mut line, 32u8) {
        Err(e) => {
            return Err(e);
        },
        Ok(m) => m,
    };
    let target = match split_to_byte(&mut line, 32u8) {
        Err(e) => {
            return Err(e);
        },
        Ok(t) => t,
    };
    let version = line;
    if !method_accepted(method) {
        return Err(RequestError::HttpError(HttpErrorKind::InvalidMethod));
    }
    let path = uri_path(target);
    finish_head(method, target, path, version, rest)
}


/// The bytes at `i` are the end of a request head: a line break and an
/// empty line.
pub open spec fn head_end_at(buf: Seq<u8>, i: int) -> bool {
    &&& 0 <= i
    &&& i + 4 <= buf.len()
    &&& buf[i] == 13
    &&& buf[i + 1] == 10
    &&& buf[i + 2] == 13
    &&& buf[i + 3] == 10
}

/// `i` is where the first request-head end of `buf` starts.
pub open spec fn is_first_head_end(buf: Seq<u8>, i: int) -> bool {
    &&& head_end_at(buf, i)
    &&& forall|j: int| 0 <= j < i ==> !head_end_at(buf, j)
}

/// Where the head of a request in `buf` ends: `Some((head, body))` where
/// `buf[..head]` is the head with the line break of its last line, and the
/// body starts at `body`, after the empty line; `None` while no empty line
/// has arrived.
pub fn request_head_bounds(buf: &[u8]) -> (r: Option<(usize, usize)>)
    ensures
        match r {
            Some((head, body)) => exists|i: int|
                is_first_head_end(buf@, i) && head == i + 2 && body == i + 4,
            None => forall|i: int| !head_end_at(buf@, i),
        },
{
    let mut i: usize = 0;
    while i < buf.len()
        invariant
            forall|j: int| 0 <= j < i ==> !head_end_at(buf@, j),
        decreases buf.len() - i,
    {
        if buf.len() - i >= 4 && buf[i] == REQUEST_DELIMITER[0] && buf[i + 1]
            == REQUEST_DELIMITER[1] && buf[i + 2] == REQUEST_DELIMITER[2] && buf[i + 3]
            == REQUEST_DELIMITER[3] {
            assert(is_first_head_end(buf@, i as int));
            return Some((i + 2, i + 4));
        }
        i = i + 1;
    }
    None
}

/// The value of a decimal digit character.
pub open spec fn digit_value(c: char) -> nat {
    (c as u32 - 48) as nat
}

/// A decimal digit character.
pub open spec fn is_digit(c: char) -> bool {
    48 <= c as u32 && c as u32 <= 57
}

/// The number that the digits `s` write.
pub open spec fn digits_value(s: Seq<char>) -> nat
    decreases s.len(),
{
    if s.len() == 0 {
        0
    } else {
        digits_value(s.drop_last()) * 10 + digit_value(s.last())
    }
}

/// The text of a number less its `+` sign, if it has one.
pub open spec fn unsigned_digits(s: Seq<char>) -> Seq<char> {
    if s.len() > 0 && s[0] == '+' {
        s.skip(1)
    } else {
        s
    }
}

/// Every character of `s` is a decimal digit.
pub open spec fn all_digits(s: Seq<char>) -> bool {
    forall|i: int| 0 <= i < s.len() ==> is_digit(#[trigger] s[i])
}

/// A number fitting `usize` written as `usize::from_str` reads it: an
/// optional `+`, then one or more decimal digits.
pub open spec fn parse_usize_spec(s: Seq<char>) -> Option<nat> {
    let digits = unsigned_digits(s);
    if digits.len() == 0 || !all_digits(digits) {
        None
    } else if digits_value(digits) > usize::MAX {
        None
    } else {
        Some(digits_value(digits))
    }
}

/// A longer prefix of digits has at least the value of a shorter one.
proof fn lemma_digits_value_grows(s: Seq<char>, k: int)
    requires
        0 <= k <= s.len(),
    ensures
        digits_value(s.take(k)) <= digits_value(s),
    decreases s.len() - k,
{
    if k < s.len() {
        lemma_digits_value_grows(s, k + 1);
        assert(s.take(k + 1).drop_last() =~= s.take(k));
    } else {
        assert(s.take(k) =~= s);
    }
}

/// Reads a number as `usize::from_str` does.
pub fn parse_usize(s: &str) -> (r: Option<usize>)
    ensures
        match r {
            Some(n) => parse_usize_spec(s@) == Some(n as nat),
            None => parse_usize_spec(s@) is None,
        },
{
    let v = chars_of(s);
    let mut start: usize = 0;
    if v.len() > 0 && v[0] == '+' {
        start = 1;
    }
    let ghost digits = unsigned_digits(s@);
    assert(digits =~= s@.subrange(start as int, s@.len() as int));
    if start >= v.len() {
        return None;
    }
    let mut k: usize = start;
    let mut value: usize = 0;
    while k < v.len()
        invariant
            v@ == s@,
            digits == unsigned_digits(s@),
            start <= k <= v.len(),
            digits =~= s@.subrange(start as int, s@.len() as int),
            forall|j: int| 0 <= j < k - start ==> is_digit(digits[j]),
            value as nat == digits_value(digits.take(k - start)),
        decreases v.len() - k,
    {
        let c = v[k];
        let u = c as u32;
        assert(digits[k - start] == c);
        if u < 48 || u > 57 {
            assert(!is_digit(digits[k - start]));
            assert(!all_digits(digits));
            return None;
        }
        let d = (u - 48) as usize;
        proof {
            assert(digits.take(k + 1 - start).drop_last() =~= digits.take(k - start));
            assert(digits.take(k + 1 - start).last() == c);
        }
        if value > (usize::MAX - d) / 10 {
            proof {
                assert(digits_value(digits.take(k + 1 - start)) == value * 10 + d);
                assert(value * 10 + d > usize::MAX) by (nonlinear_arith)
                    requires
                        value > (usize::MAX - d) / 10,
                        d <= 9,
                ;
                if all_digits(digits) {
                    lemma_digits_value_grows(digits, k + 1 - start);
                }
            }
            return None;
        }
        value = value * 10 + d;
        k = k + 1;
    }
    assert(digits.take(k - start) =~= digits);
    Some(value)
}

/// Whether a header name is `content-length`, in any letter case.
pub open spec fn names_content_length(name: Seq<char>) -> bool {
    name.len() == 14 && forall|i: int|
        0 <= i < 14 ==> ascii_lower(#[trigger] name[i]) == "content-length"@[i]
}

/// A character with ASCII capitals made small.
pub open spec fn ascii_lower(c: char) -> char {
    if 65 <= c as u32 && c as u32 <= 90 {
        (c as u32 + 32) as char
    } else {
        c
    }
}

/// Whether `name` is `content-length`, in any letter case.
pub fn is_content_length_name(name: &str) -> (r: bool)
    ensures
        r == names_content_length(name@),
{
    let v = chars_of(name);
    let lit = chars_of("content-length");
    proof {
        reveal_strlit("content-length");
    }
    assert(lit@.len() == 14);
    if v.len() != 14 {
        return false;
    }
    let mut i: usize = 0;
    while i < 14
        invariant
            v@ == name@,
            lit@ == "content-length"@,
            lit@.len() == 14,
            v.len() == 14,
            i <= 14,
            forall|j: int| 0 <= j < i ==> ascii_lower(#[trigger] v@[j]) == "content-length"@[j],
        decreases 14 - i,
    {
        let c = v[i];
        let u = c as u32;
        let lower = if 65 <= u && u <= 90 {
            ((u + 32) as u8) as char
        } else {
            c
        };
        if lower != lit[i] {
            assert(ascii_lower(name@[i as int]) != "content-length"@[i as int]);
            return false;
        }
        i = i + 1;
    }
    true
}

/// The position of the first `content-length` header, if any.
pub open spec fn first_length_header(hs: Seq<(Seq<char>, Seq<char>)>, i: int) -> bool {
    &&& 0 <= i < hs.len()
    &&& names_content_length(hs[i].0)
    &&& forall|j: int| 0 <= j < i ==> !names_content_length(#[trigger] hs[j].0)
}

/// The body length a head announces: none without a `content-length`
/// header; otherwise the first such header's value, which must be readable
/// text and a number.
pub open spec fn content_length_spec(hs: Seq<(Seq<char>, Seq<char>)>) -> Result<Option<nat>, RequestError> {
    if exists|i: int| first_length_header(hs, i) {
        let i = choose|i: int| first_length_header(hs, i);
        let value = hs[i].1;
        if !all_visible(value) {
            Err(RequestError::InvalidHeaderEncoding)
        } else {
            match parse_usize_spec(value) {
                None => Err(RequestError::InvalidContentLength),
                Some(n) => Ok(Some(n)),
            }
        }
    } else {
        Ok(None)
    }
}

/// The body length that `head` announces.
pub fn content_length(head: &RequestHead) -> (r: Result<Option<usize>, RequestError>)
    ensures
        match r {
            Ok(Some(n)) => content_length_spec(head@.headers) == Ok::<_, RequestError>(Some(n as nat)),
            Ok(None) => content_length_spec(head@.headers) == Ok::<_, RequestError>(None::<nat>),
            Err(e) => content_length_spec(head@.headers) == Err::<Option<nat>, _>(e),
        },
{
    let ghost hs = head@.headers;
    let mut i: usize = 0;
    while i < head.headers.len()
        invariant
            hs == head@.headers,
            i <= head.headers.len(),
            forall|j: int| 0 <= j < i ==> !names_content_length(#[trigger] hs[j].0),
        decreases head.headers.len() - i,
    {
        let name = head.headers[i].0.as_str();
        assert(hs[i as int] == (name@, head.headers[i as int].1@));
        if is_content_length_name(name) {
            assert(first_length_header(hs, i as int));
            let ghost chosen = choose|k: int| first_length_header(hs, k);
            assert(chosen == i) by {
                if chosen < i {
                    assert(!names_content_length(hs[chosen].0));
                } else if i < chosen {
                    assert(!names_content_length(hs[i as int].0));
                }
            }
            let value = head.headers[i].1.as_str();
            if !readable_value(value) {
                return Err(RequestError::InvalidHeaderEncoding);
            }
            return match parse_usize(value) {
                None => Err(RequestError::InvalidContentLength),
                Some(n) => Ok(Some(n)),
            };
        }
        i = i + 1;
    }
    Ok(None)
}

/// A name is `content-length` in some letter case exactly when its small
/// letters spell `content-length`.
proof fn lemma_length_name(n: Seq<char>)
    ensures
        names_content_length(n) <==> lower_text(n) == "content-length"@,
{
    reveal_strlit("content-length");
    let l = lower_text(n);
    assert(l.len() == n.len());
    assert(forall|i: int| 0 <= i < n.len() ==> #[trigger] l[i] == ascii_lower(n[i]));
    if l == "content-length"@ {
        assert(n.len() == 14);
        assert forall|i: int| 0 <= i < 14 implies ascii_lower(#[trigger] n[i]) == "content-length"@[i] by {
            assert(l[i] == ascii_lower(n[i]));
        }
    }
    if names_content_length(n) {
        assert(l =~= "content-length"@);
    }
}

/// The body length a head announces is the number in its first header
/// named `content-length` (in any letter case), wherever that header stands
/// and whatever headers come before it.
pub proof fn lemma_length_header_found(hs: Seq<(Seq<char>, Seq<char>)>, i: int)
    requires
        0 <= i < hs.len(),
        lower_text(hs[i].0) == "content-length"@,
        forall|j: int| 0 <= j < i ==> lower_text(#[trigger] hs[j].0) != "content-length"@,
        hs[i].1.len() > 0,
        forall|k: int| 0 <= k < hs[i].1.len() ==> '0' <= #[trigger] hs[i].1[k] <= '9',
        digits_value(hs[i].1) <= usize::MAX,
    ensures
        content_length_spec(hs) == Ok::<_, RequestError>(Some(digits_value(hs[i].1))),
{
    lemma_length_name(hs[i].0);
    assert forall|j: int| 0 <= j < i implies !names_content_length(#[trigger] hs[j].0) by {
        lemma_length_name(hs[j].0);
    }
    assert(first_length_header(hs, i));
    let k = choose|k: int| first_length_header(hs, k);
    assert(k == i) by {
        if k < i {
            assert(!names_content_length(hs[k].0));
        } else if i < k {
            assert(!names_content_length(hs[i].0));
        }
    }
    let v = hs[i].1;
    assert(all_visible(v)) by {
        assert forall|m: int| 0 <= m < v.len() implies crate::response::is_visible_ascii(v[m]) by {
            assert('0' <= v[m] <= '9');
        }
    }
    assert('0' <= v[0] <= '9');
    assert(unsigned_digits(v) == v);
    assert(all_digits(v)) by {
        assert forall|m: int| 0 <= m < v.len() implies is_digit(#[trigger] v[m]) by {
            assert('0' <= v[m] <= '9');
        }
    }
}

/// A head without a header named `content-length` (in any letter case)
/// announces no body.
pub proof fn lemma_no_length_header(hs: Seq<(Seq<char>, Seq<char>)>)
    requires
        forall|j: int| 0 <= j < hs.len() ==> lower_text(#[trigger] hs[j].0) != "content-length"@,
    ensures
        content_length_spec(hs) == Ok::<_, RequestError>(None::<nat>),
{
    assert forall|i: int| !first_length_header(hs, i) by {
        if 0 <= i < hs.len() {
            lemma_length_name(hs[i].0);
        }
    }
}

/// The body bytes that `buf` already holds for a body of `len` bytes that
/// starts at `start`: up to `len` bytes from `start` on.
pub open spec fn buffered_body(buf: Seq<u8>, start: int, len: int) -> Seq<u8> {
    if buf.len() - start < len {
        buf.subrange(start, buf.len() as int)
    } else {
        buf.subrange(start, start + len)
    }
}

/// Splits what `buf` holds of a body of `len` bytes starting at `start`:
/// the bytes already there, and how many are still to be read. Together
/// they make up exactly `len` bytes; bytes past the body are left out.
pub fn split_body(buf: &[u8], start: usize, len: usize) -> (r: (Vec<u8>, usize))
    requires
        start <= buf.len(),
    ensures
        r.0@ == buffered_body(buf@, start as int, len as int),
        r.0@.len() + r.1 == len,
{
    let end: usize = if buf.len() - start < len {
        buf.len()
    } else {
        start + len
    };
    let mut part: Vec<u8> = Vec::new();
    let mut i: usize = start;
    while i < end
        invariant
            start <= i <= end <= buf.len(),
            part@ == buf@.subrange(start as int, i as int),
        decreases end - i,
    {
        part.push(buf[i]);
        assert(part@ =~= buf@.subrange(start as int, i + 1));
        i = i + 1;
    }
    let missing = len - part.len();
    (part, missing)
}


/// `s` holds no `c`.
pub open spec fn lacks(s: Seq<char>, c: char) -> bool {
    forall|i: int| 0 <= i < s.len() ==> s[i] != c
}

/// The request line `METHOD TARGET VERSION`.
pub open spec fn request_line_text(method: Seq<char>, target: Seq<char>, version: Version) -> Seq<char> {
    method + " "@ + target + " "@ + version_text(version)
}

/// Header lines `name: value`, each ended by a line break.
pub open spec fn header_block(hs: Seq<(Seq<char>, Seq<char>)>) -> Seq<char>
    decreases hs.len(),
{
    if hs.len() == 0 {
        seq![]
    } else {
        hs[0].0 + ": "@ + hs[0].1 + "\r\n"@ + header_block(hs.drop_first())
    }
}

/// A request head written out: the request line, a line break, and the
/// header lines.
pub open spec fn head_block(
    method: Seq<char>,
    target: Seq<char>,
    version: Version,
    hs: Seq<(Seq<char>, Seq<char>)>,
) -> Seq<char> {
    request_line_text(method, target, version) + "\r\n"@ + header_block(hs)
}

/// A header that its line gives back: the name holds no colon and neither
/// part a carriage return, and the value does not start with white space.
pub open spec fn header_reads_back(h: (Seq<char>, Seq<char>)) -> bool {
    &&& lacks(h.0, ':')
    &&& lacks(h.0, '\r')
    &&& lacks(h.1, '\r')
    &&& (h.1.len() == 0 || !is_white_space(h.1[0]))
}

/// Splitting at a line break that follows a text without carriage returns.
proof fn lemma_split_crlf_concat(a: Seq<char>, b: Seq<char>)
    requires
        lacks(a, '\r'),
    ensures
        split_on_crlf(a + "\r\n"@ + b) == Some((a, b)),
{
    reveal_strlit("\r\n");
    let s = a + "\r\n"@ + b;
    assert(is_first_crlf(s, a.len() as int)) by {
        assert(s[a.len() as int] == '\r');
        assert(s[a.len() + 1int] == '\n');
        assert forall|j: int| 0 <= j < a.len() implies !crlf_at(s, j) by {
            assert(s[j] == a[j]);
        }
    }
    lemma_split_on_crlf_at(s, a.len() as int);
    assert(s.subrange(0, a.len() as int) =~= a);
    assert(s.subrange(a.len() + 2int, s.len() as int) =~= b);
}

/// Splitting at a `c` that follows a text without `c`.
proof fn lemma_split_char_concat(a: Seq<char>, c: char, b: Seq<char>)
    requires
        lacks(a, c),
    ensures
        split_on_char(a + seq![c] + b, c) == Some((a, b)),
{
    let s = a + seq![c] + b;
    assert(is_first_index(s, c, a.len() as int)) by {
        assert(s[a.len() as int] == c);
        assert forall|j: int| 0 <= j < a.len() implies s[j] != c by {
            assert(s[j] == a[j]);
        }
    }
    lemma_split_on_char_at(s, c, a.len() as int);
    assert(s.subrange(0, a.len() as int) =~= a);
    assert(s.subrange(a.len() + 1int, s.len() as int) =~= b);
}

/// No text holds a line break once it is read: the text with no line break
/// has no header lines.
proof fn lemma_headers_empty(s: Seq<char>)
    requires
        lacks(s, '\r'),
    ensures
        headers_spec(s) == Ok::<_, RequestError>(Seq::<(Seq<char>, Seq<char>)>::empty()),
{
    assert(!exists|i: int| is_first_crlf(s, i));
}

/// Header lines that read back are read back.
pub proof fn lemma_headers_read_back(hs: Seq<(Seq<char>, Seq<char>)>)
    requires
        forall|i: int| 0 <= i < hs.len() ==> header_reads_back(#[trigger] hs[i]),
    ensures
        headers_spec(header_block(hs)) == Ok::<_, RequestError>(hs),
    decreases hs.len(),
{
    reveal_strlit("\r\n");
    reveal_strlit(": ");
    reveal_strlit(" ");
    assert(": "@ =~= seq![':', ' ']);
    assert(" "@ =~= seq![' ']);
    if hs.len() == 0 {
        lemma_headers_empty(seq![]);
        assert(hs =~= Seq::<(Seq<char>, Seq<char>)>::empty());
    } else {
        let h = hs[0];
        assert(header_reads_back(hs[0]));
        let line = h.0 + ": "@ + h.1;
        let rest = hs.drop_first();
        assert forall|i: int| 0 <= i < rest.len() implies header_reads_back(#[trigger] rest[i]) by {
            assert(rest[i] == hs[i + 1]);
        }
        lemma_headers_read_back(rest);
        let s = header_block(hs);
        assert(s == line + "\r\n"@ + header_block(rest));
        assert(lacks(line, '\r'));
        lemma_split_crlf_concat(line, header_block(rest));
        let i = line.len() as int;
        assert(is_first_crlf(s, i)) by {
            let k = choose|k: int| is_first_crlf(s, k);
            assert(s.subrange(0, i) =~= line);
            assert(s[i] == '\r');
            assert(s[i + 1] == '\n');
            assert forall|j: int| 0 <= j < i implies !crlf_at(s, j) by {
                assert(s[j] == line[j]);
            }
        }
        let k = choose|k: int| is_first_crlf(s, k);
        lemma_first_crlf_unique(s, i, k);
        assert(s.subrange(0, i) =~= line);
        assert(s.subrange(i + 2, s.len() as int) =~= header_block(rest));
        assert(line =~= h.0 + seq![':'] + (" "@ + h.1));
        lemma_split_char_concat(h.0, ':', " "@ + h.1);
        assert((" "@ + h.1).drop_first() =~= h.1);
        assert(trim_start(" "@ + h.1) == trim_start(h.1));
        assert(trim_start(h.1) == h.1);
        assert(seq![(h.0, h.1)] + rest =~= hs);
    }
}

/// The version written is the version read.
pub proof fn lemma_version_read_back(v: Version)
    ensures
        parse_version_spec(version_text(v)) == Some(v),
{
    reveal_strlit("HTTP/0.9");
    reveal_strlit("HTTP/1.0");
    reveal_strlit("HTTP/1.1");
    reveal_strlit("HTTP/2.0");
    reveal_strlit("HTTP/3.0");
    assert("HTTP/0.9"@[5] != "HTTP/1.0"@[5]);
    assert("HTTP/1.0"@[7] != "HTTP/1.1"@[7]);
    assert("HTTP/0.9"@[5] != "HTTP/1.1"@[5]);
    assert("HTTP/2.0"@[5] != "HTTP/0.9"@[5]);
    assert("HTTP/2.0"@[5] != "HTTP/1.0"@[5]);
    assert("HTTP/2.0"@[5] != "HTTP/1.1"@[5]);
    assert("HTTP/3.0"@[5] != "HTTP/0.9"@[5]);
    assert("HTTP/3.0"@[5] != "HTTP/1.0"@[5]);
    assert("HTTP/3.0"@[5] != "HTTP/1.1"@[5]);
    assert("HTTP/3.0"@[5] != "HTTP/2.0"@[5]);
}

/// A request head read from the bytes of its written form is the head that
/// was written: the method, the target and the path the http crate reads
/// from it, the version, and the header lines in order, each name in small
/// letters as the http crate keeps it. This holds for a
/// method the http crate accepts, a target without spaces or carriage
/// returns that it reads a path from, and header lines that read back and
/// that the http crate takes.
#[verifier::spinoff_prover]
#[verifier::rlimit(40)]
pub proof fn lemma_head_read_back(
    method: Seq<char>,
    target: Seq<char>,
    path: Seq<char>,
    version: Version,
    hs: Seq<(Seq<char>, Seq<char>)>,
)
    requires
        is_method_token(method),
        lacks(target, ' '),
        lacks(target, '\r'),
        uri_path_of(target) == Some(path),
        forall|i: int| 0 <= i < hs.len() ==> header_reads_back(#[trigger] hs[i]),
        forall|i: int| 0 <= i < hs.len() ==> header_accepted(#[trigger] hs[i]),
    ensures
        from_slice_spec(encode_utf8(head_block(method, target, version, hs))) == Ok::<
            _,
            RequestError,
        >(SpecHead { method, target, path, version, headers: normalized_headers(hs) }),
{
    reveal_strlit(" ");
    reveal_strlit("HTTP/0.9");
    reveal_strlit("HTTP/1.0");
    reveal_strlit("HTTP/1.1");
    reveal_strlit("HTTP/2.0");
    reveal_strlit("HTTP/3.0");
    let text = head_block(method, target, version, hs);
    vstd::utf8::encode_utf8_valid_utf8(text);
    encode_utf8_decode_utf8(text);
    let line = request_line_text(method, target, version);
    let vt = version_text(version);
    assert(lacks(method, ' ') && lacks(method, '\r')) by {
        assert forall|i: int| 0 <= i < method.len() implies method[i] != ' ' && method[i] != '\r' by {
            assert(is_method_char(method[i]));
        }
    }
    assert(lacks(vt, '\r'));
    assert(lacks(line, '\r')) by {
        assert forall|i: int| 0 <= i < line.len() implies line[i] != '\r' by {
            if i < method.len() {
                assert(line[i] == method[i]);
            } else if i == method.len() {
            } else if i < method.len() + 1 + target.len() {
                assert(line[i] == target[i - method.len() - 1]);
            } else if i == method.len() + 1 + target.len() {
            } else {
                assert(line[i] == vt[i - method.len() - 2 - target.len()]);
            }
        }
    }
    lemma_split_crlf_concat(line, header_block(hs));
    assert(line =~= method + seq![' '] + (target + " "@ + vt));
    lemma_split_char_concat(method, ' ', target + " "@ + vt);
    assert(target + " "@ + vt =~= target + seq![' '] + vt);
    lemma_split_char_concat(target, ' ', vt);
    lemma_version_read_back(version);
    lemma_headers_read_back(hs);
    lemma_header_check_passes(hs);
}

/// Header lines the http crate takes one by one pass the check as a whole.
pub proof fn lemma_header_check_passes(hs: Seq<(Seq<char>, Seq<char>)>)
    requires
        forall|i: int| 0 <= i < hs.len() ==> header_accepted(#[trigger] hs[i]),
    ensures
        header_check(hs) is None,
    decreases hs.len(),
{
    if hs.len() > 0 {
        assert(header_accepted(hs[0]));
        let rest = hs.drop_first();
        assert forall|i: int| 0 <= i < rest.len() implies header_accepted(#[trigger] rest[i]) by {
            assert(rest[i] == hs[i + 1]);
        }
        lemma_header_check_passes(rest);
    }
}

} // verus!
