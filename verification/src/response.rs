//! Responses: how a status, a byte body or a text becomes a response, and
//! how a response is written on the wire.

use vstd::prelude::*;
use vstd::string::{StrSliceExecFns, StringExecFns, StringSliceAdditionalSpecFns};
use vstd::utf8::encode_utf8;

use crate::request::{header_texts, version_text, Version};
use crate::text::{chars_of, decimal_string, decimal_text};

verus! {

/// An HTTP status code.
#[derive(Debug, Clone, Copy, PartialEq, Eq, Structural)]
pub struct StatusCode(pub u16);

/// 200 OK.
pub const OK: u16 = 200;

/// 400 Bad Request.
pub const BAD_REQUEST: u16 = 400;

/// 404 Not Found.
pub const NOT_FOUND: u16 = 404;

/// 500 Internal Server Error.
pub const INTERNAL_SERVER_ERROR: u16 = 500;

/// A response: version, status, header lines in the order they are written,
/// and an optional body.
pub struct Response {
    pub version: Version,
    pub status: StatusCode,
    pub headers: Vec<(String, String)>,
    pub body: Option<Vec<u8>>,
}

/// A response taken by its characters and bytes.
pub struct SpecResponse {
    pub version: Version,
    pub status: u16,
    pub headers: Seq<(Seq<char>, Seq<char>)>,
    pub body: Option<Seq<u8>>,
}

/// An optional body taken by its bytes.
pub open spec fn body_bytes(b: Option<Vec<u8>>) -> Option<Seq<u8>> {
    match b {
        Some(v) => Some(v@),
        None => None,
    }
}

impl View for Response {
    type V = SpecResponse;

    open spec fn view(&self) -> SpecResponse {
        SpecResponse {
            version: self.version,
            status: self.status.0,
            headers: header_texts(self.headers@),
            body: body_bytes(self.body),
        }
    }
}

/// The name of the header that gives the body's length.
pub open spec fn content_length_name() -> Seq<char> {
    "content-length"@
}

/// The name of the header that gives the body's media type.
pub open spec fn content_type_name() -> Seq<char> {
    "content-type"@
}

/// The media type of raw bytes.
pub open spec fn octet_stream_type() -> Seq<char> {
    "application/octet-stream"@
}

/// The media type of UTF-8 text.
pub open spec fn plain_text_type() -> Seq<char> {
    "text/plain; charset=utf-8"@
}

/// `mime::APPLICATION_OCTET_STREAM`, whose text the mime crate defines as
/// `application/octet-stream`.
#[verifier::external_body]
fn octet_stream_mime() -> (r: String)
    ensures
        r@ == octet_stream_type(),
{
    mime::APPLICATION_OCTET_STREAM.as_ref().to_string()
}

/// `mime::TEXT_PLAIN_UTF_8`, whose text the mime crate defines as
/// `text/plain; charset=utf-8`.
#[verifier::external_body]
fn plain_text_mime() -> (r: String)
    ensures
        r@ == plain_text_type(),
{
    mime::TEXT_PLAIN_UTF_8.as_ref().to_string()
}

/// `http::HeaderValue::from(usize)`: by its source the number written in
/// decimal (by `itoa`); its bytes are ASCII digits, so reading them as text
/// changes nothing.
#[verifier::external_body]
pub(crate) fn header_value_from_usize(n: usize) -> (r: String)
    ensures
        r@ == decimal_text(n as nat),
{
    String::from_utf8_lossy(http::HeaderValue::from(n).as_bytes()).into_owned()
}

/// The response with only a status and an empty body length.
pub open spec fn status_response(status: u16) -> SpecResponse {
    SpecResponse {
        version: Version::Http11,
        status,
        headers: seq![(content_length_name(), decimal_text(0))],
        body: None,
    }
}

/// The 200 response carrying `body` with the media type `media`.
pub open spec fn body_response(media: Seq<char>, body: Seq<u8>) -> SpecResponse {
    SpecResponse {
        version: Version::Http11,
        status: OK,
        headers: seq![
            (content_type_name(), media),
            (content_length_name(), decimal_text(body.len())),
        ],
        body: Some(body),
    }
}

/// `r` with its status replaced.
pub open spec fn with_status(r: SpecResponse, status: u16) -> SpecResponse {
    SpecResponse { status, ..r }
}

/// What can be turned into a response.
pub trait IntoResponse: Sized {
    /// The response that `self` becomes.
    spec fn response_spec(self) -> SpecResponse;

    /// Turns `self` into a response.
    fn into_response(self) -> (r: Response)
        ensures
            r@ == self.response_spec(),
    ;
}

/// A status alone: no body, a length of zero.
impl IntoResponse for StatusCode {
    open spec fn response_spec(self) -> SpecResponse {
        status_response(self.0)
    }

    fn into_response(self) -> (r: Response) {
        let mut headers: Vec<(String, String)> = Vec::new();
        headers.push((String::from_str("content-length"), header_value_from_usize(0)));
        let r = Response { version: Version::Http11, status: self, headers, body: None };
        assert(r@.headers =~= status_response(self.0).headers);
        r
    }
}

/// Raw bytes: status 200, typed `application/octet-stream`, with their length.
impl IntoResponse for Vec<u8> {
    open spec fn response_spec(self) -> SpecResponse {
        body_response(octet_stream_type(), self@)
    }

    fn into_response(self) -> (r: Response) {
        let len = self.len();
        let mut headers: Vec<(String, String)> = Vec::new();
        headers.push((String::from_str("content-type"), octet_stream_mime()));
        headers.push((String::from_str("content-length"), header_value_from_usize(len)));
        let ghost bytes = self@;
        let r = Response {
            version: Version::Http11,
            status: StatusCode(OK),
            headers,
            body: Some(self),
        };
        assert(r@.headers =~= body_response(octet_stream_type(), bytes).headers);
        r
    }
}

/// A text: status 200, typed `text/plain; charset=utf-8`, with the length of
/// its UTF-8 bytes.
impl IntoResponse for &'static str {
    open spec fn response_spec(self) -> SpecResponse {
        body_response(plain_text_type(), self.spec_bytes())
    }

    fn into_response(self) -> (r: Response) {
        let body = self.as_bytes_vec();
        let len = body.len();
        let mut headers: Vec<(String, String)> = Vec::new();
        headers.push((String::from_str("content-type"), plain_text_mime()));
        headers.push((String::from_str("content-length"), header_value_from_usize(len)));
        let r = Response {
            version: Version::Http11,
            status: StatusCode(OK),
            headers,
            body: Some(body),
        };
        assert(r@.headers =~= body_response(plain_text_type(), self.spec_bytes()).headers);
        r
    }
}

/// A status and something else: the response of the second, with the status.
impl<B: IntoResponse> IntoResponse for (StatusCode, B) {
    open spec fn response_spec(self) -> SpecResponse {
        with_status(self.1.response_spec(), self.0.0)
    }

    fn into_response(self) -> (r: Response) {
        let (status, inner) = self;
        let mut r = inner.into_response();
        r.status = status;
        r
    }
}


/// Why a response could not be written.
#[derive(Debug, Clone, Copy, PartialEq, Eq, Structural)]
pub enum ResponseError {
    InvalidHeaderEncoding,
}

/// A character that a header value may hold to be read back as text:
/// visible ASCII or a tab (`http::HeaderValue::to_str`).
pub open spec fn is_visible_ascii(c: char) -> bool {
    let u = c as u32;
    (32 <= u && u < 127) || c == '\t'
}

/// Every character of `s` is visible ASCII or a tab.
pub open spec fn all_visible(s: Seq<char>) -> bool {
    forall|i: int| 0 <= i < s.len() ==> is_visible_ascii(s[i])
}

/// Every header value of `hs` reads back as text.
pub open spec fn values_readable(hs: Seq<(Seq<char>, Seq<char>)>) -> bool {
    forall|i: int| 0 <= i < hs.len() ==> all_visible(#[trigger] hs[i].1)
}

/// The line `name: value` of a header.
pub open spec fn header_line(h: (Seq<char>, Seq<char>)) -> Seq<char> {
    h.0 + ": "@ + h.1 + "\r\n"@
}

/// The header lines, in order.
pub open spec fn header_lines(hs: Seq<(Seq<char>, Seq<char>)>) -> Seq<char>
    decreases hs.len(),
{
    if hs.len() == 0 {
        seq![]
    } else {
        header_lines(hs.drop_last()) + header_line(hs.last())
    }
}

/// The head of a response: the status line `VERSION STATUS`, the header
/// lines and an empty line.
pub open spec fn head_text(r: SpecResponse) -> Seq<char> {
    version_text(r.version) + " "@ + decimal_text(r.status as nat) + "\r\n"@ + header_lines(
        r.headers,
    ) + "\r\n"@
}

/// The bytes of an optional body.
pub open spec fn body_or_empty(b: Option<Seq<u8>>) -> Seq<u8> {
    match b {
        Some(bytes) => bytes,
        None => seq![],
    }
}

/// The bytes that write `r`: its head in UTF-8 and its body; refused when a
/// header value is not readable text.
pub open spec fn encode_spec(r: SpecResponse) -> Result<Seq<u8>, ResponseError> {
    if values_readable(r.headers) {
        Ok(encode_utf8(head_text(r)) + body_or_empty(r.body))
    } else {
        Err(ResponseError::InvalidHeaderEncoding)
    }
}

/// How a version is written.
pub fn version_str(v: Version) -> (r: &'static str)
    ensures
        r@ == version_text(v),
{
    match v {
        Version::Http09 => "HTTP/0.9",
        Version::Http10 => "HTTP/1.0",
        Version::Http11 => "HTTP/1.1",
        Version::Http2 => "HTTP/2.0",
        Version::Http3 => "HTTP/3.0",
    }
}

/// Whether every character of `s` is visible ASCII or a tab.
pub fn readable_value(s: &str) -> (r: bool)
    ensures
        r == all_visible(s@),
{
    let v = chars_of(s);
    let mut i: usize = 0;
    while i < v.len()
        invariant
            v@ == s@,
            i <= v.len(),
            forall|j: int| 0 <= j < i ==> is_visible_ascii(v@[j]),
        decreases v.len() - i,
    {
        let c = v[i];
        let u = c as u32;
        if !((32 <= u && u < 127) || c == '\t') {
            return false;
        }
        i = i + 1;
    }
    true
}

/// The bytes that write `response` on the wire.
pub fn encode_response(response: &Response) -> (r: Result<Vec<u8>, ResponseError>)
    ensures
        match r {
            Ok(bytes) => encode_spec(response@) == Ok::<_, ResponseError>(bytes@),
            Err(e) => encode_spec(response@) == Err::<Seq<u8>, _>(e),
        },
{
    let ghost rs = response@;
    let mut head = String::from_str(version_str(response.version));
    head.append(" ");
    head.append(decimal_string(response.status.0 as u64).as_str());
    head.append("\r\n");
    let ghost status_part = head@;
    let mut i: usize = 0;
    while i < response.headers.len()
        invariant
            i <= response.headers.len(),
            rs == response@,
            head@ == status_part + header_lines(rs.headers.take(i as int)),
            forall|j: int| 0 <= j < i ==> all_visible(#[trigger] rs.headers[j].1),
        decreases response.headers.len() - i,
    {
        let name = response.headers[i].0.as_str();
        let value = response.headers[i].1.as_str();
        assert(rs.headers[i as int] == (name@, value@));
        if !readable_value(value) {
            assert(!all_visible(rs.headers[i as int].1));
            return Err(ResponseError::InvalidHeaderEncoding);
        }
        head.append(name);
        head.append(": ");
        head.append(value);
        head.append("\r\n");
        proof {
            assert(rs.headers.take(i + 1).drop_last() =~= rs.headers.take(i as int));
            assert(rs.headers.take(i + 1).last() == rs.headers[i as int]);
        }
        i = i + 1;
    }
    head.append("\r\n");
    proof {
        assert(rs.headers.take(i as int) =~= rs.headers);
        assert(head@ =~= head_text(rs));
    }
    let mut out = head.as_str().as_bytes_vec();
    let ghost head_bytes = out@;
    match &response.body {
        Some(body) => {
            let mut k: usize = 0;
            while k < body.len()
                invariant
                    k <= body.len(),
                    out@ == head_bytes + body@.take(k as int),
                decreases body.len() - k,
            {
                out.push(body[k]);
                proof {
                    assert(body@.take(k + 1) =~= body@.take(k as int).push(body@[k as int]));
                }
                k = k + 1;
            }
            proof {
                assert(body@.take(k as int) =~= body@);
            }
        },
        None => {
            assert(out@ =~= head_bytes + seq![]);
        },
    }
    Ok(out)
}


/// Writing a response fails exactly when a header value is not readable
/// text; otherwise the bytes are the response's head in UTF-8 followed by
/// its whole body, whatever the body's size, so that a response that
/// announces its length announces exactly the number of bytes that follow
/// the head.
pub proof fn lemma_encoding_keeps_whole_body(r: SpecResponse)
    ensures
        encode_spec(r) is Ok <==> values_readable(r.headers),
        encode_spec(r) matches Ok(b) ==> {
            let head = encode_utf8(head_text(r));
            let body = match r.body {
                Some(bb) => bb,
                None => Seq::<u8>::empty(),
            };
            &&& b.len() == head.len() + body.len()
            &&& b.take(head.len() as int) == head
            &&& b.skip(head.len() as int) == body
            &&& announces_body_length(r) ==> exists|i: int|
                0 <= i < r.headers.len() && r.headers[i].0 == content_length_name()
                    && #[trigger] r.headers[i].1 == decimal_text((b.len() - head.len()) as nat)
        },
{
    if let Ok(b) = encode_spec(r) {
        let head = encode_utf8(head_text(r));
        let body = body_or_empty(r.body);
        assert(b.take(head.len() as int) =~= head);
        assert(b.skip(head.len() as int) =~= body);
    }
}

/// `r` has a `content-length` header whose value is the length of its body
/// (zero without a body).
pub open spec fn announces_body_length(r: SpecResponse) -> bool {
    exists|i: int|
        0 <= i < r.headers.len() && r.headers[i].0 == content_length_name() && #[trigger] r.headers[i].1
            == decimal_text(body_or_empty(r.body).len())
}

/// Every response that a status, bytes, a text, or a status with bytes or a
/// text turns into announces its body's length in a `content-length` header.
pub proof fn lemma_responses_announce_body_length(
    status: StatusCode,
    bytes: Vec<u8>,
    text: &'static str,
)
    ensures
        announces_body_length(status.response_spec()),
        announces_body_length(bytes.response_spec()),
        announces_body_length(text.response_spec()),
        announces_body_length((status, bytes).response_spec()),
        announces_body_length((status, text).response_spec()),
{
    assert(status.response_spec().headers[0].1 == decimal_text(0));
    assert(bytes.response_spec().headers[1].1 == decimal_text(bytes@.len()));
    assert(text.response_spec().headers[1].1 == decimal_text(text.spec_bytes().len()));
    assert((status, bytes).response_spec().headers[1].1 == decimal_text(bytes@.len()));
    assert((status, text).response_spec().headers[1].1 == decimal_text(text.spec_bytes().len()));
}

/// Decimal text is visible ASCII.
pub proof fn lemma_decimal_visible(n: nat)
    ensures
        all_visible(decimal_text(n)),
    decreases n,
{
    if n >= 10 {
        lemma_decimal_visible(n / 10);
        assert(decimal_text(n) == decimal_text(n / 10).push(crate::text::digit_char(n % 10)));
    }
}

/// The media types are visible ASCII.
proof fn lemma_media_types_visible()
    ensures
        all_visible(octet_stream_type()),
        all_visible(plain_text_type()),
{
    reveal_strlit("application/octet-stream");
    reveal_strlit("text/plain; charset=utf-8");
}

/// Every response that a status, bytes, a text, or a status with bytes or a
/// text turns into can be written: writing it never fails.
pub proof fn lemma_built_responses_encode(status: StatusCode, bytes: Vec<u8>, text: &'static str)
    ensures
        encode_spec(status.response_spec()) is Ok,
        encode_spec(bytes.response_spec()) is Ok,
        encode_spec(text.response_spec()) is Ok,
        encode_spec((status, bytes).response_spec()) is Ok,
        encode_spec((status, text).response_spec()) is Ok,
{
    lemma_decimal_visible(0);
    lemma_decimal_visible(bytes@.len());
    lemma_decimal_visible(text.spec_bytes().len());
    lemma_media_types_visible();
    assert(values_readable(status.response_spec().headers));
    assert(values_readable(bytes.response_spec().headers));
    assert(values_readable(text.response_spec().headers));
    assert(values_readable((status, bytes).response_spec().headers));
    assert(values_readable((status, text).response_spec().headers));
}

} // verus!
