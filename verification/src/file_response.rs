//! Responses to reading and writing a stored file, built with an explicit
//! length header and no media type.

use vstd::prelude::*;
use vstd::string::StringExecFns;

use crate::request::Version;
use crate::response::{
    body_bytes, content_length_name, header_value_from_usize, Response, SpecResponse, StatusCode,
    BAD_REQUEST, INTERNAL_SERVER_ERROR, OK,
};
use crate::text::decimal_text;

verus! {

/// A response with a status and nothing else.
pub open spec fn plain_status(status: u16) -> SpecResponse {
    SpecResponse { version: Version::Http11, status, headers: seq![], body: None }
}

/// The answer to a read: status 200 with the bytes and their length, or 400
/// when the file could not be read (`None`).
pub open spec fn get_response_spec(contents: Option<Seq<u8>>) -> SpecResponse {
    match contents {
        Some(c) => SpecResponse {
            version: Version::Http11,
            status: OK,
            headers: seq![(content_length_name(), decimal_text(c.len()))],
            body: Some(c),
        },
        None => plain_status(BAD_REQUEST),
    }
}

/// Answers a read of a file: `contents` is what was read, or `None` when the
/// file could not be read.
pub fn get_response(contents: Option<Vec<u8>>) -> (r: Response)
    ensures
        r@ == get_response_spec(body_bytes(contents)),
{
    match contents {
        Some(c) => {
            let len = c.len();
            let mut headers: Vec<(String, String)> = Vec::new();
            headers.push((String::from_str("content-length"), header_value_from_usize(len)));
            let ghost bytes = c@;
            let r = Response {
                version: Version::Http11,
                status: StatusCode(OK),
                headers,
                body: Some(c),
            };
            assert(r@.headers =~= get_response_spec(Some(bytes)).headers);
            r
        },
        None => {
            let r = Response {
                version: Version::Http11,
                status: StatusCode(BAD_REQUEST),
                headers: Vec::new(),
                body: None,
            };
            assert(r@.headers =~= Seq::<(Seq<char>, Seq<char>)>::empty());
            r
        },
    }
}

/// How a write request ended.
#[derive(Debug, Clone, Copy, PartialEq, Eq, Structural)]
pub enum WriteOutcome {
    /// The request carried no body, so nothing was written.
    NoBody,
    /// The body was written to the file.
    Written,
    /// Writing the file failed.
    Failed,
}

/// The answer to a write: 400 without a body, 200 when written, 500 when
/// writing failed.
pub open spec fn post_response_spec(outcome: WriteOutcome) -> SpecResponse {
    match outcome {
        WriteOutcome::NoBody => plain_status(BAD_REQUEST),
        WriteOutcome::Written => plain_status(OK),
        WriteOutcome::Failed => plain_status(INTERNAL_SERVER_ERROR),
    }
}

/// Answers a write request by how it ended.
pub fn post_response(outcome: WriteOutcome) -> (r: Response)
    ensures
        r@ == post_response_spec(outcome),
{
    let status = match outcome {
        WriteOutcome::NoBody => BAD_REQUEST,
        WriteOutcome::Written => OK,
        WriteOutcome::Failed => INTERNAL_SERVER_ERROR,
    };
    let r = Response {
        version: Version::Http11,
        status: StatusCode(status),
        headers: Vec::new(),
        body: None,
    };
    assert(r@.headers =~= Seq::<(Seq<char>, Seq<char>)>::empty());
    r
}

/// What a write request leads to before any file is touched: write these
/// bytes, or answer at once.
pub enum WriteStep {
    /// Write the bytes to the file, then answer with `post_response`.
    Write(Vec<u8>),
    /// Answer with this response and write nothing.
    Answer(Response),
}

/// Decides a write request by its body: without a body nothing is written
/// and the answer is 400; with one, that body is to be written.
pub fn post_step(body: Option<Vec<u8>>) -> (r: WriteStep)
    ensures
        match body {
            None => r matches WriteStep::Answer(resp) && resp@ == post_response_spec(
                WriteOutcome::NoBody,
            ),
            Some(b) => r matches WriteStep::Write(w) && w@ == b@,
        },
{
    match body {
        None => WriteStep::Answer(post_response(WriteOutcome::NoBody)),
        Some(b) => WriteStep::Write(b),
    }
}

/// The answer to a read carries the file's bytes with status 200 and
/// announces their number in its one `content-length` header; a failed read
/// is answered 400 without a body.
pub proof fn lemma_read_answer_length(c: Seq<u8>)
    ensures
        get_response_spec(Some(c)).status == 200,
        get_response_spec(Some(c)).body == Some(c),
        get_response_spec(Some(c)).headers == seq![("content-length"@, decimal_text(c.len()))],
        get_response_spec(None).status == 400,
        get_response_spec(None).body is None,
{
}

} // verus!
