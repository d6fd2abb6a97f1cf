//! A simpler routing of the storage server: the URI path less its first
//! character names the file, relative to the working directory.

use vstd::prelude::*;
use vstd::string::StrSliceExecFns;

use crate::handler::{message_response, Action, Request, SpecAction};
use crate::request::text_eq;
use crate::response::{body_bytes, IntoResponse, StatusCode, BAD_REQUEST};
use crate::text::chars_of;

verus! {

/// `text` without its first character (empty text stays empty).
pub open spec fn skip_one_char_spec(text: Seq<char>) -> Seq<char> {
    if text.len() == 0 {
        text
    } else {
        text.skip(1)
    }
}

/// `text` without its first character.
pub fn skip_one_char(text: &str) -> (r: &str)
    ensures
        r@ == skip_one_char_spec(text@),
{
    let v = chars_of(text);
    if v.len() == 0 {
        text
    } else {
        text.substring_char(1, v.len())
    }
}

/// The methods this routing serves.
pub open spec fn served_method(method: Seq<char>) -> bool {
    method == "GET"@ || method == "POST"@
}

/// What this routing does: GET reads the file the path names, POST writes
/// the body to it or, without a body, is refused.
pub open spec fn plain_handle_spec(method: Seq<char>, path: Seq<char>, body: Option<Seq<u8>>) -> SpecAction {
    if method == "GET"@ {
        SpecAction::ReadFile(skip_one_char_spec(path))
    } else {
        match body {
            None => SpecAction::Respond(message_response(BAD_REQUEST, "empty message")),
            Some(b) => SpecAction::WriteFile(skip_one_char_spec(path), b),
        }
    }
}

/// Decides what to do with a GET or POST request.
pub fn handle(request: Request) -> (r: Action)
    requires
        served_method(request.head.method@),
    ensures
        r@ == plain_handle_spec(request.head.method@, request.head.path@, body_bytes(request.body)),
{
    let Request { head, body } = request;
    let file = skip_one_char(head.path.as_str()).to_owned();
    if text_eq(head.method.as_str(), "GET") {
        Action::ReadFile(file)
    } else {
        match body {
            None => Action::Respond((StatusCode(BAD_REQUEST), "empty message").into_response()),
            Some(b) => Action::WriteFile(file, b),
        }
    }
}

} // verus!
