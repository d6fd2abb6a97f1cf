//! The storage server's routing: which file a request names, whether it is
//! read or written, and the response to each outcome.

use vstd::prelude::*;
use vstd::string::{StrSliceExecFns, StringExecFns};
use vstd::utf8::encode_utf8;

use crate::request::{text_eq, RequestHead};
use crate::response::{
    body_bytes, IntoResponse, Response, SpecResponse, StatusCode, BAD_REQUEST,
    INTERNAL_SERVER_ERROR, NOT_FOUND, OK,
};
use crate::text::chars_of;

verus! {

/// The state the server hands to every request: where files are stored.
pub struct AppState {
    pub directory: String,
}

/// A request: its head and its body, if it has one.
pub struct Request {
    pub head: RequestHead,
    pub body: Option<Vec<u8>>,
}

/// What the server does for a request.
pub enum Action {
    /// Read the file at this path and answer with `get_response`.
    ReadFile(String),
    /// Write these bytes to the file at this path and answer with `post_response`.
    WriteFile(String, Vec<u8>),
    /// Answer at once.
    Respond(Response),
}

/// An action taken by its characters and bytes.
pub enum SpecAction {
    ReadFile(Seq<char>),
    WriteFile(Seq<char>, Seq<u8>),
    Respond(SpecResponse),
}

impl View for Action {
    type V = SpecAction;

    open spec fn view(&self) -> SpecAction {
        match self {
            Action::ReadFile(p) => SpecAction::ReadFile(p@),
            Action::WriteFile(p, b) => SpecAction::WriteFile(p@, b@),
            Action::Respond(r) => SpecAction::Respond(r@),
        }
    }
}

/// A file name may not hold a path separator.
pub open spec fn has_separator(name: Seq<char>) -> bool {
    exists|i: int| 0 <= i < name.len() && (name[i] == '/' || name[i] == '\\')
}

/// `name` inside `directory`, as `Path::join` forms it for a name without
/// separators: a `/` goes between them unless `directory` is empty or
/// already ends with one.
pub open spec fn join_spec(directory: Seq<char>, name: Seq<char>) -> Seq<char> {
    if directory.len() == 0 || directory.last() == '/' {
        directory + name
    } else {
        directory + "/"@ + name
    }
}

/// The response with status `status` and the text `message`.
pub open spec fn message_response(status: u16, message: &'static str) -> SpecResponse {
    (StatusCode(status), message).response_spec()
}

/// The response with status `status` alone.
pub open spec fn bare_response(status: u16) -> SpecResponse {
    StatusCode(status).response_spec()
}

/// The file name in a URI path: all but its leading `/`.
pub open spec fn file_name(path: Seq<char>) -> Seq<char> {
    path.skip(1)
}

/// What the server does for a request with `method`, the URI path `path`
/// and `body`, storing files in `directory`: the path must be `/` and a
/// name without separators; GET reads the named file, POST writes the body
/// to it, and other methods are refused.
pub open spec fn handle_spec(
    method: Seq<char>,
    path: Seq<char>,
    body: Option<Seq<u8>>,
    directory: Seq<char>,
) -> SpecAction {
    if encode_utf8(path).len() < 2 {
        SpecAction::Respond(message_response(BAD_REQUEST, "Missing file name"))
    } else if path[0] != '/' {
        SpecAction::Respond(bare_response(BAD_REQUEST))
    } else if has_separator(file_name(path)) {
        SpecAction::Respond(
            message_response(BAD_REQUEST, "File name cannot contain '/' nor '\\'"),
        )
    } else if method == "GET"@ {
        SpecAction::ReadFile(join_spec(directory, file_name(path)))
    } else if method == "POST"@ {
        match body {
            None => SpecAction::Respond(message_response(BAD_REQUEST, "Empty message")),
            Some(b) => SpecAction::WriteFile(join_spec(directory, file_name(path)), b),
        }
    } else {
        SpecAction::Respond(message_response(NOT_FOUND, "Only GET and POST methods are accepted"))
    }
}

/// Whether `name` holds a `/` or a `\`.
pub fn contains_separator(name: &str) -> (r: bool)
    ensures
        r == has_separator(name@),
{
    let v = chars_of(name);
    let mut i: usize = 0;
    while i < v.len()
        invariant
            v@ == name@,
            i <= v.len(),
            forall|j: int| 0 <= j < i ==> v@[j] != '/' && v@[j] != '\\',
        decreases v.len() - i,
    {
        if v[i] == '/' || v[i] == '\\' {
            return true;
        }
        i = i + 1;
    }
    false
}

/// `name` inside `directory`.
pub fn join_path(directory: &str, name: &str) -> (r: String)
    ensures
        r@ == join_spec(directory@, name@),
{
    let v = chars_of(directory);
    let mut joined = String::from_str(directory);
    if v.len() > 0 && v[v.len() - 1] != '/' {
        joined.append("/");
    }
    joined.append(name);
    joined
}

/// Decides what to do with a request: answer it at once, or read or write
/// the file it names inside the storage directory.
pub fn handle(request: Request, app_state: &AppState) -> (r: Action)
    ensures
        r@ == handle_spec(
            request.head.method@,
            request.head.path@,
            body_bytes(request.body),
            app_state.directory@,
        ),
{
    let Request { head, body } = request;
    let method = head.method.as_str();
    let path = head.path.as_str();
    if path.as_bytes().len() < 2 {
        return Action::Respond((StatusCode(BAD_REQUEST), "Missing file name").into_response());
    }
    let v = chars_of(path);
    if v.len() == 0 || v[0] != '/' {
        return Action::Respond(StatusCode(BAD_REQUEST).into_response());
    }
    let name = path.substring_char(1, v.len());
    if contains_separator(name) {
        return Action::Respond(
            (StatusCode(BAD_REQUEST), "File name cannot contain '/' nor '\\'").into_response(),
        );
    }
    let file = join_path(app_state.directory.as_str(), name);
    if text_eq(method, "GET") {
        Action::ReadFile(file)
    } else if text_eq(method, "POST") {
        match body {
            None => Action::Respond((StatusCode(BAD_REQUEST), "Empty message").into_response()),
            Some(b) => Action::WriteFile(file, b),
        }
    } else {
        Action::Respond(
            (StatusCode(NOT_FOUND), "Only GET and POST methods are accepted").into_response(),
        )
    }
}

/// The answer to a read: the file's bytes with status 200, or 404 when it
/// could not be read (`None`).
pub open spec fn get_response_spec(contents: Option<Seq<u8>>) -> SpecResponse {
    match contents {
        Some(c) => with_ok(c),
        None => bare_response(NOT_FOUND),
    }
}

/// The bytes `c` as a 200 response.
pub open spec fn with_ok(c: Seq<u8>) -> SpecResponse {
    crate::response::with_status(crate::response::body_response(crate::response::octet_stream_type(), c), OK)
}

/// Answers a read of a file: `contents` is what was read, or `None` when the
/// file could not be read.
pub fn get_response(contents: Option<Vec<u8>>) -> (r: Response)
    ensures
        r@ == get_response_spec(body_bytes(contents)),
{
    match contents {
        Some(c) => (StatusCode(OK), c).into_response(),
        None => StatusCode(NOT_FOUND).into_response(),
    }
}

/// The answer to a write: 200 when the file was written, 500 otherwise.
pub open spec fn post_response_spec(written: bool) -> SpecResponse {
    if written {
        bare_response(OK)
    } else {
        bare_response(INTERNAL_SERVER_ERROR)
    }
}

/// Answers a write of a file, given whether it succeeded.
pub fn post_response(written: bool) -> (r: Response)
    ensures
        r@ == post_response_spec(written),
{
    if written {
        StatusCode(OK).into_response()
    } else {
        StatusCode(INTERNAL_SERVER_ERROR).into_response()
    }
}


/// A file the server reads or writes is always the storage directory joined
/// with a non-empty file name that holds no path separator: no request
/// reaches a file outside the directory.
pub proof fn lemma_file_access_inside_directory(
    method: Seq<char>,
    path: Seq<char>,
    body: Option<Seq<u8>>,
    directory: Seq<char>,
)
    ensures
        match handle_spec(method, path, body, directory) {
            SpecAction::ReadFile(p) => {
                &&& p == join_spec(directory, file_name(path))
                &&& file_name(path).len() > 0
                &&& !has_separator(file_name(path))
            },
            SpecAction::WriteFile(p, _) => {
                &&& p == join_spec(directory, file_name(path))
                &&& file_name(path).len() > 0
                &&& !has_separator(file_name(path))
            },
            SpecAction::Respond(_) => true,
        },
{
    if encode_utf8(path).len() >= 2 && path.len() > 0 && path[0] == '/' && path.len() == 1 {
        assert(path.drop_first() =~= Seq::<char>::empty());
        assert(encode_utf8(path.drop_first()) =~= Seq::<u8>::empty());
        assert(encode_utf8(path) == vstd::utf8::encode_scalar(path[0] as u32) + encode_utf8(
            path.drop_first(),
        ));
        assert(encode_utf8(path).len() == 1);
    }
}

/// What a POST writes, a GET of the same path reads back: the POST writes
/// the body to a file, a GET of the path reads that very file whatever it
/// carries, and the bytes read are answered with status 200 as the body.
pub proof fn lemma_get_returns_posted(
    path: Seq<char>,
    directory: Seq<char>,
    body: Seq<u8>,
    get_body: Option<Seq<u8>>,
)
    ensures
        match handle_spec("POST"@, path, Some(body), directory) {
            SpecAction::WriteFile(p, written) => {
                &&& written == body
                &&& handle_spec("GET"@, path, get_body, directory) == SpecAction::ReadFile(p)
                &&& get_response_spec(Some(written)).status == OK
                &&& get_response_spec(Some(written)).body == Some(body)
            },
            _ => true,
        },
{
    reveal_strlit("GET");
    reveal_strlit("POST");
    assert("GET"@ != "POST"@) by {
        assert("GET"@.len() != "POST"@.len());
    }
}

/// Only GET and POST touch files: a request with any other method is
/// answered at once, whatever its path and body; where the path names a
/// file, the answer is 404 with the text `Only GET and POST methods are
/// accepted`.
pub proof fn lemma_other_methods_refused(
    method: Seq<char>,
    path: Seq<char>,
    body: Option<Seq<u8>>,
    directory: Seq<char>,
)
    requires
        method != "GET"@,
        method != "POST"@,
    ensures
        handle_spec(method, path, body, directory) is Respond,
        encode_utf8(path).len() >= 2 && path[0] == '/' && !has_separator(path.skip(1))
            ==> (handle_spec(method, path, body, directory) matches SpecAction::Respond(r) && r.status
            == 404 && r.body == Some(encode_utf8("Only GET and POST methods are accepted"@))),
{
}

/// The answer to a read of a file carries the file's bytes with status 200,
/// is typed `application/octet-stream`, and announces the number of bytes
/// in every `content-length` header it has, of which there is one.
pub proof fn lemma_read_answer_announces_length(c: Seq<u8>)
    ensures
        get_response_spec(Some(c)).status == 200,
        get_response_spec(Some(c)).body == Some(c),
        exists|i: int|
            0 <= i < get_response_spec(Some(c)).headers.len() && #[trigger] get_response_spec(
                Some(c),
            ).headers[i] == ("content-length"@, crate::text::decimal_text(c.len())),
        forall|i: int|
            0 <= i < get_response_spec(Some(c)).headers.len() && get_response_spec(Some(c)).headers[i].0
                == "content-length"@ ==> #[trigger] get_response_spec(Some(c)).headers[i].1
                == crate::text::decimal_text(c.len()),
        exists|i: int|
            0 <= i < get_response_spec(Some(c)).headers.len() && #[trigger] get_response_spec(
                Some(c),
            ).headers[i] == ("content-type"@, "application/octet-stream"@),
{
    let r = get_response_spec(Some(c));
    reveal_strlit("content-length");
    reveal_strlit("content-type");
    assert(r.headers[1] == ("content-length"@, crate::text::decimal_text(c.len())));
    assert(r.headers[0] == ("content-type"@, "application/octet-stream"@));
    assert("content-type"@ != "content-length"@) by {
        assert("content-type"@.len() != "content-length"@.len());
    }
}

/// Only a POST with a body writes, and it writes that very body: a GET
/// never writes, and a POST without a body is answered at once.
pub proof fn lemma_only_posted_bodies_written(
    method: Seq<char>,
    path: Seq<char>,
    body: Option<Seq<u8>>,
    directory: Seq<char>,
)
    ensures
        handle_spec(method, path, body, directory) matches SpecAction::WriteFile(_, b) ==> (method
            == "POST"@ && body == Some(b)),
        handle_spec(method, path, body, directory) is ReadFile ==> method == "GET"@,
{
}

} // verus!
