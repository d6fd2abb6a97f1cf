use marquito::file_response::{self, WriteOutcome, WriteStep};
use marquito::handler::{
    contains_separator, get_response, handle, join_path, post_response, Action, AppState,
    Request,
};
use marquito::plain_handler::{self, skip_one_char};
use marquito::request::{from_slice, RequestHead, Version};
use marquito::response::StatusCode;

fn request(method: &str, path: &str, body: Option<&[u8]>) -> Request {
    Request {
        head: RequestHead {
            method: method.to_string(),
            target: path.to_string(),
            path: path.to_string(),
            version: Version::Http11,
            headers: vec![],
        },
        body: body.map(|b| b.to_vec()),
    }
}

fn state(dir: &str) -> AppState {
    AppState { directory: dir.to_string() }
}

fn respond(a: Action) -> (u16, Option<Vec<u8>>) {
    match a {
        Action::Respond(r) => (r.status.0, r.body),
        _ => panic!("expected a response"),
    }
}

#[test]
fn get_reads_the_named_file_in_the_directory() {
    match handle(request("GET", "/a.txt", None), &state("files/")) {
        Action::ReadFile(p) => assert_eq!(p, "files/a.txt"),
        _ => panic!(),
    }
    match handle(request("GET", "/a.txt", None), &state("files")) {
        Action::ReadFile(p) => assert_eq!(p, "files/a.txt"),
        _ => panic!(),
    }
}

#[test]
fn post_writes_the_body() {
    match handle(request("POST", "/b.toml", Some(b"data")), &state("store")) {
        Action::WriteFile(p, b) => {
            assert_eq!(p, "store/b.toml");
            assert_eq!(b, b"data".to_vec());
        }
        _ => panic!(),
    }
}

#[test]
fn post_without_body_is_refused() {
    assert_eq!(
        respond(handle(request("POST", "/b", None), &state("d"))),
        (400, Some(b"Empty message".to_vec()))
    );
}

#[test]
fn short_paths_miss_the_file_name() {
    assert_eq!(
        respond(handle(request("GET", "/", None), &state("d"))),
        (400, Some(b"Missing file name".to_vec()))
    );
    assert_eq!(
        respond(handle(request("GET", "", None), &state("d"))),
        (400, Some(b"Missing file name".to_vec()))
    );
}

#[test]
fn paths_must_start_with_a_slash() {
    assert_eq!(respond(handle(request("GET", "ab", None), &state("d"))), (400, None));
    assert_eq!(respond(handle(request("GET", "é", None), &state("d"))), (400, None));
}

#[test]
fn names_with_separators_are_refused() {
    for p in ["/a/b", "/../secret", "/a\\b", "//"] {
        assert_eq!(
            respond(handle(request("GET", p, None), &state("d"))),
            (400, Some(b"File name cannot contain '/' nor '\\'".to_vec()))
        );
    }
}

#[test]
fn other_methods_are_refused() {
    assert_eq!(
        respond(handle(request("DELETE", "/a", None), &state("d"))),
        (404, Some(b"Only GET and POST methods are accepted".to_vec()))
    );
}

#[test]
fn the_path_of_a_parsed_request_is_routed() {
    let head = from_slice(b"GET http://host/x.bin?y HTTP/1.1\r\n").unwrap();
    match handle(Request { head, body: None }, &state("")) {
        Action::ReadFile(p) => assert_eq!(p, "x.bin"),
        _ => panic!(),
    }
}

#[test]
fn join_path_cases() {
    assert_eq!(join_path("", "n"), "n");
    assert_eq!(join_path("d", "n"), "d/n");
    assert_eq!(join_path("d/", "n"), "d/n");
    assert_eq!(join_path("/", "n"), "/n");
    assert_eq!(std::path::Path::new("d").join("n").to_str().unwrap(), join_path("d", "n"));
}

#[test]
fn contains_separator_cases() {
    assert!(contains_separator("a/b"));
    assert!(contains_separator("a\\b"));
    assert!(!contains_separator("a.b"));
    assert!(!contains_separator(""));
}

#[test]
fn read_and_write_outcomes() {
    let r = get_response(Some(b"xyz".to_vec()));
    assert_eq!(r.status, StatusCode(200));
    assert_eq!(r.body, Some(b"xyz".to_vec()));
    let r = get_response(None);
    assert_eq!(r.status, StatusCode(404));
    assert_eq!(r.body, None);
    assert_eq!(post_response(true).status, StatusCode(200));
    assert_eq!(post_response(false).status, StatusCode(500));
}

#[test]
fn posted_bytes_are_read_back_by_get() {
    let dir = state("files/");
    let written = match handle(request("POST", "/note", Some(b"\x00\xffbytes")), &dir) {
        Action::WriteFile(p, b) => (p, b),
        _ => panic!(),
    };
    match handle(request("GET", "/note", Some(b"ignored")), &dir) {
        Action::ReadFile(p) => assert_eq!(p, written.0),
        _ => panic!(),
    }
    let r = get_response(Some(written.1.clone()));
    assert_eq!(r.status, StatusCode(200));
    assert_eq!(r.body, Some(b"\x00\xffbytes".to_vec()));
}

#[test]
fn plain_handler_strips_one_character() {
    match plain_handler::handle(request("GET", "/x/y", None)) {
        Action::ReadFile(p) => assert_eq!(p, "x/y"),
        _ => panic!(),
    }
    match plain_handler::handle(request("POST", "é/z", Some(b"q"))) {
        Action::WriteFile(p, b) => {
            assert_eq!(p, "/z");
            assert_eq!(b, b"q".to_vec());
        }
        _ => panic!(),
    }
    assert_eq!(
        respond(plain_handler::handle(request("POST", "/z", None))),
        (400, Some(b"empty message".to_vec()))
    );
    assert_eq!(skip_one_char(""), "");
    assert_eq!(skip_one_char("ab"), "b");
}

#[test]
fn file_responses() {
    let r = file_response::get_response(Some(b"12345678901".to_vec()));
    assert_eq!(r.status, StatusCode(200));
    assert_eq!(r.headers, vec![("content-length".to_string(), "11".to_string())]);
    assert_eq!(r.body, Some(b"12345678901".to_vec()));
    let r = file_response::get_response(None);
    assert_eq!(r.status, StatusCode(400));
    assert!(r.headers.is_empty());
    assert_eq!(file_response::post_response(WriteOutcome::NoBody).status, StatusCode(400));
    assert_eq!(file_response::post_response(WriteOutcome::Written).status, StatusCode(200));
    assert_eq!(file_response::post_response(WriteOutcome::Failed).status, StatusCode(500));
    assert!(file_response::post_response(WriteOutcome::Written).headers.is_empty());
}

#[test]
fn a_write_without_body_is_answered_at_once() {
    match file_response::post_step(None) {
        WriteStep::Answer(r) => {
            assert_eq!(r.status, StatusCode(400));
            assert!(r.headers.is_empty());
            assert!(r.body.is_none());
        }
        WriteStep::Write(_) => panic!("nothing may be written without a body"),
    }
    match file_response::post_step(Some(b"data".to_vec())) {
        WriteStep::Write(b) => assert_eq!(b, b"data".to_vec()),
        WriteStep::Answer(_) => panic!("a body is to be written"),
    }
}
