//! The client's rules: the URL of a stored file, how a fetched file is
//! shown, and how many transfers run at once.

use vstd::prelude::*;
use vstd::string::StringExecFns;
use vstd::utf8::{decode_utf8, encode_utf8, valid_utf8};

use crate::config::default_address;
use crate::request::str_from_utf8;

verus! {

/// Where the server listens, as the client addresses it.
pub const SERVER_BASE_URL: &'static str = "127.0.0.1:23400";

/// How many transfers run at once.
pub const MAX_PARALLEL_REQUESTS: usize = 16;

/// The URL of the stored file `file`.
pub open spec fn url_spec(file: Seq<char>) -> Seq<char> {
    "http://"@ + SERVER_BASE_URL@ + "/"@ + file
}

/// The URL of the stored file `file`.
pub fn create_url(file: &str) -> (r: String)
    ensures
        r@ == url_spec(file@),
{
    let mut url = String::from_str("http://");
    url.append(SERVER_BASE_URL);
    url.append("/");
    url.append(file);
    url
}

/// What is shown in place of a file that is not UTF-8 text.
pub open spec fn non_text_notice() -> Seq<char> {
    "This file contains non-utf8"@
}

/// How a fetched file is shown: its text, or a notice when it is not UTF-8.
pub open spec fn file_message_spec(contents: Seq<u8>) -> Seq<char> {
    if valid_utf8(contents) {
        decode_utf8(contents)
    } else {
        non_text_notice()
    }
}

/// How a fetched file is shown.
pub fn file_message(contents: &[u8]) -> (r: String)
    ensures
        r@ == file_message_spec(contents@),
{
    match str_from_utf8(contents) {
        Some(text) => {
            proof {
                vstd::utf8::encode_utf8_decode_utf8(text@);
            }
            text.to_owned()
        },
        None => String::from_str("This file contains non-utf8"),
    }
}


/// The client addresses the server where it listens by default: every URL
/// it builds starts with `http://`, the server's default address and `/`.
pub proof fn lemma_client_reaches_default_server(file: Seq<char>)
    ensures
        url_spec(file) == "http://"@ + default_address() + "/"@ + file,
{
}

/// A file that is UTF-8 text is shown as that very text.
pub proof fn lemma_text_shown_as_is(text: Seq<char>)
    ensures
        file_message_spec(encode_utf8(text)) == text,
{
    vstd::utf8::encode_utf8_valid_utf8(text);
    vstd::utf8::encode_utf8_decode_utf8(text);
}

} // verus!
