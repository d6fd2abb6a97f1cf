//! The server's settings: where files are stored, where it listens, and
//! how long a connection may take.

use vstd::prelude::*;
use vstd::string::StringExecFns;

use crate::handler::AppState;

verus! {

/// The environment variable that names the listening address.
pub const SERVER_ADDRESS_ENVIRONMENT_VARIABLE: &'static str = "MARQUITO_ADDRESS";

/// The environment variable that names the storage directory.
pub const STORAGE_DIRECTORY_ENVIRONMENT_VARIABLE: &'static str = "MARQUITO_DIRECTORY";

/// How many seconds a connection may take before it is dropped.
pub const TIMEOUT_SECONDS: u64 = 5;

/// The listening address when none is set.
pub open spec fn default_address() -> Seq<char> {
    "127.0.0.1:23400"@
}

/// The storage directory when none is set.
pub open spec fn default_directory() -> Seq<char> {
    "files/"@
}

/// The listening address: the one set, or the default.
pub fn server_address(set: Option<String>) -> (r: String)
    ensures
        r@ == match set {
            Some(a) => a@,
            None => default_address(),
        },
{
    match set {
        Some(a) => a,
        None => String::from_str("127.0.0.1:23400"),
    }
}

/// The state of the server: the storage directory set, or the default.
pub fn app_state(directory: Option<String>) -> (r: AppState)
    ensures
        r.directory@ == match directory {
            Some(d) => d@,
            None => default_directory(),
        },
{
    match directory {
        Some(d) => AppState { directory: d },
        None => AppState { directory: String::from_str("files/") },
    }
}

} // verus!
