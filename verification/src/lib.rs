//! Core engine of an emoji picker: an immutable emoji catalog with
//! skin-tone variant families, tone resolution with fallback, free-text
//! search over names and shortcodes, a persisted personalization state
//! (preferred tone and deduplicated recents), and a debounced search
//! scheduler.

use vstd::prelude::*;

pub mod catalog;
pub mod codec;
pub mod config;
pub mod debounce;
pub mod search;
pub mod session;
pub mod source;
pub mod text;
pub mod tone;

verus! {

/// Application identifier; names the directory that holds the state file.
pub const APP_ID: &'static str = "org.sparklet.windot";

/// Relies on dirs::data_dir: the platform's data directory, when the
/// operating system reports one whose path is valid text. The answer
/// depends on the environment, so nothing more is promised of it.
#[verifier::external_body]
fn os_data_dir() -> (r: Option<String>) {
    dirs::data_dir().and_then(|p| p.into_os_string().into_string().ok())
}

/// `p` is the application's directory under the base directory `b`.
pub open spec fn is_app_data_dir(p: Seq<char>, b: Seq<char>) -> bool {
    p == b + "/"@ + APP_ID@
}

/// `p` is the state file under the base directory `b`.
pub open spec fn is_state_file_path(p: Seq<char>, b: Seq<char>) -> bool {
    p == b + "/"@ + APP_ID@ + "/state.json"@
}

/// The application's directory under a given base directory: the base
/// with `/` and the application identifier joined on. This is the one
/// place the data directory's layout is decided, and it is a pure
/// function of the base.
pub fn app_data_dir_of(base: String) -> (r: String)
    ensures
        r@ == base@ + "/"@ + APP_ID@,
{
    let mut path = base;
    path.append("/");
    path.append(APP_ID);
    path
}

/// The state file under a given application data directory: the
/// directory with `/state.json` joined on. This is the one fixed
/// storage location under a given base, so saving and loading meet at
/// the same file, and it is a pure function of the directory.
pub fn state_file_of(dir: String) -> (r: String)
    ensures
        r@ == dir@ + "/state.json"@,
{
    let mut path = dir;
    path.append("/state.json");
    path
}

/// The directory that holds this application's data: the platform
/// data directory, as the operating system reports it, with the
/// application identifier joined on by [`app_data_dir_of`]; nothing
/// when the platform reports no data directory.
pub fn user_data_dir() -> (r: Option<String>)
    ensures
        r matches Some(p) ==> exists|b: Seq<char>| #[trigger] is_app_data_dir(p@, b),
{
    match os_data_dir() {
        None => None,
        Some(base) => {
            let ghost b = base@;
            let path = app_data_dir_of(base);
            proof {
                assert(is_app_data_dir(path@, b));
            }
            let r = Some(path);
            proof {
                assert(r matches Some(p) ==> #[trigger] is_app_data_dir(p@, b));
            }
            r
        },
    }
}

/// Where the state file lives: [`state_file_of`] joined onto the
/// application's data directory; nothing when the platform reports no
/// data directory.
pub fn config_file_path() -> (r: Option<String>)
    ensures
        r matches Some(p) ==> exists|b: Seq<char>| #[trigger] is_state_file_path(p@, b),
{
    match user_data_dir() {
        None => None,
        Some(dir) => {
            let ghost d = dir@;
            let ghost b = choose|b: Seq<char>| is_app_data_dir(d, b);
            proof {
                assert(is_app_data_dir(d, b));
            }
            let path = state_file_of(dir);
            proof {
                assert(is_state_file_path(path@, b));
            }
            let r = Some(path);
            proof {
                assert(r matches Some(p) ==> #[trigger] is_state_file_path(p@, b));
            }
            r
        },
    }
}

} // verus!
