//! What this crate asks of the machine it runs on. Each answer depends on
//! the state of the machine (the environment, the file system), so no
//! contract here says what comes back: the functions that use them state
//! what holds whatever the answer was.
use vstd::prelude::*;

verus! {

/// Whether `path` names an existing directory, through
/// `std::path::Path::is_dir`. The answer depends on the file system at the
/// moment of the call; nothing is promised of it.
#[verifier::external_body]
pub fn path_is_dir(path: &str) -> bool {
    std::path::Path::new(path).is_dir()
}

/// The current user's home folder through `dirs::home_dir`, converted to a
/// string as `Path::to_string_lossy` does. The answer depends on the
/// environment (`$HOME` and the user database); nothing is promised of it.
#[verifier::external_body]
pub fn home_dir_text() -> Option<String> {
    dirs::home_dir().map(|p| p.to_string_lossy().to_string())
}

} // verus!
