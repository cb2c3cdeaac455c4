//! The program's options, as values.
use vstd::prelude::*;
use crate::z7::path_joined;

verus! {

/// The archive to work on, as an absolute path.
#[derive(Debug)]
pub struct FilePath {
    pub file: String,
}

/// What the program is started with.
#[derive(Debug)]
pub struct Options {
    pub file: FilePath,
    pub password_history_file: String,
}

impl FilePath {
    /// The path `file` taken from the directory `current_dir`.
    pub fn new(current_dir: &str, file: &str) -> (r: FilePath)
        ensures
            r.file@ == path_joined(current_dir@, file@),
    {
        FilePath { file: crate::z7::joined(current_dir, file) }
    }
}

/// The password history file under the home directory `home`:
/// `.config/7zvui/password_history.txt`.
pub fn default_password_history_file(home: &str) -> (r: String)
    ensures
        r@ == path_joined(path_joined(path_joined(home@, ".config"@), "7zvui"@), "password_history.txt"@),
{
    let a = crate::z7::joined(home, ".config");
    let b = crate::z7::joined(a.as_str(), "7zvui");
    crate::z7::joined(b.as_str(), "password_history.txt")
}

} // verus!
