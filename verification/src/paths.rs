//! Where the store lives: fixed places below the user's home directory.

use vstd::prelude::*;
use vstd::string::StringExecFns;

verus! {

/// The places of the store, worked out once from the home directory and
/// handed to whoever reads or writes them.
#[derive(Debug, PartialEq, Eq)]
pub struct Paths {
    /// The file that holds the persisted history.
    pub history: String,
    /// The directory that holds the blob files.
    pub images: String,
    /// The shell command that watches the clipboard and stores each change.
    pub watcher: String,
}

impl Paths {
    /// The places of the store of the user whose home directory is `home`.
    pub fn new(home: &str) -> (paths: Paths)
        ensures
            paths.history@ == home@ + "/.clipsway/history.ron"@,
            paths.images@ == home@ + "/.clipsway/images"@,
            paths.watcher@ == "wl-paste -w "@ + home@ + "/.clipsway/clipsway --store"@,
    {
        let history = String::from_str(home).concat("/.clipsway/history.ron");
        let images = String::from_str(home).concat("/.clipsway/images");
        let watcher = String::from_str("wl-paste -w ").concat(home).concat(
            "/.clipsway/clipsway --store",
        );
        Paths { history, images, watcher }
    }
}

} // verus!
