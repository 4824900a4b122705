//! The clipboard as the history sees it: a mimetype and a payload.

use vstd::prelude::*;
use vstd::string::StringExecFns;

verus! {

/// The mimetype of plain text.
pub open spec fn plain_text() -> Seq<char> {
    seq!['t', 'e', 'x', 't', '/', 'p', 'l', 'a', 'i', 'n']
}

/// The live clipboard.
pub struct Clipboard;

impl Clipboard {
    /// The snapshot to store, given what reading the clipboard gave: the
    /// mimetype and payload that were read, or empty plain text where the
    /// clipboard was empty or could not be read. An unreadable clipboard is
    /// no error.
    pub fn get(read: Option<(String, Vec<u8>)>) -> (snapshot: (String, Vec<u8>))
        ensures
            match read {
                Some(pair) => snapshot == pair,
                None => snapshot.0@ == plain_text() && snapshot.1@ == Seq::<u8>::empty(),
            },
    {
        match read {
            Some(pair) => pair,
            None => {
                proof {
                    reveal_strlit("text/plain");
                    assert("text/plain"@ =~= plain_text());
                }
                (String::from_str("text/plain"), Vec::new())
            },
        }
    }
}

} // verus!
