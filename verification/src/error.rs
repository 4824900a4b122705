//! The ways in which an operation on the history can fail.

use vstd::prelude::*;
use vstd::string::StringExecFns;

verus! {

/// An error that the history reports to its caller. No operation that fails
/// changes the history.
#[derive(Clone, Copy, Debug, PartialEq, Eq, Structural)]
pub enum HistoryError {
    /// The persisted history is not one that this library could have written.
    CorruptStore,
    /// The selector of a take names no entry of the history.
    IndexOutOfRange,
    /// A file in the blob directory has a name that is not a numeral.
    CorruptBlobName,
    /// The next blob number does not fit in a machine integer.
    BlobNumbersExhausted,
}

impl HistoryError {
    /// A one-line description for the user.
    pub fn message(&self) -> (text: String)
        ensures
            text@ == match *self {
                HistoryError::CorruptStore => "history store is corrupt"@,
                HistoryError::IndexOutOfRange => "no such history entry"@,
                HistoryError::CorruptBlobName => "blob directory holds a non-numeric file name"@,
                HistoryError::BlobNumbersExhausted => "blob numbers are exhausted"@,
            },
    {
        match self {
            HistoryError::CorruptStore => String::from_str("history store is corrupt"),
            HistoryError::IndexOutOfRange => String::from_str("no such history entry"),
            HistoryError::CorruptBlobName => String::from_str(
                "blob directory holds a non-numeric file name",
            ),
            HistoryError::BlobNumbersExhausted => String::from_str("blob numbers are exhausted"),
        }
    }
}

} // verus!
