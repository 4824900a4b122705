//! A bounded clipboard history.
//!
//! The crate keeps the rules of the history and leaves every contact with the
//! outside world to its caller: operations take plain values (the clipboard
//! snapshot, the names found in the blob directory) and answer with the new
//! history and a list of [`Effect`]s for the caller to carry out.

pub mod clipboard;
pub mod decimal;
pub mod effect;
pub mod error;
pub mod history;
pub mod image;
pub mod laws;
pub mod mime;
pub mod model;
pub mod ownership;
pub mod paths;

pub use clipboard::Clipboard;
pub use effect::Effect;
pub use error::HistoryError;
pub use history::{History, CAPACITY};
pub use image::Image;
pub use mime::{classify, Class};
pub use paths::Paths;
