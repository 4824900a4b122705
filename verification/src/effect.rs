//! The effects that an operation hands to its caller.

use crate::model::Action;
use vstd::prelude::*;

verus! {

/// One thing for the caller to do to the outside world. The caller carries
/// out the effects of an operation in the order given and stops at the first
/// that fails.
#[derive(Debug, PartialEq, Eq)]
pub enum Effect {
    /// Create or overwrite the blob file at `path` with `contents`.
    Save { path: Vec<u8>, contents: Vec<u8> },
    /// Delete the blob file at `path`.
    Delete { path: Vec<u8> },
    /// Put `contents` on the clipboard under `mimetype`.
    Offer { mimetype: String, contents: Vec<u8> },
    /// Read the blob file at `path`, delete it, and put what was read on the
    /// clipboard under `mimetype`, in this order.
    Restore { mimetype: String, path: Vec<u8> },
    /// Write `text` to the terminal.
    Print { text: Vec<u8> },
    /// Let the image renderer draw the blob file at `path` on the terminal.
    Render { path: Vec<u8> },
}

impl View for Effect {
    type V = Action;

    open spec fn view(&self) -> Action {
        match *self {
            Effect::Save { path, contents } => Action::Save { path: path@, contents: contents@ },
            Effect::Delete { path } => Action::Delete { path: path@ },
            Effect::Offer { mimetype, contents } => Action::Offer {
                mimetype: mimetype@,
                contents: contents@,
            },
            Effect::Restore { mimetype, path } => Action::Restore {
                mimetype: mimetype@,
                path: path@,
            },
            Effect::Print { text } => Action::Print { text: text@ },
            Effect::Render { path } => Action::Render { path: path@ },
        }
    }
}

/// The actions that a list of effects stands for.
pub open spec fn actions(effects: Seq<Effect>) -> Seq<Action> {
    effects.map_values(|e: Effect| e@)
}

} // verus!
