//! The mathematical model: entries, the actions that an operation asks of its
//! caller, and the world those actions change.

use vstd::prelude::*;

verus! {

/// One record of the history.
pub struct Entry {
    /// The mimetype under which the payload was copied.
    pub mimetype: Seq<char>,
    /// The payload itself, or for a binary-class entry the path of its blob file.
    pub payload: Seq<u8>,
}

/// What an operation asks its caller to do, as a mathematical value.
pub enum Action {
    /// Create or overwrite the blob file at `path` with `contents`.
    Save { path: Seq<u8>, contents: Seq<u8> },
    /// Delete the blob file at `path`.
    Delete { path: Seq<u8> },
    /// Put `contents` on the clipboard under `mimetype`.
    Offer { mimetype: Seq<char>, contents: Seq<u8> },
    /// Read the blob file at `path`, delete it, and put what was read on the
    /// clipboard under `mimetype`.
    Restore { mimetype: Seq<char>, path: Seq<u8> },
    /// Write `text` to the terminal.
    Print { text: Seq<u8> },
    /// Let the image renderer draw the blob file at `path` on the terminal.
    Render { path: Seq<u8> },
}

/// The part of the outside world that actions read and change.
pub struct World {
    /// The blob files: path to contents.
    pub blobs: Map<Seq<u8>, Seq<u8>>,
    /// What was last put on the clipboard, if anything was.
    pub clipboard: Option<Entry>,
}

impl Action {
    /// The action can be carried out in `w`: the file it reads or deletes exists.
    pub open spec fn possible(self, w: World) -> bool {
        match self {
            Action::Delete { path } => w.blobs.dom().contains(path),
            Action::Restore { path, .. } => w.blobs.dom().contains(path),
            Action::Render { path } => w.blobs.dom().contains(path),
            _ => true,
        }
    }

    /// The world after the action was carried out in `w`.
    pub open spec fn apply(self, w: World) -> World {
        match self {
            Action::Save { path, contents } => World { blobs: w.blobs.insert(path, contents), ..w },
            Action::Delete { path } => World { blobs: w.blobs.remove(path), ..w },
            Action::Offer { mimetype, contents } => World {
                clipboard: Some(Entry { mimetype, payload: contents }),
                ..w
            },
            Action::Restore { mimetype, path } => World {
                blobs: w.blobs.remove(path),
                clipboard: Some(Entry { mimetype, payload: w.blobs[path] }),
            },
            Action::Print { .. } => w,
            Action::Render { .. } => w,
        }
    }
}

/// The world after `actions` were carried out one after the other, from `w`.
pub open spec fn run(actions: Seq<Action>, w: World) -> World
    decreases actions.len(),
{
    if actions.len() == 0 {
        w
    } else {
        actions.last().apply(run(actions.drop_last(), w))
    }
}

/// Each of `actions` can be carried out when its turn comes, starting from `w`.
pub open spec fn runnable(actions: Seq<Action>, w: World) -> bool
    decreases actions.len(),
{
    if actions.len() == 0 {
        true
    } else {
        runnable(actions.drop_last(), w) && actions.last().possible(
            run(actions.drop_last(), w),
        )
    }
}

/// Running no action changes nothing and is always possible.
pub proof fn lemma_run_none(w: World)
    ensures
        run(Seq::empty(), w) == w,
        runnable(Seq::empty(), w),
{
}

/// Running a list of actions and one more is running the list, and the one
/// more in the world that the list leaves.
pub proof fn lemma_run_push(actions: Seq<Action>, a: Action, w: World)
    ensures
        run(actions.push(a), w) == a.apply(run(actions, w)),
        runnable(actions.push(a), w) == (runnable(actions, w) && a.possible(run(actions, w))),
{
    assert(actions.push(a).drop_last() =~= actions);
}

/// Running one action is applying it.
pub proof fn lemma_run_one(a: Action, w: World)
    ensures
        run(seq![a], w) == a.apply(w),
        runnable(seq![a], w) == a.possible(w),
{
    lemma_run_push(Seq::empty(), a, w);
    assert(seq![a] =~= Seq::<Action>::empty().push(a));
}

/// Running two lists one after the other is running the second in the world
/// that the first leaves.
pub proof fn lemma_run_concat(first: Seq<Action>, second: Seq<Action>, w: World)
    ensures
        run(first + second, w) == run(second, run(first, w)),
        runnable(first + second, w) == (runnable(first, w) && runnable(second, run(first, w))),
    decreases second.len(),
{
    if second.len() == 0 {
        assert(first + second =~= first);
    } else {
        lemma_run_concat(first, second.drop_last(), w);
        assert((first + second).drop_last() =~= first + second.drop_last());
        assert((first + second).last() == second.last());
    }
}

} // verus!
