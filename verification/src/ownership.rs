//! The tie between the history and the blob files: each binary-class entry
//! owns one file, which exists for as long as the entry does.

use crate::decimal::decimal_bytes;
use crate::history::{
    appended, evicted, line_actions, print_actions, release_actions, store_actions, store_error,
    stored_entry, take_actions, wipe_actions, CAPACITY,
};
use crate::image::{blob_path, lemma_next_path_fresh, next_number, numbered_path};
use crate::mime::is_binary;
use crate::model::{
    lemma_run_concat, lemma_run_none, lemma_run_one, lemma_run_push, run, runnable, Action, Entry,
    World,
};
use vstd::prelude::*;

verus! {

/// The blob file that `e` refers to exists in `w`.
pub open spec fn has_file(e: Entry, w: World) -> bool {
    w.blobs.dom().contains(e.payload)
}

/// Every binary-class entry of `h` refers to a blob file that exists in `w`,
/// and no two of them refer to the same file.
pub open spec fn owned(h: Seq<Entry>, w: World) -> bool {
    &&& forall|i: int|
        0 <= i < h.len() && is_binary((#[trigger] h[i]).mimetype) ==> has_file(h[i], w)
    &&& forall|i: int, j: int|
        0 <= i < j < h.len() && is_binary((#[trigger] h[i]).mimetype) && is_binary(
            (#[trigger] h[j]).mimetype,
        ) ==> h[i].payload != h[j].payload
}

/// The listing `names` of the directory `dir` leaves out no blob file of `w`.
pub open spec fn listed(dir: Seq<u8>, names: Seq<Seq<u8>>, w: World) -> bool {
    forall|p: Seq<u8>| #[trigger]
        w.blobs.dom().contains(p) ==> exists|k: int|
            0 <= k < names.len() && p == blob_path(dir, #[trigger] names[k])
}

/// The path that a binary-class snapshot is stored under is not in use.
pub proof fn lemma_stored_path_unused(dir: Seq<u8>, names: Seq<Seq<u8>>, w: World)
    requires
        listed(dir, names, w),
    ensures
        !w.blobs.dom().contains(numbered_path(dir, next_number(names))),
{
    let p = numbered_path(dir, next_number(names));
    if w.blobs.dom().contains(p) {
        let k = choose|k: int| 0 <= k < names.len() && p == blob_path(dir, #[trigger] names[k]);
        lemma_next_path_fresh(dir, names, k);
    }
}

/// Storing keeps the ownership: what it asks for can be carried out, and
/// afterwards every binary-class entry again owns an existing file, the new
/// entry a new file that holds the snapshot's contents. The file of an
/// evicted binary-class entry is gone with it.
pub proof fn law_store_keeps_ownership(
    h: Seq<Entry>,
    mimetype: Seq<char>,
    contents: Seq<u8>,
    dir: Seq<u8>,
    names: Seq<Seq<u8>>,
    w: World,
)
    requires
        h.len() <= CAPACITY,
        owned(h, w),
        listed(dir, names, w),
        store_error(mimetype, names) is None,
    ensures
        ({
            let e = stored_entry(mimetype, contents, dir, names);
            let asked = store_actions(h, mimetype, contents, dir, names);
            let after = run(asked, w);
            &&& runnable(asked, w)
            &&& owned(appended(h, e), after)
            &&& after.clipboard == w.clipboard
            &&& is_binary(mimetype) ==> !w.blobs.dom().contains(e.payload)
                && after.blobs.dom().contains(e.payload) && after.blobs[e.payload] == contents
            &&& match evicted(h, e) {
                Some(gone) => is_binary(gone.mimetype) ==> !after.blobs.dom().contains(
                    gone.payload,
                ),
                None => true,
            }
        }),
{
    let e = stored_entry(mimetype, contents, dir, names);
    let gone = evicted(h, e);
    let save = if is_binary(mimetype) {
        seq![Action::Save { path: e.payload, contents }]
    } else {
        Seq::empty()
    };
    let release = release_actions(gone);
    let mid = run(save, w);
    let after = run(release, mid);
    let h1 = appended(h, e);
    lemma_run_concat(save, release, w);
    if is_binary(mimetype) {
        lemma_stored_path_unused(dir, names, w);
        lemma_run_one(Action::Save { path: e.payload, contents }, w);
        assert(mid.blobs == w.blobs.insert(e.payload, contents));
    } else {
        lemma_run_none(w);
        assert(mid == w);
    }
    assert(runnable(save, w));
    assert(forall|p: Seq<u8>| w.blobs.dom().contains(p) ==> mid.blobs.dom().contains(p));
    if h.len() == CAPACITY {
        assert(gone == Some(h[0]));
        assert(h1 =~= h.drop_first().push(e));
        if is_binary(h[0].mimetype) {
            let old_path = h[0].payload;
            assert(release == seq![Action::Delete { path: old_path }]);
            lemma_run_one(Action::Delete { path: old_path }, mid);
            assert(w.blobs.dom().contains(old_path));
            assert(after.blobs == mid.blobs.remove(old_path));
            assert forall|i: int|
                0 <= i < h1.len() && is_binary((#[trigger] h1[i]).mimetype) implies has_file(
                h1[i],
                after,
            ) by {
                if i < h1.len() - 1 {
                    assert(h1[i] == h[i + 1]);
                    assert(h[0].payload != h[i + 1].payload);
                }
            }
        } else {
            lemma_run_none(mid);
            assert(release =~= Seq::<Action>::empty());
            assert forall|i: int|
                0 <= i < h1.len() && is_binary((#[trigger] h1[i]).mimetype) implies has_file(
                h1[i],
                after,
            ) by {
                if i < h1.len() - 1 {
                    assert(h1[i] == h[i + 1]);
                }
            }
        }
        assert forall|i: int, j: int|
            0 <= i < j < h1.len() && is_binary((#[trigger] h1[i]).mimetype) && is_binary(
                (#[trigger] h1[j]).mimetype,
            ) implies h1[i].payload != h1[j].payload by {
            assert(h1[i] == h[i + 1]);
            if j < h1.len() - 1 {
                assert(h1[j] == h[j + 1]);
            }
        }
    } else {
        assert(gone is None);
        lemma_run_none(mid);
        assert(release =~= Seq::<Action>::empty());
        assert(h1 == h.push(e));
        assert forall|i: int|
            0 <= i < h1.len() && is_binary((#[trigger] h1[i]).mimetype) implies has_file(
            h1[i],
            after,
        ) by {
            if i < h.len() {
                assert(h1[i] == h[i]);
            }
        }
        assert forall|i: int, j: int|
            0 <= i < j < h1.len() && is_binary((#[trigger] h1[i]).mimetype) && is_binary(
                (#[trigger] h1[j]).mimetype,
            ) implies h1[i].payload != h1[j].payload by {
            assert(h1[i] == h[i]);
            if j < h.len() {
                assert(h1[j] == h[j]);
            }
        }
    }
}

/// Taking keeps the ownership: what it asks for can be carried out; the
/// clipboard then holds the entry's mimetype and its payload, read from the
/// blob file for a binary-class entry; that file is gone and no other file
/// is touched; and every entry that stays still owns its file.
pub proof fn law_take_keeps_ownership(h: Seq<Entry>, i: int, w: World)
    requires
        owned(h, w),
        0 <= i < h.len(),
    ensures
        ({
            let e = h[i];
            let after = run(take_actions(e), w);
            &&& runnable(take_actions(e), w)
            &&& owned(h.remove(i), after)
            &&& is_binary(e.mimetype) ==> after.clipboard == Some(
                Entry { mimetype: e.mimetype, payload: w.blobs[e.payload] },
            ) && after.blobs == w.blobs.remove(e.payload)
            &&& !is_binary(e.mimetype) ==> after.clipboard == Some(e) && after.blobs == w.blobs
        }),
{
    let e = h[i];
    let rest = h.remove(i);
    let after = run(take_actions(e), w);
    if is_binary(e.mimetype) {
        lemma_run_one(Action::Restore { mimetype: e.mimetype, path: e.payload }, w);
    } else {
        lemma_run_one(Action::Offer { mimetype: e.mimetype, contents: e.payload }, w);
    }
    assert forall|j: int|
        0 <= j < rest.len() && is_binary((#[trigger] rest[j]).mimetype) implies has_file(
        rest[j],
        after,
    ) by {
        if j < i {
            assert(rest[j] == h[j]);
        } else {
            assert(rest[j] == h[j + 1]);
        }
    }
    assert forall|j: int, k: int|
        0 <= j < k < rest.len() && is_binary((#[trigger] rest[j]).mimetype) && is_binary(
            (#[trigger] rest[k]).mimetype,
        ) implies rest[j].payload != rest[k].payload by {
        let jj = if j < i {
            j
        } else {
            j + 1
        };
        let kk = if k < i {
            k
        } else {
            k + 1
        };
        assert(rest[j] == h[jj]);
        assert(rest[k] == h[kk]);
    }
}

/// Round trip: a binary-class snapshot that is stored and taken again at
/// once, as the newest entry, comes back on the clipboard with its mimetype
/// and the very bytes that were stored, and its blob file is gone.
pub proof fn law_store_then_take(
    h: Seq<Entry>,
    mimetype: Seq<char>,
    contents: Seq<u8>,
    dir: Seq<u8>,
    names: Seq<Seq<u8>>,
    w: World,
)
    requires
        h.len() <= CAPACITY,
        owned(h, w),
        listed(dir, names, w),
        is_binary(mimetype),
        store_error(mimetype, names) is None,
    ensures
        ({
            let e = stored_entry(mimetype, contents, dir, names);
            let h1 = appended(h, e);
            let w1 = run(store_actions(h, mimetype, contents, dir, names), w);
            let newest = h1.len() - 1;
            let w2 = run(take_actions(h1[newest]), w1);
            &&& h1[newest] == e
            &&& runnable(store_actions(h, mimetype, contents, dir, names), w)
            &&& runnable(take_actions(h1[newest]), w1)
            &&& w2.clipboard == Some(Entry { mimetype, payload: contents })
            &&& !w2.blobs.dom().contains(e.payload)
            &&& owned(h1.remove(newest), w2)
        }),
{
    let e = stored_entry(mimetype, contents, dir, names);
    let h1 = appended(h, e);
    let w1 = run(store_actions(h, mimetype, contents, dir, names), w);
    law_store_keeps_ownership(h, mimetype, contents, dir, names, w);
    law_take_keeps_ownership(h1, h1.len() - 1, w1);
}

/// The world after the listed files of a directory were deleted: a file is
/// left exactly if it was there and is not listed, with its contents.
pub proof fn lemma_wipe(dir: Seq<u8>, names: Seq<Seq<u8>>, w: World)
    ensures
        ({
            let after = run(wipe_actions(dir, names), w);
            &&& after.clipboard == w.clipboard
            &&& forall|p: Seq<u8>| #[trigger]
                after.blobs.dom().contains(p) <==> w.blobs.dom().contains(p) && !exists|k: int|
                    0 <= k < names.len() && p == blob_path(dir, #[trigger] names[k])
        }),
    decreases names.len(),
{
    let asked = wipe_actions(dir, names);
    if names.len() == 0 {
        assert(asked =~= Seq::<Action>::empty());
    } else {
        let front = names.drop_last();
        let last = Action::Delete { path: blob_path(dir, names.last()) };
        lemma_wipe(dir, front, w);
        assert(asked =~= wipe_actions(dir, front).push(last));
        lemma_run_push(wipe_actions(dir, front), last, w);
        let mid = run(wipe_actions(dir, front), w);
        let after = run(asked, w);
        assert(after.blobs == mid.blobs.remove(blob_path(dir, names.last())));
        assert forall|p: Seq<u8>| #[trigger]
            after.blobs.dom().contains(p) <==> w.blobs.dom().contains(p) && !exists|k: int|
                0 <= k < names.len() && p == blob_path(dir, #[trigger] names[k]) by {
            if exists|k: int| 0 <= k < names.len() && p == blob_path(dir, #[trigger] names[k]) {
                let k = choose|k: int|
                    0 <= k < names.len() && p == blob_path(dir, #[trigger] names[k]);
                if k < front.len() {
                    assert(front[k] == names[k]);
                }
            } else {
                if exists|k: int| 0 <= k < front.len() && p == blob_path(dir, #[trigger] front[k]) {
                    let k = choose|k: int|
                        0 <= k < front.len() && p == blob_path(dir, #[trigger] front[k]);
                    assert(front[k] == names[k]);
                }
                assert(p != blob_path(dir, names[names.len() - 1]));
            }
        }
    }
}

/// Clearing leaves the blob directory empty, whatever the history held: once
/// every file of a full listing is deleted, no blob file is left.
pub proof fn law_clear_empties(dir: Seq<u8>, names: Seq<Seq<u8>>, w: World)
    requires
        listed(dir, names, w),
    ensures
        run(wipe_actions(dir, names), w).blobs == Map::<Seq<u8>, Seq<u8>>::empty(),
        run(wipe_actions(dir, names), w).clipboard == w.clipboard,
        owned(Seq::<Entry>::empty(), run(wipe_actions(dir, names), w)),
{
    lemma_wipe(dir, names, w);
    let after = run(wipe_actions(dir, names), w);
    assert forall|p: Seq<u8>| !after.blobs.dom().contains(p) by {
        if after.blobs.dom().contains(p) {
            assert(w.blobs.dom().contains(p));
        }
    }
    assert(after.blobs =~= Map::<Seq<u8>, Seq<u8>>::empty());
}

/// Showing the history changes nothing in the world, and can be carried out
/// whenever every binary-class entry has its blob file.
pub proof fn law_print_changes_nothing(h: Seq<Entry>, w: World)
    ensures
        run(print_actions(h), w) == w,
        owned(h, w) ==> runnable(print_actions(h), w),
    decreases h.len(),
{
    if h.len() > 0 {
        let front = h.drop_last();
        let e = h.last();
        let index = (h.len() - 1) as nat;
        law_print_changes_nothing(front, w);
        lemma_run_concat(print_actions(front), line_actions(index, e), w);
        if is_binary(e.mimetype) {
            let label = Action::Print { text: decimal_bytes(index) + seq![58u8, 10u8] };
            let render = Action::Render { path: e.payload };
            lemma_run_one(label, w);
            lemma_run_push(seq![label], render, w);
            assert(line_actions(index, e) =~= seq![label].push(render));
        } else {
            lemma_run_one(line_actions(index, e)[0], w);
            assert(line_actions(index, e) =~= seq![line_actions(index, e)[0]]);
        }
        if owned(h, w) {
            assert(forall|i: int| 0 <= i < front.len() ==> front[i] == h[i]);
            assert(owned(front, w));
            assert(h[h.len() - 1] == e);
        }
    }
}

} // verus!
