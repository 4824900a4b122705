//! What holds of the history whatever is stored in it or taken from it.
//!
//! The laws are stated over the mathematical model that the contracts of
//! [`History`](crate::history::History) use, so each applies to every call
//! of the operation it is about.

use crate::history::{appended, evicted, selected, CAPACITY};
use crate::model::Entry;
use vstd::prelude::*;

verus! {

/// The history after each of `es` was appended in turn.
pub open spec fn appended_all(h: Seq<Entry>, es: Seq<Entry>) -> Seq<Entry>
    decreases es.len(),
{
    if es.len() == 0 {
        h
    } else {
        appended(appended_all(h, es.drop_last()), es.last())
    }
}

/// The newest `CAPACITY` entries of `s`, or all of `s` if it has fewer.
pub open spec fn newest(s: Seq<Entry>) -> Seq<Entry> {
    if s.len() > CAPACITY {
        s.subrange(s.len() - CAPACITY, s.len() as int)
    } else {
        s
    }
}

/// Appending to a history within its capacity leaves it within its
/// capacity: it grows by one entry until it is full and keeps its length from
/// there on. The new entry comes last.
pub proof fn law_append_bounded(h: Seq<Entry>, e: Entry)
    requires
        h.len() <= CAPACITY,
    ensures
        appended(h, e).len() <= CAPACITY,
        h.len() < CAPACITY ==> appended(h, e) == h.push(e) && evicted(h, e) is None,
        h.len() == CAPACITY ==> appended(h, e).len() == CAPACITY,
        appended(h, e).last() == e,
{
}

/// Appending to a full history evicts the oldest entry and no other: each
/// entry that stays moves down by one place, and the new entry comes last.
pub proof fn law_append_evicts_oldest(h: Seq<Entry>, e: Entry)
    requires
        h.len() == CAPACITY,
    ensures
        evicted(h, e) == Some(h[0]),
        appended(h, e).len() == CAPACITY,
        forall|i: int| 0 <= i < CAPACITY - 1 ==> #[trigger] appended(h, e)[i] == h[i + 1],
        appended(h, e)[CAPACITY - 1] == e,
{
}

/// However many entries are appended to a history within its capacity, it
/// stays within its capacity.
pub proof fn law_append_all_bounded(h: Seq<Entry>, es: Seq<Entry>)
    requires
        h.len() <= CAPACITY,
    ensures
        appended_all(h, es).len() <= CAPACITY,
    decreases es.len(),
{
    if es.len() > 0 {
        law_append_all_bounded(h, es.drop_last());
    }
}

/// After any run of appends the history holds the newest entries of what it
/// held and what was appended, in their order, and nothing else.
pub proof fn law_append_all_keeps_newest(h: Seq<Entry>, es: Seq<Entry>)
    requires
        h.len() <= CAPACITY,
    ensures
        appended_all(h, es) == newest(h + es),
    decreases es.len(),
{
    if es.len() == 0 {
        assert(h + es =~= h);
    } else {
        let front = es.drop_last();
        law_append_all_keeps_newest(h, front);
        let mid = appended_all(h, front);
        assert(mid == newest(h + front));
        assert((h + front).push(es.last()) =~= h + es);
        assert(appended(mid, es.last()) =~= newest(h + es));
    }
}

/// Taking the entry that a selector names shortens the history by exactly
/// one: the entries before it stay where they are, and each entry after it
/// moves down by one place.
pub proof fn law_take_shifts(h: Seq<Entry>, selector: Seq<char>)
    requires
        selected(h.len(), selector) is Some,
    ensures
        ({
            let i = selected(h.len(), selector).unwrap() as int;
            let rest = h.remove(i);
            &&& 0 <= i < h.len()
            &&& rest.len() == h.len() - 1
            &&& forall|j: int| 0 <= j < i ==> #[trigger] rest[j] == h[j]
            &&& forall|j: int| i <= j < rest.len() ==> #[trigger] rest[j] == h[j + 1]
        }),
{
}

} // verus!
