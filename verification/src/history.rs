//! The history store: an ordered, bounded sequence of entries, oldest first.

use crate::decimal::{decimal_bytes, parse_text, push_decimal, text_is_numeral, text_value};
use crate::effect::{actions, Effect};
use crate::error::HistoryError;
use crate::image::{blob_path, names_of, next_number, number_error, numbered_path, Image};
use crate::mime::{classify, is_binary, Class};
use crate::model::{Action, Entry};
use vstd::prelude::*;
use vstd::slice::slice_to_vec;
use vstd::string::StrSliceExecFns;

verus! {

/// The largest number of entries that a history holds.
pub const CAPACITY: usize = 1000;

/// The entry that a stored pair stands for.
pub open spec fn entry_of(pair: (String, Vec<u8>)) -> Entry {
    Entry { mimetype: pair.0@, payload: pair.1@ }
}

/// The entries that a list of stored pairs stands for.
pub open spec fn entries_of(pairs: Seq<(String, Vec<u8>)>) -> Seq<Entry> {
    pairs.map_values(|pair: (String, Vec<u8>)| entry_of(pair))
}

/// The history after `e` was appended: `e` comes last, and the oldest entry
/// leaves if the history would otherwise exceed its capacity.
pub open spec fn appended(h: Seq<Entry>, e: Entry) -> Seq<Entry> {
    let all = h.push(e);
    if all.len() > CAPACITY {
        all.drop_first()
    } else {
        all
    }
}

/// The entry that leaves when `e` is appended, if one does.
pub open spec fn evicted(h: Seq<Entry>, e: Entry) -> Option<Entry> {
    let all = h.push(e);
    if all.len() > CAPACITY {
        Some(all.first())
    } else {
        None
    }
}

/// The selector that names the newest entry.
pub open spec fn last_token() -> Seq<char> {
    seq!['l', 'a', 's', 't']
}

/// The index that a selector names in a history of `len` entries: the newest
/// entry for `last`, the entry with that index for a numeral below `len`, and
/// none otherwise.
pub open spec fn selected(len: nat, selector: Seq<char>) -> Option<nat> {
    if selector == last_token() {
        if len > 0 {
            Some((len - 1) as nat)
        } else {
            None
        }
    } else if text_is_numeral(selector) && text_value(selector) < len {
        Some(text_value(selector))
    } else {
        None
    }
}

/// The entry that a clipboard snapshot is stored as: inline, or for a
/// binary-class mimetype as the path of the next blob.
pub open spec fn stored_entry(
    mimetype: Seq<char>,
    contents: Seq<u8>,
    dir: Seq<u8>,
    names: Seq<Seq<u8>>,
) -> Entry {
    if is_binary(mimetype) {
        Entry { mimetype, payload: numbered_path(dir, next_number(names)) }
    } else {
        Entry { mimetype, payload: contents }
    }
}

/// Why a snapshot cannot be stored, if that is so: only a binary-class
/// snapshot needs a blob number and can fail for want of one.
pub open spec fn store_error(mimetype: Seq<char>, names: Seq<Seq<u8>>) -> Option<HistoryError> {
    if is_binary(mimetype) {
        number_error(names)
    } else {
        None
    }
}

/// What is left to do when an entry has left the history for good: delete
/// its blob file, if it has one.
pub open spec fn release_actions(gone: Option<Entry>) -> Seq<Action> {
    match gone {
        Some(e) if is_binary(e.mimetype) => seq![Action::Delete { path: e.payload }],
        _ => Seq::empty(),
    }
}

/// What storing a snapshot asks of the caller: save the blob of a
/// binary-class snapshot, and release the entry that left, in this order.
pub open spec fn store_actions(
    h: Seq<Entry>,
    mimetype: Seq<char>,
    contents: Seq<u8>,
    dir: Seq<u8>,
    names: Seq<Seq<u8>>,
) -> Seq<Action> {
    let e = stored_entry(mimetype, contents, dir, names);
    let save = if is_binary(mimetype) {
        seq![Action::Save { path: e.payload, contents }]
    } else {
        Seq::empty()
    };
    save + release_actions(evicted(h, e))
}

/// What taking the entry `e` asks of the caller: put its payload on the
/// clipboard, for a binary-class entry from its blob file, which is deleted.
pub open spec fn take_actions(e: Entry) -> Seq<Action> {
    if is_binary(e.mimetype) {
        seq![Action::Restore { mimetype: e.mimetype, path: e.payload }]
    } else {
        seq![Action::Offer { mimetype: e.mimetype, contents: e.payload }]
    }
}

/// What clearing asks of the caller: delete every listed file of the blob directory.
pub open spec fn wipe_actions(dir: Seq<u8>, names: Seq<Seq<u8>>) -> Seq<Action> {
    names.map_values(|name: Seq<u8>| Action::Delete { path: blob_path(dir, name) })
}

/// How the entry at `index` is shown: its index and a colon, then the text of
/// an inline entry on the same line, or the rendering of a binary-class one below.
pub open spec fn line_actions(index: nat, e: Entry) -> Seq<Action> {
    if is_binary(e.mimetype) {
        seq![
            Action::Print { text: decimal_bytes(index) + seq![58u8, 10u8] },
            Action::Render { path: e.payload },
        ]
    } else {
        seq![
            Action::Print {
                text: decimal_bytes(index) + seq![58u8, 32u8] + e.payload + seq![10u8],
            },
        ]
    }
}

/// How a whole history is shown: entry by entry, oldest first.
pub open spec fn print_actions(h: Seq<Entry>) -> Seq<Action>
    decreases h.len(),
{
    if h.len() == 0 {
        Seq::empty()
    } else {
        print_actions(h.drop_last()) + line_actions((h.len() - 1) as nat, h.last())
    }
}

/// The history of clipboard entries. It never holds more than [`CAPACITY`] entries.
pub struct History {
    entries: Vec<(String, Vec<u8>)>,
}

impl View for History {
    type V = Seq<Entry>;

    closed spec fn view(&self) -> Seq<Entry> {
        entries_of(self.entries@)
    }
}

/// Whether `val` is the selector `last`.
fn is_last(val: &str) -> (b: bool)
    ensures
        b == (val@ == last_token()),
{
    if val.unicode_len() != 4 {
        return false;
    }
    let b = val.get_char(0) == 'l' && val.get_char(1) == 'a' && val.get_char(2) == 's'
        && val.get_char(3) == 't';
    proof {
        if b {
            assert(val@ =~= last_token());
        }
    }
    b
}

impl History {
    #[verifier::type_invariant]
    spec fn bounded(&self) -> bool {
        self.entries@.len() <= CAPACITY
    }

    /// Moves the entries out and leaves the history empty, for the caller
    /// to change them and put them back.
    fn lift(&mut self) -> (entries: Vec<(String, Vec<u8>)>)
        ensures
            entries == old(self).entries,
            final(self).entries@.len() == 0,
    {
        let mut entries: Vec<(String, Vec<u8>)> = Vec::new();
        core::mem::swap(&mut self.entries, &mut entries);
        entries
    }

    /// The history without entries.
    pub fn empty() -> (h: History)
        ensures
            h@ == Seq::<Entry>::empty(),
    {
        let h = History { entries: Vec::new() };
        proof {
            assert(h@ =~= Seq::<Entry>::empty());
        }
        h
    }

    /// The history that holds `pairs`, oldest first, as they were read from
    /// the persisted store. More pairs than the capacity allows are a corrupt store.
    pub fn new(pairs: Vec<(String, Vec<u8>)>) -> (r: Result<History, HistoryError>)
        ensures
            match r {
                Ok(h) => pairs@.len() <= CAPACITY && h@ == entries_of(pairs@),
                Err(e) => pairs@.len() > CAPACITY && e == HistoryError::CorruptStore,
            },
    {
        if pairs.len() > CAPACITY {
            Err(HistoryError::CorruptStore)
        } else {
            Ok(History { entries: pairs })
        }
    }

    /// The number of entries.
    pub fn len(&self) -> (n: usize)
        ensures
            n == self@.len(),
            n <= CAPACITY,
    {
        proof {
            use_type_invariant(self);
        }
        self.entries.len()
    }

    /// The entries as pairs of mimetype and payload, oldest first: what the
    /// persisted store holds.
    pub fn entries(&self) -> (pairs: Vec<(String, Vec<u8>)>)
        ensures
            entries_of(pairs@) == self@,
    {
        let mut pairs: Vec<(String, Vec<u8>)> = Vec::new();
        let mut i: usize = 0;
        while i < self.entries.len()
            invariant
                i <= self.entries@.len(),
                pairs@.len() == i,
                forall|j: int| 0 <= j < i ==> entry_of(#[trigger] pairs@[j]) == entry_of(
                    self.entries@[j],
                ),
            decreases self.entries@.len() - i,
        {
            let mimetype = self.entries[i].0.clone();
            let payload = slice_to_vec(self.entries[i].1.as_slice());
            pairs.push((mimetype, payload));
            i = i + 1;
        }
        proof {
            assert(entries_of(pairs@) =~= self@);
        }
        pairs
    }

    /// Appends an entry. When the history is full the oldest entry makes room
    /// and is handed back.
    pub fn push(&mut self, mimetype: String, cont: Vec<u8>) -> (out: Option<(String, Vec<u8>)>)
        ensures
            final(self)@ == appended(old(self)@, entry_of((mimetype, cont))),
            final(self)@.len() <= CAPACITY,
            match out {
                Some(pair) => evicted(old(self)@, entry_of((mimetype, cont))) == Some(
                    entry_of(pair),
                ),
                None => evicted(old(self)@, entry_of((mimetype, cont))) is None,
            },
    {
        proof {
            use_type_invariant(&*self);
        }
        let ghost before = self@;
        let ghost e = entry_of((mimetype, cont));
        let mut entries = self.lift();
        let out = if entries.len() >= CAPACITY {
            Some(entries.remove(0))
        } else {
            None
        };
        entries.push((mimetype, cont));
        self.entries = entries;
        proof {
            if before.len() >= CAPACITY {
                assert(self@ =~= before.push(e).drop_first());
                assert(before.push(e).first() == before[0]);
            } else {
                assert(self@ =~= before.push(e));
            }
        }
        out
    }

    /// Removes the entry at index `num` and hands it back; the entries after
    /// it move down by one. An index past the end changes nothing.
    pub fn remove(&mut self, num: usize) -> (out: Option<(String, Vec<u8>)>)
        ensures
            final(self)@.len() <= CAPACITY,
            match out {
                Some(pair) => num < old(self)@.len() && entry_of(pair) == old(self)@[num as int]
                    && final(self)@ == old(self)@.remove(num as int),
                None => num >= old(self)@.len() && final(self)@ == old(self)@,
            },
    {
        proof {
            use_type_invariant(&*self);
        }
        if num >= self.entries.len() {
            return None;
        }
        let ghost before = self@;
        let mut entries = self.lift();
        let pair = entries.remove(num);
        self.entries = entries;
        proof {
            assert(self@ =~= before.remove(num as int));
        }
        Some(pair)
    }

    /// The index that the selector `val` names: see [`selected`].
    pub fn index_of(&self, val: &str) -> (out: Option<usize>)
        ensures
            match out {
                Some(i) => selected(self@.len(), val@) == Some(i as nat),
                None => selected(self@.len(), val@) is None,
            },
    {
        let len = self.entries.len();
        if is_last(val) {
            if len > 0 {
                Some(len - 1)
            } else {
                None
            }
        } else {
            match parse_text(val) {
                Ok(i) => if i < len {
                    Some(i)
                } else {
                    None
                },
                Err(_) => None,
            }
        }
    }

    /// Takes the entry that `val` names out of the history, for the caller to
    /// put it back on the clipboard.
    pub fn take(&mut self, val: &str) -> (r: Result<Vec<Effect>, HistoryError>)
        ensures
            final(self)@.len() <= CAPACITY,
            match r {
                Ok(effects) => match selected(old(self)@.len(), val@) {
                    Some(i) => final(self)@ == old(self)@.remove(i as int) && actions(effects@)
                        == take_actions(old(self)@[i as int]),
                    None => false,
                },
                Err(e) => e == HistoryError::IndexOutOfRange && selected(
                    old(self)@.len(),
                    val@,
                ) is None && final(self)@ == old(self)@,
            },
    {
        proof {
            use_type_invariant(&*self);
        }
        let index = match self.index_of(val) {
            Some(i) => i,
            None => {
                return Err(HistoryError::IndexOutOfRange);
            },
        };
        let ghost before = self@;
        let mut entries = self.lift();
        let (mimetype, payload) = entries.remove(index);
        self.entries = entries;
        proof {
            assert(self@ =~= before.remove(index as int));
        }
        let mut effects: Vec<Effect> = Vec::new();
        match classify(mimetype.as_str()) {
            Class::Binary => {
                effects.push(Effect::Restore { mimetype, path: payload });
            },
            Class::Inline => {
                effects.push(Effect::Offer { mimetype, contents: payload });
            },
        }
        proof {
            assert(actions(effects@) =~= take_actions(before[index as int]));
        }
        Ok(effects)
    }

    /// Empties the history and asks for every listed file of the blob
    /// directory `dir` to be deleted.
    pub fn clear(&mut self, dir: &[u8], listing: &Vec<Vec<u8>>) -> (effects: Vec<Effect>)
        ensures
            final(self)@ == Seq::<Entry>::empty(),
            actions(effects@) == wipe_actions(dir@, names_of(listing@)),
    {
        self.entries = Vec::new();
        proof {
            assert(self@ =~= Seq::<Entry>::empty());
        }
        History::clear_static(dir, listing)
    }

    /// Asks for every listed file of the blob directory `dir` to be deleted.
    /// Together with persisting the empty history this resets the store,
    /// whatever state it was in.
    pub fn clear_static(dir: &[u8], listing: &Vec<Vec<u8>>) -> (effects: Vec<Effect>)
        ensures
            actions(effects@) == wipe_actions(dir@, names_of(listing@)),
    {
        let mut effects: Vec<Effect> = Vec::new();
        let mut i: usize = 0;
        while i < listing.len()
            invariant
                i <= listing@.len(),
                effects@.len() == i,
                forall|j: int|
                    0 <= j < i ==> (#[trigger] effects@[j])@ == (Action::Delete {
                        path: blob_path(dir@, listing@[j]@),
                    }),
            decreases listing@.len() - i,
        {
            let path = Image::path_of(dir, listing[i].as_slice());
            effects.push(Effect::Delete { path });
            i = i + 1;
        }
        proof {
            assert(actions(effects@) =~= wipe_actions(dir@, names_of(listing@)));
        }
        effects
    }

    /// Stores a clipboard snapshot. A binary-class payload goes to the next
    /// blob file of the directory `dir`, whose present files are `listing`,
    /// and the entry holds the path of that file; any other payload is held
    /// inline. `listing` is not looked at for an inline snapshot.
    pub fn store(
        &mut self,
        mimetype: String,
        cont: Vec<u8>,
        dir: &[u8],
        listing: &Vec<Vec<u8>>,
    ) -> (r: Result<Vec<Effect>, HistoryError>)
        ensures
            final(self)@.len() <= CAPACITY,
            match r {
                Ok(effects) => store_error(mimetype@, names_of(listing@)) is None && final(self)@
                    == appended(
                    old(self)@,
                    stored_entry(mimetype@, cont@, dir@, names_of(listing@)),
                ) && actions(effects@) == store_actions(
                    old(self)@,
                    mimetype@,
                    cont@,
                    dir@,
                    names_of(listing@),
                ),
                Err(e) => store_error(mimetype@, names_of(listing@)) == Some(e) && final(self)@
                    == old(self)@,
            },
    {
        proof {
            use_type_invariant(&*self);
        }
        let ghost e = stored_entry(mimetype@, cont@, dir@, names_of(listing@));
        let ghost before = self@;
        let mut effects: Vec<Effect> = Vec::new();
        let gone = match classify(mimetype.as_str()) {
            Class::Binary => {
                let num = match Image::get_num(listing) {
                    Ok(num) => num,
                    Err(e) => {
                        return Err(e);
                    },
                };
                let path = Image::path(dir, num);
                let reference = slice_to_vec(path.as_slice());
                let gone = self.push(mimetype, reference);
                effects.push(Effect::Save { path, contents: cont });
                gone
            },
            Class::Inline => self.push(mimetype, cont),
        };
        let ghost saved = actions(effects@);
        match gone {
            Some((old_mimetype, old_payload)) => {
                match classify(old_mimetype.as_str()) {
                    Class::Binary => {
                        effects.push(Effect::Delete { path: old_payload });
                    },
                    Class::Inline => {},
                }
            },
            None => {},
        }
        proof {
            assert(actions(effects@) =~= saved + release_actions(evicted(before, e)));
            assert(actions(effects@) =~= store_actions(
                before,
                mimetype@,
                cont@,
                dir@,
                names_of(listing@),
            ));
        }
        Ok(effects)
    }

    /// Shows the history: for each entry, oldest first, its index and its
    /// rendering. The history is left as it is.
    pub fn print(&self) -> (effects: Vec<Effect>)
        ensures
            actions(effects@) == print_actions(self@),
    {
        let mut effects: Vec<Effect> = Vec::new();
        let mut i: usize = 0;
        proof {
            assert(self@.subrange(0, 0) =~= Seq::<Entry>::empty());
            assert(actions(effects@) =~= Seq::<Action>::empty());
        }
        while i < self.entries.len()
            invariant
                i <= self.entries@.len(),
                actions(effects@) == print_actions(self@.subrange(0, i as int)),
            decreases self.entries@.len() - i,
        {
            let ghost shown = actions(effects@);
            let ghost e = self@[i as int];
            let mut text: Vec<u8> = Vec::new();
            push_decimal(&mut text, i);
            text.push(58u8);
            match classify(self.entries[i].0.as_str()) {
                Class::Binary => {
                    text.push(10u8);
                    let path = slice_to_vec(self.entries[i].1.as_slice());
                    effects.push(Effect::Print { text });
                    effects.push(Effect::Render { path });
                },
                Class::Inline => {
                    text.push(32u8);
                    let mut payload = slice_to_vec(self.entries[i].1.as_slice());
                    text.append(&mut payload);
                    text.push(10u8);
                    effects.push(Effect::Print { text });
                },
            }
            proof {
                let next = self@.subrange(0, i + 1);
                assert(next.drop_last() =~= self@.subrange(0, i as int));
                assert(next.last() == e);
                assert(actions(effects@) =~= shown + line_actions(i as nat, e)) by {
                    if is_binary(e.mimetype) {
                        assert(text@ =~= decimal_bytes(i as nat) + seq![58u8, 10u8]);
                    } else {
                        assert(text@ =~= decimal_bytes(i as nat) + seq![58u8, 32u8] + e.payload
                            + seq![10u8]);
                    }
                }
            }
            i = i + 1;
        }
        proof {
            assert(self@.subrange(0, i as int) =~= self@);
        }
        effects
    }
}

} // verus!
