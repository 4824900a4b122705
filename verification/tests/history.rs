use clipsway::{Effect, History, HistoryError, CAPACITY};

const DIR: &[u8] = b"/home/ann/.clipsway/images";

fn text(payload: &str) -> (String, Vec<u8>) {
    ("text/plain".to_string(), payload.as_bytes().to_vec())
}

fn numbered(count: usize) -> Vec<(String, Vec<u8>)> {
    (0..count).map(|i| text(&i.to_string())).collect()
}

fn no_files() -> Vec<Vec<u8>> {
    Vec::new()
}

#[test]
fn the_capacity_is_one_thousand() {
    assert_eq!(CAPACITY, 1000);
}

#[test]
fn an_empty_history_has_no_entries() {
    let history = History::empty();
    assert_eq!(history.len(), 0);
    assert_eq!(history.entries(), Vec::new());
}

#[test]
fn a_history_holds_the_pairs_it_was_made_of() {
    let pairs = vec![text("a"), ("image/png".to_string(), b"/x/1".to_vec()), text("")];
    let history = History::new(pairs.clone()).unwrap();
    assert_eq!(history.len(), 3);
    assert_eq!(history.entries(), pairs);
}

#[test]
fn a_full_store_is_read_and_a_store_beyond_capacity_is_corrupt() {
    let history = History::new(numbered(1000)).unwrap();
    assert_eq!(history.len(), 1000);
    assert_eq!(History::new(numbered(1001)).err(), Some(HistoryError::CorruptStore));
    assert_eq!(History::new(numbered(2500)).err(), Some(HistoryError::CorruptStore));
}

#[test]
fn push_appends_at_the_end() {
    let mut history = History::empty();
    assert_eq!(history.push("text/plain".to_string(), b"a".to_vec()), None);
    assert_eq!(history.push("text/html".to_string(), b"<b>".to_vec()), None);
    assert_eq!(history.entries(), vec![text("a"), ("text/html".to_string(), b"<b>".to_vec())]);
}

#[test]
fn push_on_a_full_history_hands_back_the_oldest() {
    let mut history = History::new(numbered(1000)).unwrap();
    let gone = history.push("text/plain".to_string(), b"new".to_vec());
    assert_eq!(gone, Some(text("0")));
    assert_eq!(history.len(), 1000);
    let entries = history.entries();
    assert_eq!(entries[0], text("1"));
    assert_eq!(entries[998], text("999"));
    assert_eq!(entries[999], text("new"));
}

#[test]
fn push_one_below_capacity_evicts_nothing() {
    let mut history = History::new(numbered(999)).unwrap();
    assert_eq!(history.push("text/plain".to_string(), b"new".to_vec()), None);
    assert_eq!(history.len(), 1000);
    assert_eq!(history.entries()[0], text("0"));
}

#[test]
fn remove_hands_back_the_entry_and_closes_the_gap() {
    let mut history = History::new(numbered(5)).unwrap();
    assert_eq!(history.remove(2), Some(text("2")));
    assert_eq!(history.entries(), vec![text("0"), text("1"), text("3"), text("4")]);
    assert_eq!(history.remove(0), Some(text("0")));
    assert_eq!(history.remove(2), Some(text("4")));
    assert_eq!(history.entries(), vec![text("1"), text("3")]);
}

#[test]
fn remove_past_the_end_changes_nothing() {
    let mut history = History::new(numbered(3)).unwrap();
    assert_eq!(history.remove(3), None);
    assert_eq!(history.remove(usize::MAX), None);
    assert_eq!(history.entries(), numbered(3));
    let mut empty = History::empty();
    assert_eq!(empty.remove(0), None);
}

#[test]
fn a_selector_names_the_last_entry_or_an_index() {
    let history = History::new(numbered(3)).unwrap();
    assert_eq!(history.index_of("last"), Some(2));
    assert_eq!(history.index_of("0"), Some(0));
    assert_eq!(history.index_of("2"), Some(2));
    assert_eq!(history.index_of("+1"), Some(1));
    assert_eq!(history.index_of("001"), Some(1));
}

#[test]
fn a_selector_that_names_no_entry_selects_nothing() {
    let history = History::new(numbered(3)).unwrap();
    assert_eq!(history.index_of("3"), None);
    assert_eq!(history.index_of("1000"), None);
    assert_eq!(history.index_of("-1"), None);
    assert_eq!(history.index_of(""), None);
    assert_eq!(history.index_of("first"), None);
    assert_eq!(history.index_of("Last"), None);
    assert_eq!(history.index_of("last "), None);
    assert_eq!(history.index_of("las"), None);
    assert_eq!(history.index_of("1.0"), None);
    assert_eq!(history.index_of("\u{ff11}"), None);
    assert_eq!(history.index_of(&"9".repeat(50)), None);
    assert_eq!(History::empty().index_of("last"), None);
    assert_eq!(History::empty().index_of("0"), None);
}

#[test]
fn take_with_a_bad_selector_is_out_of_range_and_changes_nothing() {
    let mut history = History::new(numbered(2)).unwrap();
    assert_eq!(history.take("2"), Err(HistoryError::IndexOutOfRange));
    assert_eq!(history.take("x"), Err(HistoryError::IndexOutOfRange));
    assert_eq!(history.take(""), Err(HistoryError::IndexOutOfRange));
    assert_eq!(history.take(&"9".repeat(50)), Err(HistoryError::IndexOutOfRange));
    assert_eq!(history.entries(), numbered(2));
    let mut empty = History::empty();
    assert_eq!(empty.take("last"), Err(HistoryError::IndexOutOfRange));
    assert_eq!(empty.take("0"), Err(HistoryError::IndexOutOfRange));
    assert_eq!(empty.len(), 0);
}

#[test]
fn take_shortens_the_history_by_one_and_shifts_what_follows() {
    let mut history = History::new(numbered(6)).unwrap();
    let effects = history.take("2").unwrap();
    assert_eq!(
        effects,
        vec![Effect::Offer { mimetype: "text/plain".to_string(), contents: b"2".to_vec() }]
    );
    assert_eq!(history.len(), 5);
    let entries = history.entries();
    assert_eq!(entries[0], text("0"));
    assert_eq!(entries[1], text("1"));
    assert_eq!(entries[2], text("3"));
    assert_eq!(entries[3], text("4"));
    assert_eq!(entries[4], text("5"));
}

#[test]
fn take_of_a_binary_entry_restores_its_blob() {
    let pairs = vec![text("a"), ("image/png".to_string(), b"/x/images/4".to_vec())];
    let mut history = History::new(pairs).unwrap();
    let effects = history.take("last").unwrap();
    assert_eq!(
        effects,
        vec![Effect::Restore { mimetype: "image/png".to_string(), path: b"/x/images/4".to_vec() }]
    );
    assert_eq!(history.entries(), vec![text("a")]);
}

#[test]
fn store_keeps_an_inline_payload_in_the_history() {
    let mut history = History::empty();
    let effects = history.store("text/plain".to_string(), b"hello".to_vec(), DIR, &no_files());
    assert_eq!(effects, Ok(Vec::new()));
    assert_eq!(history.entries(), vec![text("hello")]);
}

#[test]
fn store_keeps_bytes_that_are_no_text() {
    let payload = vec![0x00, 0xff, 0xfe, 0x80, 0x0a];
    let mut history = History::empty();
    history
        .store("application/octet-stream".to_string(), payload.clone(), DIR, &no_files())
        .unwrap();
    assert_eq!(history.entries(), vec![("application/octet-stream".to_string(), payload.clone())]);
    let effects = history.take("0").unwrap();
    assert_eq!(
        effects,
        vec![Effect::Offer { mimetype: "application/octet-stream".to_string(), contents: payload }]
    );
}

#[test]
fn store_sends_a_binary_payload_to_the_next_blob() {
    let listing = vec![b"2".to_vec(), b"9".to_vec(), b"4".to_vec()];
    let mut history = History::empty();
    let effects = history.store("image/png".to_string(), vec![1, 2, 3], b"img", &listing).unwrap();
    assert_eq!(effects, vec![Effect::Save { path: b"img/10".to_vec(), contents: vec![1, 2, 3] }]);
    assert_eq!(history.entries(), vec![("image/png".to_string(), b"img/10".to_vec())]);
}

#[test]
fn store_of_an_inline_payload_does_not_look_at_the_listing() {
    let listing = vec![b"not a number".to_vec()];
    let mut history = History::empty();
    let effects = history.store("text/plain".to_string(), b"x".to_vec(), DIR, &listing);
    assert_eq!(effects, Ok(Vec::new()));
    assert_eq!(history.len(), 1);
}

#[test]
fn store_of_a_binary_payload_fails_on_a_corrupt_blob_name_and_changes_nothing() {
    let listing = vec![b"1".to_vec(), b"thumbs.db".to_vec()];
    let mut history = History::new(numbered(2)).unwrap();
    let outcome = history.store("image/png".to_string(), vec![1], DIR, &listing);
    assert_eq!(outcome, Err(HistoryError::CorruptBlobName));
    assert_eq!(history.entries(), numbered(2));
}

#[test]
fn store_of_a_binary_payload_fails_when_the_numbers_are_exhausted() {
    let listing = vec![usize::MAX.to_string().into_bytes()];
    let mut history = History::empty();
    let outcome = history.store("image/png".to_string(), vec![1], DIR, &listing);
    assert_eq!(outcome, Err(HistoryError::BlobNumbersExhausted));
    assert_eq!(history.len(), 0);
}

#[test]
fn the_history_never_grows_past_its_capacity() {
    let mut history = History::empty();
    for i in 0..1000usize {
        let payload = i.to_string().into_bytes();
        let effects = history.store("text/plain".to_string(), payload, DIR, &no_files());
        assert_eq!(effects, Ok(Vec::new()));
        assert_eq!(history.len(), i + 1);
    }
    assert_eq!(history.entries()[0], text("0"));
    let effects = history.store("text/plain".to_string(), b"1000".to_vec(), DIR, &no_files());
    assert_eq!(effects, Ok(Vec::new()));
    assert_eq!(history.len(), 1000);
    let entries = history.entries();
    assert!(!entries.contains(&text("0")));
    assert_eq!(entries[0], text("1"));
    assert_eq!(entries[999], text("1000"));
    for i in 0..50usize {
        history.store("text/plain".to_string(), vec![b'x'; i], DIR, &no_files()).unwrap();
        assert_eq!(history.len(), 1000);
    }
    assert_eq!(history.entries()[0], text("51"));
}

#[test]
fn evicting_a_binary_entry_deletes_its_blob() {
    let mut pairs = numbered(1000);
    pairs[0] = ("image/png".to_string(), b"img/3".to_vec());
    let mut history = History::new(pairs).unwrap();
    let listing = vec![b"3".to_vec()];
    let effects = history.store("text/plain".to_string(), b"new".to_vec(), b"img", &listing);
    assert_eq!(effects, Ok(vec![Effect::Delete { path: b"img/3".to_vec() }]));
    assert_eq!(history.len(), 1000);
    assert_eq!(history.entries()[0], text("1"));
}

#[test]
fn a_binary_store_that_evicts_a_binary_entry_saves_first_and_deletes_after() {
    let mut pairs = numbered(1000);
    pairs[0] = ("image/png".to_string(), b"img/3".to_vec());
    let mut history = History::new(pairs).unwrap();
    let effects = history.store("image/gif".to_string(), vec![7, 7], b"img", &vec![b"3".to_vec()]);
    assert_eq!(
        effects,
        Ok(vec![
            Effect::Save { path: b"img/4".to_vec(), contents: vec![7, 7] },
            Effect::Delete { path: b"img/3".to_vec() },
        ])
    );
    assert_eq!(history.entries()[999], ("image/gif".to_string(), b"img/4".to_vec()));
}

#[test]
fn clear_empties_the_history_and_deletes_every_listed_file() {
    let pairs = vec![text("a"), ("image/png".to_string(), b"img/1".to_vec())];
    let mut history = History::new(pairs).unwrap();
    let listing = vec![b"1".to_vec(), b"7".to_vec(), b"stray.txt".to_vec()];
    let effects = history.clear(b"img", &listing);
    assert_eq!(
        effects,
        vec![
            Effect::Delete { path: b"img/1".to_vec() },
            Effect::Delete { path: b"img/7".to_vec() },
            Effect::Delete { path: b"img/stray.txt".to_vec() },
        ]
    );
    assert_eq!(history.len(), 0);
    assert_eq!(history.entries(), Vec::new());
}

#[test]
fn clear_static_deletes_every_listed_file() {
    assert_eq!(History::clear_static(b"img", &Vec::new()), Vec::new());
    assert_eq!(
        History::clear_static(b"img", &vec![b"2".to_vec()]),
        vec![Effect::Delete { path: b"img/2".to_vec() }]
    );
}

#[test]
fn print_shows_each_entry_under_its_index() {
    let pairs = vec![
        text("hello"),
        ("image/png".to_string(), b"img/1".to_vec()),
        text(""),
        ("text/html".to_string(), b"<b>\xff</b>".to_vec()),
    ];
    let history = History::new(pairs.clone()).unwrap();
    let effects = history.print();
    assert_eq!(
        effects,
        vec![
            Effect::Print { text: b"0: hello\n".to_vec() },
            Effect::Print { text: b"1:\n".to_vec() },
            Effect::Render { path: b"img/1".to_vec() },
            Effect::Print { text: b"2: \n".to_vec() },
            Effect::Print { text: b"3: <b>\xff</b>\n".to_vec() },
        ]
    );
    assert_eq!(history.print(), effects);
    assert_eq!(history.entries(), pairs);
}

#[test]
fn print_counts_past_single_digits() {
    let history = History::new(numbered(12)).unwrap();
    let effects = history.print();
    assert_eq!(effects.len(), 12);
    assert_eq!(effects[9], Effect::Print { text: b"9: 9\n".to_vec() });
    assert_eq!(effects[10], Effect::Print { text: b"10: 10\n".to_vec() });
    assert_eq!(effects[11], Effect::Print { text: b"11: 11\n".to_vec() });
    assert_eq!(History::empty().print(), Vec::new());
}
