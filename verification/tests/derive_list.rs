use perfectionist::derive_list::{derive_entries, derive_names, AttributeCall, DeriveEntry, ListEntry};
use perfectionist::source::Span;

fn entry(path: &[&str], lo: u32) -> ListEntry {
    ListEntry {
        span: Span { lo, hi: lo + 5 },
        path: Some(path.iter().map(|segment| (*segment).to_owned()).collect()),
    }
}

fn derive(entries: Vec<DeriveEntry>) -> AttributeCall {
    AttributeCall { name: "derive".to_owned(), derives: Some(entries) }
}

#[test]
fn entries_keep_the_final_segment_and_whether_it_was_qualified() {
    let list = Some(vec![entry(&["Debug"], 1), entry(&["serde", "Serialize"], 8)]);
    let entries = derive_entries(&list).expect("a well-formed list");
    assert_eq!(entries.len(), 2);
    assert_eq!(entries[0].name, "Debug");
    assert!(entries[0].is_unqualified);
    assert_eq!(entries[0].span, Span { lo: 1, hi: 6 });
    assert_eq!(entries[1].name, "Serialize");
    assert!(!entries[1].is_unqualified);
    assert_eq!(derive_entries(&Some(vec![])).map(|entries| entries.len()), Some(0));
}

#[test]
fn a_list_with_an_entry_that_is_not_a_path_is_malformed() {
    assert!(derive_entries(&None).is_none());
    let literal = ListEntry { span: Span { lo: 0, hi: 3 }, path: None };
    assert!(derive_entries(&Some(vec![entry(&["Debug"], 1), literal])).is_none());
    let empty = ListEntry { span: Span { lo: 0, hi: 0 }, path: Some(vec![]) };
    assert!(derive_entries(&Some(vec![empty])).is_none());
}

#[test]
fn every_derived_name_is_collected_once() {
    let list = Some(vec![entry(&["Debug"], 1), entry(&["serde", "Serialize"], 8)]);
    let gated = Some(vec![entry(&["Debug"], 20), entry(&["Clone"], 27)]);
    let calls = vec![
        derive(derive_entries(&list).unwrap()),
        AttributeCall { name: "allow".to_owned(), derives: None },
        // What a `cfg_attr`-gated derive reads as.
        derive(derive_entries(&gated).unwrap()),
        AttributeCall { name: "derive".to_owned(), derives: None },
    ];
    let mut names = derive_names(&calls);
    names.sort();
    assert_eq!(names, vec!["Clone".to_owned(), "Debug".to_owned(), "Serialize".to_owned()]);
}

#[test]
fn entries_of_another_attribute_are_not_derives() {
    let calls = vec![AttributeCall {
        name: "serde".to_owned(),
        derives: Some(vec![DeriveEntry { name: "Debug".to_owned(), span: Span { lo: 0, hi: 1 }, is_unqualified: true }]),
    }];
    assert!(derive_names(&calls).is_empty());
}
