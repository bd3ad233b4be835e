use alloy_hover::dictionary::Docs;
use alloy_hover::hover::{hover, resolve, HoverInfo, Position};
use alloy_hover::store::DocumentStore;

fn docs(pairs: &[(&str, &str)]) -> Docs {
    Docs::from_entries(pairs.iter().map(|(k, v)| (k.to_string(), v.to_string())).collect())
}

fn range(h: &HoverInfo) -> (usize, usize, usize, usize) {
    (h.start.line, h.start.character, h.end.line, h.end.character)
}

#[test]
fn dotted_identifier_scenario() {
    let d = docs(&[("alloy.cast", "Casts a value")]);
    let h = resolve("let x = alloy.cast(y);", 0, 10, &d).unwrap();
    assert_eq!(h.contents, "Casts a value");
    assert_eq!(h.start, Position { line: 0, character: 8 });
    assert_eq!(h.end, Position { line: 0, character: 18 });
}

#[test]
fn quoted_word_scenario() {
    let d = docs(&[("foo", "Foo docs")]);
    let h = resolve("call(\"foo\")", 0, 7, &d).unwrap();
    assert_eq!(h.contents, "Foo docs");
    // the double quote is not a word character, so the token is `foo` at [6, 9)
    assert_eq!(range(&h), (0, 6, 0, 9));
}

#[test]
fn empty_dictionary_never_answers() {
    let d = docs(&[]);
    let text = "let x = alloy.cast(y);\nfoo bar";
    for line in 0..3 {
        for col in 0..25 {
            assert!(resolve(text, line, col, &d).is_none());
        }
    }
}

#[test]
fn unopened_document_has_no_answer() {
    let d = docs(&[("foo", "Foo docs")]);
    let mut store = DocumentStore::new();
    store.open("file:///open".to_string(), "foo".to_string());
    assert!(hover(&store, &d, "file:///never", 0, 0).is_none());
    assert!(hover(&store, &d, "file:///never", 3, 7).is_none());
    let h = hover(&store, &d, "file:///open", 0, 1).unwrap();
    assert_eq!(h.contents, "Foo docs");
    assert_eq!(range(&h), (0, 0, 0, 3));
}

#[test]
fn every_column_of_a_run_selects_the_run() {
    let d = docs(&[("alloy.cast", "Casts a value")]);
    for col in 8..=18 {
        let h = resolve("let x = alloy.cast(y);", 0, col, &d).unwrap();
        assert_eq!(range(&h), (0, 8, 0, 18));
    }
    assert!(resolve("let x = alloy.cast(y);", 0, 7, &d).is_none());
    assert!(resolve("let x = alloy.cast(y);", 0, 19, &d).is_none());
}

#[test]
fn missing_word_has_no_answer() {
    let d = docs(&[("alloy.cast", "Casts a value")]);
    assert!(resolve("let x = alloy.cas(y);", 0, 10, &d).is_none());
    assert!(resolve("let x = alloy.cast(y);", 0, 4, &d).is_none());
    assert!(resolve("let x = Alloy.Cast(y);", 0, 10, &d).is_none());
}

#[test]
fn cursor_between_spaces_has_no_answer() {
    let d = docs(&[("", "empty key"), ("a", "A")]);
    assert!(resolve("a  a", 0, 2, &d).is_none());
    assert!(resolve("", 0, 0, &d).is_none());
}

#[test]
fn cursor_at_word_edges() {
    let d = docs(&[("ab", "AB")]);
    let at_start = resolve("ab cd", 0, 0, &d).unwrap();
    assert_eq!(range(&at_start), (0, 0, 0, 2));
    let at_end = resolve("x ab", 0, 4, &d).unwrap();
    assert_eq!(range(&at_end), (0, 2, 0, 4));
}

#[test]
fn column_past_end_of_line_scans_back() {
    let d = docs(&[("end", "End docs")]);
    let h = resolve("the end\nnext", 0, 100, &d).unwrap();
    assert_eq!(h.contents, "End docs");
    assert_eq!(range(&h), (0, 4, 0, 7));
}

#[test]
fn picks_the_requested_line() {
    let d = docs(&[("second", "2nd"), ("third", "3rd")]);
    let text = "first\r\nsecond\n\nthird";
    let h = resolve(text, 1, 3, &d).unwrap();
    assert_eq!(h.contents, "2nd");
    assert_eq!(range(&h), (1, 0, 1, 6));
    assert!(resolve(text, 2, 0, &d).is_none());
    let h3 = resolve(text, 3, 5, &d).unwrap();
    assert_eq!(h3.contents, "3rd");
    assert_eq!(range(&h3), (3, 0, 3, 5));
}

#[test]
fn line_out_of_range_has_no_answer() {
    let d = docs(&[("x", "X")]);
    assert!(resolve("x\n", 1, 0, &d).is_none());
    assert!(resolve("x", 7, 0, &d).is_none());
    assert!(resolve("x", 0, 0, &d).is_some());
}

#[test]
fn carriage_return_stays_off_the_line() {
    let d = docs(&[("key", "K")]);
    let h = resolve("key\r\nnext", 0, 9, &d).unwrap();
    assert_eq!(range(&h), (0, 0, 0, 3));
}

#[test]
fn underscores_and_digits_are_word_characters() {
    let d = docs(&[("my_var2", "doc")]);
    let h = resolve("(my_var2)", 0, 5, &d).unwrap();
    assert_eq!(range(&h), (0, 1, 0, 8));
}

#[test]
fn unicode_letters_are_word_characters() {
    let d = docs(&[("café", "coffee")]);
    let h = resolve("a café!", 0, 3, &d).unwrap();
    assert_eq!(h.contents, "coffee");
    assert_eq!(range(&h), (0, 2, 0, 6));
}

#[test]
fn punctuation_ends_a_word() {
    let d = docs(&[("a", "A"), ("b", "B")]);
    let h = resolve("a-b", 0, 3, &d).unwrap();
    assert_eq!(h.contents, "B");
    assert_eq!(range(&h), (0, 2, 0, 3));
}

#[test]
fn hover_follows_document_changes() {
    let d = docs(&[("foo", "Foo docs"), ("bar", "Bar docs")]);
    let mut store = DocumentStore::new();
    store.open("u".to_string(), "foo".to_string());
    store.change("u".to_string(), vec!["foo".to_string(), "bar".to_string()]);
    let h = hover(&store, &d, "u", 0, 0).unwrap();
    assert_eq!(h.contents, "Bar docs");
}

#[test]
fn parsed_dictionary_answers_hover() {
    let d = Docs::parse("\"alloy.cast\" = \"Casts a value\"").unwrap();
    let h = resolve("let x = alloy.cast(y);", 0, 10, &d).unwrap();
    assert_eq!(h.contents, "Casts a value");
}
