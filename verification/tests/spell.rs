use growbuf::spell::{
    delete_string, spellcheck_dynamic, spellcheck_static, string_range, Change,
    DeleteSpacesSpellchecker, NoopSpellchecker, Spellchecker,
};

#[test]
fn remove_spaces() {
    let text = "This is an example of traits and traits objects";
    let result = spellcheck_static(text, DeleteSpacesSpellchecker);
    /* This is not working as expected as we never implemented the application of changes */
    assert_eq!(text, result);

    let result = spellcheck_dynamic(text, &DeleteSpacesSpellchecker);
    /* This is not working as expected as we never implemented the application of changes */
    assert_eq!(text, result);
}

#[test]
fn no_changes() {
    let text = "This is an example of traits and traits objects";
    let result = spellcheck_static(text, NoopSpellchecker);
    assert_eq!(text, result);

    let result = spellcheck_dynamic(text, &NoopSpellchecker);
    assert_eq!(text, result);
}

#[test]
fn spaces_are_reported_at_their_byte_positions() {
    let changes = DeleteSpacesSpellchecker.check("a b c");
    assert_eq!(changes.len(), 2);
    assert!(matches!(&changes[0], Change::Delete(range) if *range == (1..2)));
    assert!(matches!(&changes[1], Change::Delete(range) if *range == (3..4)));
}

#[test]
fn a_range_covers_the_word_it_stands_for() {
    let range = string_range(3, "ab");
    assert_eq!(range, 3..5);
    assert!(matches!(delete_string(2, " "), Change::Delete(range) if range == (2..3)));
}
