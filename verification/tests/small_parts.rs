use growbuf::cell::Cell;
use growbuf::database::{Database, DbError};
use growbuf::gcd::{compute_gcd, gcd, GcdParameters};
use growbuf::ranges::overlap;
use growbuf::search::{smallest, StringTable};

#[test]
fn overlapping_and_disjoint_ranges() {
    assert_eq!(overlap(0..7, 3..10), true);
    assert_eq!(overlap(1..5, 101..105), false);
}

#[test]
fn an_empty_range_overlaps_nothing() {
    assert_eq!(overlap(0..0, 0..10), false);
}

#[test]
fn smallest_number_in_a_slice() {
    let numbers = vec![12, 3, 5, 1];
    assert_eq!(*smallest(&numbers), 1);
    assert_eq!(*smallest(&[7]), 7);
}

#[test]
fn find_the_first_name_with_a_prefix() {
    let names = StringTable {
        elements: vec!["Albert".to_string(), "Rodianne".to_string()],
    };
    assert_eq!(names.find_by_prefix("A"), Some(&"Albert".to_string()));
    assert_eq!(names.find_by_prefix("Ro"), Some(&"Rodianne".to_string()));
    assert_eq!(names.find_by_prefix("Z"), None);
}

#[test]
fn greatest_common_divisor_of_two_numbers() {
    assert_eq!(gcd(12, 18), 6);
    assert_eq!(gcd(5, 0), 5);
    assert_eq!(gcd(0, 5), 5);
    assert_eq!(gcd(17, 13), 1);
}

#[test]
fn computing_the_gcd_with_zero_is_refused() {
    assert_eq!(compute_gcd(&GcdParameters { n: 0, m: 5 }), None);
    assert_eq!(compute_gcd(&GcdParameters { n: 5, m: 0 }), None);
    assert_eq!(compute_gcd(&GcdParameters { n: 12, m: 18 }), Some(6));
}

#[test]
fn a_cell_holds_the_value_it_was_given() {
    let mut cell = Cell::new(5);
    assert_eq!(cell.get(), 5);
    cell.set(7);
    assert_eq!(cell.get(), 7);
}

#[test]
fn parse_a_stored_line() {
    assert_eq!(
        Database::parse_line("key\tvalue"),
        Ok(("key".to_string(), "value".to_string()))
    );
}

#[test]
fn a_line_without_a_tab_is_corrupted() {
    assert_eq!(Database::parse_line("no separator"), Err(DbError::CorruptedLine));
}

#[test]
fn a_fresh_database_stores_nothing() {
    let db = Database::new("kv.db", None).unwrap();
    assert_eq!(db.contents(), "");
}

#[test]
fn stored_text_reads_back_and_renders_the_same() {
    let db = Database::new("kv.db", Some("a\tb\nc\td\n")).unwrap();
    assert_eq!(db.contents(), "a\tb\nc\td\n");
}

#[test]
fn inserting_an_existing_key_replaces_its_value() {
    let mut db = Database::new("kv.db", Some("a\tb\nc\td\n")).unwrap();
    db.insert("a".to_string(), "x".to_string());
    assert_eq!(db.contents(), "a\tx\nc\td\n");
    db.insert("e".to_string(), "f".to_string());
    assert_eq!(db.contents(), "a\tx\nc\td\ne\tf\n");
}

#[test]
fn a_corrupted_stored_text_is_refused() {
    assert!(matches!(Database::new("kv.db", Some("a\tb\nbroken\n")), Err(DbError::CorruptedLine)));
}
