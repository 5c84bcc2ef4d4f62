use growbuf::split_delim::{sub_string_before_char, sub_string_before_str};
use growbuf::split_str::sub_string_before;

fn collect_str_split(haystack: &str, delimiter: &str) -> Vec<String> {
    let mut split = growbuf::split_str::StrSplit::new(haystack, delimiter);
    let mut pieces = Vec::new();
    while let Some(piece) = split.next() {
        pieces.push(piece.to_string());
    }
    pieces
}

fn collect_delim_split_str(haystack: &str, delimiter: &str) -> Vec<String> {
    let mut split = growbuf::split_delim::StrSplit::new(haystack, delimiter);
    let mut pieces = Vec::new();
    while let Some(piece) = split.next() {
        pieces.push(piece.to_string());
    }
    pieces
}

#[test]
fn str_split_1_split_empty_string() {
    let haystack = "";
    let letters = collect_str_split(haystack, " ");
    assert_eq!(letters, vec![""]);
}

#[test]
fn str_split_1_split_string() {
    let haystack = "a b c";
    let letters = collect_str_split(haystack, " ");
    assert_eq!(letters, vec!["a", "b", "c"]);
}

#[test]
fn str_split_1_split_string_with_a_non_matching_delimiter() {
    let haystack = "a b c";
    let letters = collect_str_split(haystack, "x");
    assert_eq!(letters, vec!["a b c"]);
}

#[test]
fn str_split_1_return_an_empty_string_when_haystack_ends_with_delimiter() {
    let haystack = "a b c ";
    let letters = collect_str_split(haystack, " ");
    assert_eq!(letters, vec!["a", "b", "c", ""]);
}

#[test]
fn str_split_1_return_the_substring_before_the_given_char() {
    assert_eq!(sub_string_before("hello world", 'o'), "hell");
}

#[test]
fn str_split_2_split_empty_string() {
    let haystack = "";
    let letters = collect_delim_split_str(haystack, " ");
    assert_eq!(letters, vec![""]);
}

#[test]
fn str_split_2_split_string() {
    let haystack = "a b c";
    let letters = collect_delim_split_str(haystack, " ");
    assert_eq!(letters, vec!["a", "b", "c"]);
}

#[test]
fn split_utf8_string_using_utf8_str() {
    let haystack = "Köln";
    let letters = collect_delim_split_str(haystack, "ö");
    assert_eq!(letters, vec!["K", "ln"]);
}

#[test]
fn str_split_2_split_string_with_a_non_matching_delimiter() {
    let haystack = "a b c";
    let letters = collect_delim_split_str(haystack, "x");
    assert_eq!(letters, vec!["a b c"]);
}

#[test]
fn str_split_2_return_an_empty_string_when_haystack_ends_with_delimiter() {
    let haystack = "a b c ";
    let letters = collect_delim_split_str(haystack, " ");
    assert_eq!(letters, vec!["a", "b", "c", ""]);
}

#[test]
fn return_the_substring_before_the_given_str() {
    assert_eq!(sub_string_before_str("hello world", "ld"), "hello wor");
}

#[test]
fn str_split_2_return_the_substring_before_the_given_char() {
    assert_eq!(sub_string_before_char("hello world", 'o'), "hell");
}

#[test]
fn return_the_substring_before_the_given_utf8_char() {
    assert_eq!(sub_string_before_char("Köln", 'ö'), "K");
}

#[test]
fn split_by_a_char_delimiter() {
    let mut split = growbuf::split_delim::StrSplit::new("a b c", ' ');
    let mut pieces: Vec<String> = Vec::new();
    while let Some(piece) = split.next() {
        pieces.push(piece.to_string());
    }
    assert_eq!(pieces, vec!["a", "b", "c"]);
}
