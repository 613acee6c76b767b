use ownership::strings::first_word;
use ownership::strings::return_multiple_values;
use ownership::strings::take_and_give_back;
use ownership::strings::using_a_reference;

#[test]
fn take_and_give_back_returns_same_value() {
    let s = String::from("hello");
    let s = take_and_give_back(s);
    assert_eq!(s, "hello");
}

#[test]
fn return_multiple_values_yields_two_owners() {
    // Ownership of the original is returned together with a deep clone:
    // both strings are usable and equal.
    let s = String::from("hello");
    let (s2, s3) = return_multiple_values(s);
    assert_eq!(s2, "hello");
    assert_eq!(s3, "hello");
}

#[test]
fn using_a_reference_leaves_caller_owner() {
    let s = String::from("hello");
    let n = using_a_reference(&s);
    assert_eq!(n, 5);
    // `s` was only borrowed and is still usable.
    assert_eq!(s, "hello");
}

#[test]
fn first_word_stops_at_first_space() {
    assert_eq!(first_word("hello world"), "hello");
    assert_eq!(first_word("one two three"), "one");
}

#[test]
fn first_word_of_spaceless_string_is_whole() {
    assert_eq!(first_word("hello"), "hello");
    assert_eq!(first_word(""), "");
}

#[test]
fn first_word_of_leading_space_is_empty() {
    assert_eq!(first_word(" hello"), "");
    assert_eq!(first_word("a b"), "a");
}
