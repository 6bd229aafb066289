//! Tests for column-name cleaning and uniquification.

use scrubcsv::uniquifier::{clean_name, u64_to_string, Uniquifier};

#[test]
fn cleans_names_to_identifier_form() {
    assert_eq!(clean_name("abc"), b"abc");
    assert_eq!(clean_name("Hello World!"), b"hello_world_");
    assert_eq!(clean_name("A-B.C"), b"a_b_c");
    assert_eq!(clean_name("x9_z"), b"x9_z");
    // Non-ASCII characters are replaced, never kept.
    assert_eq!(clean_name("na\u{ef}ve"), b"na_ve");
}

#[test]
fn empty_name_becomes_underscore() {
    assert_eq!(clean_name(""), b"_");
    let mut u = Uniquifier::new();
    assert_eq!(u.unique_id_for(""), "_");
    assert_eq!(u.unique_id_for(""), "__2");
}

#[test]
fn repeated_names_get_numeric_suffixes() {
    let mut u = Uniquifier::new();
    assert_eq!(u.unique_id_for("a"), "a");
    assert_eq!(u.unique_id_for("b"), "b");
    assert_eq!(u.unique_id_for("a"), "a_2");
    assert_eq!(u.unique_id_for("a"), "a_3");
    assert_eq!(u.unique_id_for("b"), "b_2");
}

#[test]
fn cleaning_can_merge_distinct_raw_names() {
    let mut u = Uniquifier::new();
    assert_eq!(u.unique_id_for("Name"), "name");
    assert_eq!(u.unique_id_for("name!"), "name_");
    assert_eq!(u.unique_id_for("NAME"), "name_2");
}

#[test]
fn suffix_scheme_has_a_known_second_order_collision() {
    // A raw name that already looks like a suffixed name can collide with a
    // generated one. This mirrors the documented limitation: the scheme
    // guards only against first-order collisions.
    let mut u = Uniquifier::new();
    assert_eq!(u.unique_id_for("a_2"), "a_2");
    assert_eq!(u.unique_id_for("a"), "a");
    assert_eq!(u.unique_id_for("a"), "a_2");
}

#[test]
fn renders_decimals_exactly() {
    assert_eq!(u64_to_string(0), "0");
    assert_eq!(u64_to_string(7), "7");
    assert_eq!(u64_to_string(10), "10");
    assert_eq!(u64_to_string(1234567890), "1234567890");
    assert_eq!(u64_to_string(u64::MAX), "18446744073709551615");
}

#[test]
fn default_uniquifier_is_fresh() {
    let mut u = Uniquifier::default();
    assert_eq!(u.unique_id_for("x"), "x");
}
