//! Tests for the delimiter/quote character specifier.

use scrubcsv::errors::ScrubError;
use scrubcsv::util::CharSpecifier;

#[test]
fn parses_char_specifiers() {
    assert_eq!(CharSpecifier::from_str(",").unwrap().char(), Some(b','));
    assert_eq!(CharSpecifier::from_str("\t").unwrap().char(), Some(b'\t'));
    assert_eq!(CharSpecifier::from_str(r"\t").unwrap().char(), Some(b'\t'));
    assert_eq!(CharSpecifier::from_str(r"tab").unwrap().char(), Some(b'\t'));
    assert_eq!(CharSpecifier::from_str(r"none").unwrap().char(), None);
}

#[test]
fn rejects_bad_char_specifiers() {
    match CharSpecifier::from_str("xy") {
        Err(ScrubError::BadCharSpecifier(s)) => assert_eq!(s, "xy"),
        _ => panic!("expected a bad-specifier error"),
    }
    let err = CharSpecifier::from_str("").unwrap_err();
    assert_eq!(err.message(), "cannot parse character specifier: ''");
}

#[test]
fn single_byte_specifiers_stand_for_themselves() {
    assert_eq!(CharSpecifier::from_str("|").unwrap().char(), Some(b'|'));
    assert_eq!(CharSpecifier::from_str(";").unwrap().char(), Some(b';'));
    assert_eq!(CharSpecifier::from_str("\"").unwrap().char(), Some(b'"'));
}
