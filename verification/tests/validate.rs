use doppelkopf_store::errors::ValidationError;
use doppelkopf_store::validate::{validate_filename, MAX_NAME_LEN};

#[test]
fn accepts_simple_name() {
    assert_eq!(validate_filename("doppelkopf-x.json"), Ok(()));
}

#[test]
fn accepts_all_allowed_characters() {
    assert_eq!(validate_filename("doppelkopf-Az09._-x.json"), Ok(()));
}

#[test]
fn accepts_name_at_length_limit() {
    let mut name = String::from("doppelkopf-");
    while name.len() < MAX_NAME_LEN - 5 {
        name.push('a');
    }
    name.push_str(".json");
    assert_eq!(name.len(), MAX_NAME_LEN);
    assert_eq!(validate_filename(&name), Ok(()));
}

#[test]
fn rejects_empty_name() {
    assert_eq!(validate_filename(""), Err(ValidationError::Empty));
}

#[test]
fn rejects_over_long_name() {
    let mut name = String::from("doppelkopf-");
    while name.len() < MAX_NAME_LEN - 4 {
        name.push('a');
    }
    name.push_str(".json");
    assert_eq!(name.len(), MAX_NAME_LEN + 1);
    assert_eq!(validate_filename(&name), Err(ValidationError::TooLong));
}

#[test]
fn rejects_double_dot() {
    assert_eq!(
        validate_filename("doppelkopf-..x.json"),
        Err(ValidationError::ForbiddenSequence)
    );
}

#[test]
fn rejects_slash() {
    assert_eq!(
        validate_filename("doppelkopf-a/b.json"),
        Err(ValidationError::ForbiddenSequence)
    );
}

#[test]
fn rejects_backslash() {
    assert_eq!(
        validate_filename("doppelkopf-a\\b.json"),
        Err(ValidationError::ForbiddenSequence)
    );
}

#[test]
fn rejects_nul() {
    assert_eq!(
        validate_filename("doppelkopf-a\0b.json"),
        Err(ValidationError::ForbiddenSequence)
    );
}

#[test]
fn rejects_traversal_name() {
    assert_eq!(
        validate_filename("doppelkopf-../../etc/passwd.json"),
        Err(ValidationError::ForbiddenSequence)
    );
}

#[test]
fn rejects_space() {
    assert_eq!(
        validate_filename("doppelkopf-a b.json"),
        Err(ValidationError::InvalidCharacter)
    );
}

#[test]
fn rejects_non_ascii_letter() {
    assert_eq!(
        validate_filename("doppelkopf-\u{e4}.json"),
        Err(ValidationError::InvalidCharacter)
    );
}

#[test]
fn rejects_wrong_suffix() {
    assert_eq!(
        validate_filename("doppelkopf-a.txt"),
        Err(ValidationError::MissingJsonSuffix)
    );
}

#[test]
fn rejects_missing_prefix() {
    assert_eq!(
        validate_filename("game-a.json"),
        Err(ValidationError::MissingPrefix)
    );
}

#[test]
fn error_messages_are_nonempty() {
    let errors = vec![
        ValidationError::Empty,
        ValidationError::TooLong,
        ValidationError::ForbiddenSequence,
        ValidationError::InvalidCharacter,
        ValidationError::MissingJsonSuffix,
        ValidationError::MissingPrefix,
    ];
    for e in errors {
        assert!(!e.message().is_empty());
    }
}
