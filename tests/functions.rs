use invoicy::text::{sanitize_string, validate_text_input};

#[test]
fn test_sanitize_string() {
    assert_eq!(sanitize_string("Hey There 1 2 3 $"), "hey_there_1_2_3__");
}

#[test]
fn test_validate_text_input() {
    assert_eq!(
        validate_text_input(""),
        Some("Input cannot be empty".to_string())
    );
}

#[test]
fn validate_accepts_non_empty_input() {
    assert_eq!(validate_text_input("Acme"), None);
}

#[test]
fn sanitize_lowercases_and_keeps_unicode_letters() {
    assert_eq!(sanitize_string("ÉCOLE-Nord"), "école_nord");
    assert_eq!(sanitize_string(""), "");
}
