use leaderboard::auth::{
    accepts, authenticate, check_credential, Admission, LoginError, FORBIDDEN, UNAUTHORIZED,
};
use leaderboard::style::{css, STYLESHEET};
use leaderboard::text::str_eq;

#[test]
fn a_request_without_credential_is_unauthorized() {
    let refused = authenticate(None, "secret").unwrap_err();
    assert_eq!(refused, LoginError::NoSecret);
    assert_eq!(refused.status(), 401);
    assert_eq!(UNAUTHORIZED, 401);
}

#[test]
fn a_wrong_credential_is_forbidden() {
    let refused = authenticate(Some("guess"), "secret").unwrap_err();
    assert_eq!(refused, LoginError::BadSecret);
    assert_eq!(refused.status(), 403);
    assert_eq!(FORBIDDEN, 403);
}

#[test]
fn the_configured_secret_is_accepted() {
    assert!(authenticate(Some("secret"), "secret").is_ok());
}

#[test]
fn each_of_several_secrets_is_accepted() {
    assert!(authenticate(Some("one"), "one two three").is_ok());
    assert!(authenticate(Some("two"), "one two three").is_ok());
    assert!(authenticate(Some("three"), "one two three").is_ok());
    assert_eq!(authenticate(Some("four"), "one two three").unwrap_err(), LoginError::BadSecret);
}

#[test]
fn a_part_of_a_secret_is_not_accepted() {
    assert!(!accepts("one two", "on"));
    assert!(!accepts("one two", "ne"));
    assert!(!accepts("one two", "one two"));
    assert!(!accepts("one two", "one "));
    assert!(!accepts("one two", "e t"));
    assert!(!accepts("one two", "onetwo"));
    assert!(!accepts("one two", "One"));
}

#[test]
fn any_whitespace_parts_the_secrets() {
    assert!(accepts("one\ttwo\nthree", "two"));
    assert!(accepts("one\u{2003}two", "one"));
    assert!(accepts("one\u{a0}two", "two"));
    assert!(!accepts("one\ttwo", "one\ttwo"));
    assert!(!accepts("one_two", "one"));
    assert!(!accepts("one\u{200b}two", "one"));
}

#[test]
fn the_empty_credential_is_never_accepted() {
    assert!(!accepts("one  two", ""));
    assert!(!accepts(" one", ""));
    assert!(!accepts("one ", ""));
    assert!(!accepts("", ""));
    assert!(!accepts(" ", ""));
    assert!(!accepts("a\n", ""));
    assert!(!accepts("one two", ""));
    assert!(!accepts("one", ""));
    assert_eq!(authenticate(Some(""), "a  b").unwrap_err(), LoginError::BadSecret);
    assert_eq!(authenticate(Some(""), "a\n").unwrap_err(), LoginError::BadSecret);
    assert_eq!(authenticate(Some(""), "").unwrap_err(), LoginError::BadSecret);
}

#[test]
fn whitespace_in_a_row_or_at_an_end_parts_off_no_secret() {
    assert!(accepts("one  two", "one"));
    assert!(accepts("one  two", "two"));
    assert!(accepts("  one \t\n two  ", "one"));
    assert!(accepts("  one \t\n two  ", "two"));
    assert!(accepts("a\n", "a"));
    assert!(!accepts("  one \t\n two  ", " "));
    assert!(!accepts("  one \t\n two  ", "one "));
    assert!(!accepts("   ", " "));
}

#[test]
fn a_request_without_credential_is_refused_whether_a_secret_is_configured_or_not() {
    assert!(matches!(
        check_credential(None, Some("secret")),
        Admission::Refused(LoginError::NoSecret)
    ));
    assert!(matches!(check_credential(None, None), Admission::Refused(LoginError::NoSecret)));
}

#[test]
fn a_credential_without_a_configured_secret_is_a_missing_secret() {
    assert!(matches!(check_credential(Some("secret"), None), Admission::SecretMissing));
    assert!(matches!(check_credential(Some(""), None), Admission::SecretMissing));
}

#[test]
fn a_credential_is_held_against_the_configured_secret() {
    assert!(matches!(check_credential(Some("two"), Some("one two")), Admission::Granted(_)));
    assert!(matches!(
        check_credential(Some("three"), Some("one two")),
        Admission::Refused(LoginError::BadSecret)
    ));
    assert!(matches!(
        check_credential(Some(""), Some("one  two")),
        Admission::Refused(LoginError::BadSecret)
    ));
}

#[test]
fn secrets_beyond_ascii_are_compared_whole() {
    assert!(accepts("schlüssel clé", "clé"));
    assert!(!accepts("schlüssel clé", "cle"));
    assert!(!accepts("schlüssel clé", "schlussel"));
}

#[test]
fn the_stylesheet_is_served_as_it_is() {
    assert_eq!(css(), STYLESHEET);
    assert!(css().starts_with("body {"));
    assert!(css().ends_with("}\n"));
}

#[test]
fn strings_are_equal_when_their_characters_are() {
    assert!(str_eq("", ""));
    assert!(str_eq("abc", "abc"));
    assert!(!str_eq("abc", "abd"));
    assert!(!str_eq("abc", "ab"));
    assert!(!str_eq("ab", "abc"));
    assert!(!str_eq("", "a"));
    assert!(str_eq("zoë", "zoë"));
    assert!(!str_eq("zoë", "zoe"));
    assert!(!str_eq("e\u{301}", "\u{e9}"));
}
