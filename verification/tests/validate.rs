//! The string validation rules, checked on concrete values.

use chat::validate::{valid_channel_name, valid_group_name, valid_message, valid_url,
    valid_user_name, within_char_limit, MAX_CHANNEL_NAME_LENGTH, MAX_GROUP_NAME_LENGTH,
    MAX_MESSAGE_LENGTH, MAX_URL_LENGTH, MAX_USER_NAME_LENGTH};

#[test]
fn channel_name_plain() {
    assert!(valid_channel_name(&"general".to_string()));
}

#[test]
fn channel_name_empty_rejected() {
    assert!(!valid_channel_name(&"".to_string()));
}

#[test]
fn channel_name_length_limits() {
    assert_eq!(MAX_CHANNEL_NAME_LENGTH, 32);
    let at_limit = "x".repeat(32);
    assert!(valid_channel_name(&at_limit));
    let over_limit = "x".repeat(33);
    assert!(!valid_channel_name(&over_limit));
}

#[test]
fn channel_name_counts_characters_not_bytes() {
    // 32 two-byte characters: 64 bytes, but within the character limit.
    let wide = "é".repeat(32);
    assert_eq!(wide.len(), 64);
    assert!(valid_channel_name(&wide));
    assert!(!valid_channel_name(&"é".repeat(33)));
}

#[test]
fn channel_name_forbidden_characters() {
    assert!(!valid_channel_name(&"a#b".to_string()));
    assert!(!valid_channel_name(&"a@b".to_string()));
    assert!(!valid_channel_name(&"a b".to_string()));
    assert!(!valid_channel_name(&"a\tb".to_string()));
    // a non-ASCII whitespace character counts as whitespace too
    assert!(!valid_channel_name(&"a\u{2003}b".to_string()));
}

#[test]
fn within_char_limit_boundary() {
    assert!(within_char_limit(&"abcd".to_string(), 4));
    assert!(!within_char_limit(&"abcde".to_string(), 4));
    assert!(within_char_limit(&"".to_string(), 0));
}

#[test]
fn group_name_rules() {
    assert_eq!(MAX_GROUP_NAME_LENGTH, 32);
    assert!(valid_group_name(&"my group".to_string()));
    assert!(!valid_group_name(&"".to_string()));
    assert!(valid_group_name(&"x".repeat(32)));
    assert!(!valid_group_name(&"x".repeat(33)));
}

#[test]
fn user_name_rules() {
    assert_eq!(MAX_USER_NAME_LENGTH, 64);
    assert!(valid_user_name(&"Ada".to_string()));
    assert!(!valid_user_name(&"".to_string()));
    assert!(valid_user_name(&"x".repeat(64)));
    assert!(!valid_user_name(&"x".repeat(65)));
}

#[test]
fn message_rules() {
    assert_eq!(MAX_MESSAGE_LENGTH, 1024);
    assert!(valid_message(&"hi".to_string()));
    assert!(!valid_message(&"".to_string()));
    assert!(valid_message(&"x".repeat(1024)));
    assert!(!valid_message(&"x".repeat(1025)));
}

#[test]
fn url_rules() {
    assert_eq!(MAX_URL_LENGTH, 2048);
    assert!(valid_url(&"https://example.net/picture.png".to_string()));
    // a relative reference is not an absolute URL
    assert!(!valid_url(&"not a url".to_string()));
    assert!(!valid_url(&"/picture.png".to_string()));
    // over the character limit, even though it would parse
    let long = format!("https://example.net/{}", "x".repeat(2048));
    assert!(!valid_url(&long));
}
