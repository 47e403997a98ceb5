//! The handler decision logic: page fallbacks, profile validation, sign-in
//! helpers, random ids and the PNG wrapper.

use chat::handlers::{accepted_issuer, find_certificate, page_title, preload_images,
    resolve_page_channel, resolve_page_group, validate_group_profile, validate_user_profile,
    Certificate, ProfileCheck};
use chat::png::optimize_png;
use chat::protocol::Channel;
use chat::random::generate_random_base64url;
use chat::roster::{Group, User};

fn group(id: i32, name: &str, picture: &str) -> Group {
    Group { group_id: id, name: name.to_string(), picture: picture.to_string() }
}

#[test]
fn group_profile_validation_order() {
    let url = "https://example.net/p.png".to_string();
    assert_eq!(validate_group_profile(&"".to_string(), &url), ProfileCheck::NameInvalid);
    // an invalid name is reported even when the picture is also invalid
    assert_eq!(
        validate_group_profile(&"".to_string(), &"bad".to_string()),
        ProfileCheck::NameInvalid
    );
    assert_eq!(
        validate_group_profile(&"team".to_string(), &"bad".to_string()),
        ProfileCheck::PictureInvalid
    );
    assert_eq!(validate_group_profile(&"team".to_string(), &url), ProfileCheck::Valid);
}

#[test]
fn user_profile_validation() {
    let url = "https://example.net/p.png".to_string();
    assert_eq!(validate_user_profile(&"".to_string(), &url), ProfileCheck::NameInvalid);
    assert_eq!(
        validate_user_profile(&"x".repeat(65), &url),
        ProfileCheck::NameInvalid
    );
    assert_eq!(
        validate_user_profile(&"Ada".to_string(), &"bad".to_string()),
        ProfileCheck::PictureInvalid
    );
    assert_eq!(validate_user_profile(&"Ada".to_string(), &url), ProfileCheck::Valid);
}

#[test]
fn page_group_fallback() {
    let groups = vec![group(4, "first", "f.png"), group(7, "second", "s.png")];
    // a known group keeps the requested channel
    assert_eq!(resolve_page_group(&groups, 7, 33), (1, 7, 33));
    // an unknown group falls back to the first group, dropping the channel
    assert_eq!(resolve_page_group(&groups, 99, 33), (0, 4, 0));
}

#[test]
fn page_channel_fallback() {
    let channels = vec![
        Channel { channel_id: 2, name: "general".to_string() },
        Channel { channel_id: 5, name: "dev".to_string() },
    ];
    assert_eq!(resolve_page_channel(&channels, 5), (1, 5));
    assert_eq!(resolve_page_channel(&channels, 99), (0, 2));
}

#[test]
fn preload_collects_all_pictures() {
    let groups = vec![group(4, "a", "ga.png"), group(7, "b", "gb.png")];
    let users = vec![User { user_id: 1, name: "Ada".to_string(), picture: "u.png".to_string() }];
    assert_eq!(preload_images(&groups, &users), vec!["ga.png", "gb.png", "u.png"]);
}

#[test]
fn title_joins_group_and_channel() {
    assert_eq!(page_title(&"team".to_string(), &"general".to_string()), "team#general");
}

#[test]
fn issuer_must_be_the_provider() {
    assert!(accepted_issuer(&"accounts.google.com".to_string()));
    assert!(accepted_issuer(&"https://accounts.google.com".to_string()));
    assert!(!accepted_issuer(&"https://example.net".to_string()));
}

#[test]
fn certificate_lookup_by_key_id() {
    let certs = vec![
        Certificate { kid: "k1".to_string(), n: "n1".to_string(), e: "e1".to_string() },
        Certificate { kid: "k2".to_string(), n: "n2".to_string(), e: "e2".to_string() },
    ];
    assert_eq!(find_certificate(&certs, &"k2".to_string()), Some(1));
    assert_eq!(find_certificate(&certs, &"k3".to_string()), None);
}

#[test]
fn random_id_has_length_and_alphabet() {
    let id = generate_random_base64url(16);
    assert_eq!(id.chars().count(), 16);
    for c in id.chars() {
        assert!(c.is_ascii_alphanumeric() || c == '-' || c == '_');
    }
    assert_eq!(generate_random_base64url(0), "");
    // two draws of this length almost surely differ; equal draws would hint
    // that the generator ignores its randomness
    assert_ne!(generate_random_base64url(16), generate_random_base64url(16));
}

#[test]
fn png_rejects_garbage() {
    assert_eq!(optimize_png(&[1, 2, 3, 4]), None);
}
