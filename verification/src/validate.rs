//! Validation rules for the names and texts that clients submit: channel
//! names, group names, user names, chat messages and picture URLs.
//!
//! Lengths are counted in characters (Unicode scalar values), not bytes.

use vstd::prelude::*;

verus! {

/// Longest allowed channel name, in characters.
pub const MAX_CHANNEL_NAME_LENGTH: usize = 32;

/// Longest allowed group name, in characters.
pub const MAX_GROUP_NAME_LENGTH: usize = 32;

/// Longest allowed picture URL, in characters.
pub const MAX_URL_LENGTH: usize = 2048;

/// Longest allowed user name, in characters.
pub const MAX_USER_NAME_LENGTH: usize = 64;

/// Longest allowed chat message, in characters.
pub const MAX_MESSAGE_LENGTH: usize = 1024;

/// Whether `c` has the Unicode `White_Space` property.
pub uninterp spec fn is_unicode_whitespace(c: char) -> bool;

/// Relies on char::is_whitespace: whether a character has the Unicode
/// `White_Space` property; the result depends on the character alone.
#[verifier::external_body]
fn char_is_whitespace(c: char) -> (r: bool)
    ensures
        r == is_unicode_whitespace(c),
{
    c.is_whitespace()
}

/// Characters that may appear in a channel name: anything except the channel
/// marker `#`, the user marker `@`, and whitespace.
pub open spec fn channel_name_char_ok(c: char) -> bool {
    c != '#' && c != '@' && !is_unicode_whitespace(c)
}

/// A channel name is non-empty, at most `MAX_CHANNEL_NAME_LENGTH` characters,
/// and contains no `#`, `@` or whitespace.
pub open spec fn channel_name_ok(s: Seq<char>) -> bool {
    &&& 0 < s.len() <= MAX_CHANNEL_NAME_LENGTH
    &&& forall|i: int| 0 <= i < s.len() ==> channel_name_char_ok(s[i])
}

pub fn valid_channel_name(name: &String) -> (r: bool)
    ensures
        r == channel_name_ok(name@),
{
    let len = name.as_str().unicode_len();
    if len == 0 || len > MAX_CHANNEL_NAME_LENGTH {
        return false;
    }
    let mut i: usize = 0;
    while i < len
        invariant
            i <= len,
            len == name@.len(),
            forall|j: int| 0 <= j < i ==> channel_name_char_ok(name@[j]),
        decreases len - i,
    {
        let c = name.as_str().get_char(i);
        if c == '#' || c == '@' || char_is_whitespace(c) {
            return false;
        }
        i += 1;
    }
    true
}

/// Whether the string holds at most `max_chars` characters.
pub fn within_char_limit(string: &String, max_chars: usize) -> (r: bool)
    ensures
        r == (string@.len() <= max_chars),
{
    string.as_str().unicode_len() <= max_chars
}

/// A group name is non-empty and at most `MAX_GROUP_NAME_LENGTH` characters.
pub open spec fn group_name_ok(s: Seq<char>) -> bool {
    0 < s.len() <= MAX_GROUP_NAME_LENGTH
}

pub fn valid_group_name(name: &String) -> (r: bool)
    ensures
        r == group_name_ok(name@),
{
    let len = name.as_str().unicode_len();
    len != 0 && len <= MAX_GROUP_NAME_LENGTH
}

/// Whether the string parses as an absolute URL.
pub uninterp spec fn url_parses(s: Seq<char>) -> bool;

/// Relies on reqwest::Url::parse (the url crate's parser): whether the string
/// parses as an absolute URL; the result depends on the string alone.
#[verifier::external_body]
fn url_parse_ok(url: &String) -> (r: bool)
    ensures
        r == url_parses(url@),
{
    reqwest::Url::parse(url.as_str()).is_ok()
}

/// A picture URL is at most `MAX_URL_LENGTH` characters and parses as an
/// absolute URL.
pub open spec fn url_ok(s: Seq<char>) -> bool {
    s.len() <= MAX_URL_LENGTH && url_parses(s)
}

pub fn valid_url(url: &String) -> (r: bool)
    ensures
        r == url_ok(url@),
{
    within_char_limit(url, MAX_URL_LENGTH) && url_parse_ok(url)
}

/// A user name is non-empty and at most `MAX_USER_NAME_LENGTH` characters.
pub open spec fn user_name_ok(s: Seq<char>) -> bool {
    0 < s.len() <= MAX_USER_NAME_LENGTH
}

pub fn valid_user_name(name: &String) -> (r: bool)
    ensures
        r == user_name_ok(name@),
{
    let len = name.as_str().unicode_len();
    len != 0 && len <= MAX_USER_NAME_LENGTH
}

/// A chat message is non-empty and at most `MAX_MESSAGE_LENGTH` characters.
pub open spec fn message_ok(s: Seq<char>) -> bool {
    0 < s.len() <= MAX_MESSAGE_LENGTH
}

pub fn valid_message(message: &String) -> (r: bool)
    ensures
        r == message_ok(message@),
{
    let len = message.as_str().unicode_len();
    len != 0 && len <= MAX_MESSAGE_LENGTH
}

} // verus!
