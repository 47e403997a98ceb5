//! Random identifier strings, used for session and invitation ids.
//!
//! The string is built character by character from a verified alphabet
//! mapping; only the draw of each random value is trusted.

use vstd::prelude::*;

verus! {

/// One of the sixty-four characters of the base64url alphabet:
/// `A`-`Z`, `a`-`z`, `0`-`9`, `-` and `_`.
pub open spec fn base64url_char(c: char) -> bool {
    ||| 65 <= c as u32 <= 90
    ||| 97 <= c as u32 <= 122
    ||| 48 <= c as u32 <= 57
    ||| c as u32 == 45
    ||| c as u32 == 95
}

/// Relies on rand::random_range, which draws a uniformly distributed value
/// from the half-open range and panics only when the range is empty.
#[verifier::external_body]
fn random_below(bound: u8) -> (r: u8)
    requires
        bound > 0,
    ensures
        r < bound,
{
    rand::random_range(0..bound)
}

/// Relies on String::push: appends one character at the end of the string.
#[verifier::external_body]
fn push_char(s: &mut String, c: char)
    ensures
        final(s)@ == old(s)@.push(c),
{
    s.push(c);
}

/// The base64url character standing for a value below sixty-four: the
/// capitals first, then the small letters, the digits, `-` and `_`.
fn base64url_encode_one(num: u8) -> (c: char)
    requires
        num < 64,
    ensures
        base64url_char(c),
{
    let b: u8 = if num < 26 {
        65 + num
    } else if num < 2 * 26 {
        97 + (num - 26)
    } else if num < 2 * 26 + 10 {
        48 + (num - 2 * 26)
    } else if num == 2 * 26 + 10 {
        45
    } else {
        95
    };
    b as char
}

/// Generate a base64url-encoded random string of exactly `length` characters.
pub fn generate_random_base64url(length: usize) -> (r: String)
    ensures
        r@.len() == length,
        forall|i: int| 0 <= i < r@.len() ==> base64url_char(#[trigger] r@[i]),
{
    let mut r = String::new();
    let mut i: usize = 0;
    while i < length
        invariant
            i <= length,
            r@.len() == i,
            forall|j: int| 0 <= j < r@.len() ==> base64url_char(#[trigger] r@[j]),
        decreases length - i,
    {
        let num = random_below(64);
        let c = base64url_encode_one(num);
        push_char(&mut r, c);
        i += 1;
    }
    r
}

} // verus!
