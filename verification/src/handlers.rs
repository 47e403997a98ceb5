//! The decision logic of the HTTP handlers around the hub: request shapes,
//! profile validation, the channel-page fallback rules and the sign-in
//! helpers.  The surrounding I/O (routing, cookies, storage and network
//! calls, rendering) lives with the embedding program, which hands plain
//! values in and out.

use vstd::prelude::*;

use vstd::string::StringExecFns;

use crate::protocol::{Channel, ChannelID, GroupID};
use crate::roster::{Group, User};
use crate::validate::{group_name_ok, url_ok, user_name_ok, valid_group_name, valid_url,
    valid_user_name};

verus! {

/// Body of a group-creation request.
#[derive(Clone, Debug, PartialEq)]
pub struct CreateGroupRequest {
    pub name: String,
    pub picture: String,
}

/// Body of an invitation-creation request.
#[derive(Clone, Copy, Debug, PartialEq, Eq, Structural)]
pub struct CreateInviteRequest {
    pub group_id: GroupID,
}

/// Body of a user-rename request.
#[derive(Clone, Debug, PartialEq)]
pub struct RenameUserRequest {
    pub name: String,
    pub picture: String,
}

/// Query of the login page: where to continue after a successful sign-in.
#[derive(Clone, Debug, PartialEq)]
pub struct LoginQuery {
    pub redirect: String,
}

/// Query parameters of a successful sign-in redirect.
#[derive(Clone, Debug, PartialEq)]
pub struct AuthSuccess {
    pub code: String,
    pub state: String,
}

/// Query parameters of a failed sign-in redirect.
#[derive(Clone, Debug, PartialEq)]
pub struct AuthFail {
    pub error: String,
}

/// The profile facts carried in a decoded identity token.
#[derive(Clone, Debug, PartialEq)]
pub struct Claims {
    pub iss: String,
    pub sub: String,
    pub name: String,
    pub picture: String,
    pub given_name: String,
    pub family_name: String,
    pub redirect: String,
}

/// One signing certificate of the identity provider, as fetched from its
/// key endpoint: key id, RSA modulus and exponent.
#[derive(Clone, Debug, PartialEq)]
pub struct Certificate {
    pub kid: String,
    pub n: String,
    pub e: String,
}

/// What a name-and-picture validation decided.
#[derive(Clone, Copy, Debug, PartialEq, Eq, Structural)]
pub enum ProfileCheck {
    NameInvalid,
    PictureInvalid,
    Valid,
}

/// Validate a group profile: the name rules first, then the picture URL.
pub fn validate_group_profile(name: &String, picture: &String) -> (r: ProfileCheck)
    ensures
        !group_name_ok(name@) ==> r == ProfileCheck::NameInvalid,
        group_name_ok(name@) && !url_ok(picture@) ==> r == ProfileCheck::PictureInvalid,
        group_name_ok(name@) && url_ok(picture@) ==> r == ProfileCheck::Valid,
{
    if !valid_group_name(name) {
        ProfileCheck::NameInvalid
    } else if !valid_url(picture) {
        ProfileCheck::PictureInvalid
    } else {
        ProfileCheck::Valid
    }
}

/// Validate a user profile: the name rules first, then the picture URL.
pub fn validate_user_profile(name: &String, picture: &String) -> (r: ProfileCheck)
    ensures
        !user_name_ok(name@) ==> r == ProfileCheck::NameInvalid,
        user_name_ok(name@) && !url_ok(picture@) ==> r == ProfileCheck::PictureInvalid,
        user_name_ok(name@) && url_ok(picture@) ==> r == ProfileCheck::Valid,
{
    if !valid_user_name(name) {
        ProfileCheck::NameInvalid
    } else if !valid_url(picture) {
        ProfileCheck::PictureInvalid
    } else {
        ProfileCheck::Valid
    }
}

/// The position of the group with this id in the user's group list.
pub fn find_group_entry(group_list: &Vec<Group>, group_id: GroupID) -> (r: Option<usize>)
    ensures
        match r {
            Some(i) => i < group_list@.len() && group_list@[i as int].group_id == group_id,
            None => forall|i: int|
                0 <= i < group_list@.len() ==> (#[trigger] group_list@[i]).group_id != group_id,
        },
{
    let mut i: usize = 0;
    while i < group_list.len()
        invariant
            i <= group_list@.len(),
            forall|j: int| 0 <= j < i ==> (#[trigger] group_list@[j]).group_id != group_id,
        decreases group_list@.len() - i,
    {
        if group_list[i].group_id == group_id {
            return Some(i);
        }
        i += 1;
    }
    None
}

/// The position of the channel with this id in a channel list.
pub fn find_channel_entry(channel_list: &Vec<Channel>, channel_id: ChannelID) -> (r: Option<usize>)
    ensures
        match r {
            Some(i) => i < channel_list@.len() && channel_list@[i as int].channel_id == channel_id,
            None => forall|i: int|
                0 <= i < channel_list@.len() ==> (#[trigger] channel_list@[i]).channel_id
                    != channel_id,
        },
{
    let mut i: usize = 0;
    while i < channel_list.len()
        invariant
            i <= channel_list@.len(),
            forall|j: int| 0 <= j < i ==> (#[trigger] channel_list@[j]).channel_id != channel_id,
        decreases channel_list@.len() - i,
    {
        if channel_list[i].channel_id == channel_id {
            return Some(i);
        }
        i += 1;
    }
    None
}

/// Resolve the group a channel page shows.  A group id the user is a member
/// of resolves to itself with the requested channel kept; anything else falls
/// back to the user's first group, dropping the requested channel.
pub fn resolve_page_group(group_list: &Vec<Group>, group_id: GroupID, channel_id: ChannelID) -> (r:
    (usize, GroupID, ChannelID))
    requires
        group_list@.len() > 0,
    ensures
        r.0 < group_list@.len(),
        group_list@[r.0 as int].group_id == r.1,
        (exists|i: int|
            0 <= i < group_list@.len() && (#[trigger] group_list@[i]).group_id == group_id) ==> r.1
            == group_id && r.2 == channel_id,
        (forall|i: int|
            0 <= i < group_list@.len() && (#[trigger] group_list@[i]).group_id != group_id) ==> r.0
            == 0 && r.2 == 0,
{
    match find_group_entry(group_list, group_id) {
        Some(i) => (i, group_id, channel_id),
        None => (0, group_list[0].group_id, 0),
    }
}

/// Resolve the channel a channel page shows: the requested channel if the
/// group has it, else the group's first channel.
pub fn resolve_page_channel(channel_list: &Vec<Channel>, channel_id: ChannelID) -> (r: (
    usize,
    ChannelID,
))
    requires
        channel_list@.len() > 0,
    ensures
        r.0 < channel_list@.len(),
        channel_list@[r.0 as int].channel_id == r.1,
        (exists|i: int|
            0 <= i < channel_list@.len() && (#[trigger] channel_list@[i]).channel_id == channel_id)
            ==> r.1 == channel_id,
        (forall|i: int|
            0 <= i < channel_list@.len() && (#[trigger] channel_list@[i]).channel_id != channel_id)
            ==> r.0 == 0,
{
    match find_channel_entry(channel_list, channel_id) {
        Some(i) => (i, channel_id),
        None => (0, channel_list[0].channel_id),
    }
}

/// The pictures a channel page preloads: every group picture, then every
/// member picture, in listing order.
pub fn preload_images(group_list: &Vec<Group>, user_list: &Vec<User>) -> (r: Vec<String>)
    ensures
        r@.len() == group_list@.len() + user_list@.len(),
        forall|i: int| 0 <= i < group_list@.len() ==> r@[i] == (#[trigger] group_list@[i]).picture,
        forall|i: int|
            0 <= i < user_list@.len() ==> r@[group_list@.len() + i] == (
            #[trigger] user_list@[i]).picture,
{
    let mut r: Vec<String> = Vec::new();
    let mut i: usize = 0;
    while i < group_list.len()
        invariant
            i <= group_list@.len(),
            r@.len() == i,
            forall|j: int| 0 <= j < i ==> r@[j] == (#[trigger] group_list@[j]).picture,
        decreases group_list@.len() - i,
    {
        r.push(group_list[i].picture.clone());
        i += 1;
    }
    let mut k: usize = 0;
    while k < user_list.len()
        invariant
            k <= user_list@.len(),
            r@.len() == group_list@.len() + k,
            forall|j: int| 0 <= j < group_list@.len() ==> r@[j] == (#[trigger] group_list@[j]).picture,
            forall|j: int|
                0 <= j < k ==> r@[group_list@.len() + j] == (#[trigger] user_list@[j]).picture,
        decreases user_list@.len() - k,
    {
        r.push(user_list[k].picture.clone());
        k += 1;
    }
    r
}

/// The page title of a channel view: the group name, `#`, the channel name.
pub fn page_title(group_name: &String, channel_name: &String) -> (r: String)
    ensures
        r@ == group_name@ + "#"@ + channel_name@,
{
    let mut r = group_name.clone();
    r.append("#");
    r.append(channel_name.as_str());
    r
}

/// The identity token's issuer must be the provider itself, under either of
/// the two names it signs with.
pub fn accepted_issuer(iss: &String) -> (r: bool)
    ensures
        r == (iss@ == "accounts.google.com"@ || iss@ == "https://accounts.google.com"@),
{
    let plain = String::from_str("accounts.google.com");
    let https = String::from_str("https://accounts.google.com");
    *iss == plain || *iss == https
}

/// The position of the signing certificate whose key id the token names.
pub fn find_certificate(certs: &Vec<Certificate>, kid: &String) -> (r: Option<usize>)
    ensures
        match r {
            Some(i) => i < certs@.len() && certs@[i as int].kid@ == kid@,
            None => forall|i: int| 0 <= i < certs@.len() ==> (#[trigger] certs@[i]).kid@ != kid@,
        },
{
    let mut i: usize = 0;
    while i < certs.len()
        invariant
            i <= certs@.len(),
            forall|j: int| 0 <= j < i ==> (#[trigger] certs@[j]).kid@ != kid@,
        decreases certs@.len() - i,
    {
        if certs[i].kid == *kid {
            return Some(i);
        }
        i += 1;
    }
    None
}

} // verus!
