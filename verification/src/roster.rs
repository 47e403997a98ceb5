//! Rows mirrored from the backing store: users and groups as the persistence
//! gateway reports them.  The hub consumes these through its boundary; it
//! never derives them itself.

use vstd::prelude::*;

use crate::protocol::{GroupID, UserID};

verus! {

/// A user as stored: id, display name, picture URL.
#[derive(Clone, Debug, PartialEq)]
pub struct User {
    pub user_id: UserID,
    pub name: String,
    pub picture: String,
}

/// A user without the id, as shown to other users.
#[derive(Clone, Debug, PartialEq)]
pub struct AnonUser {
    pub name: String,
    pub picture: String,
}

/// The identity facts an external sign-in supplies for a user.
#[derive(Clone, Debug, PartialEq)]
pub struct GoogleUser {
    pub google_id: String,
    pub name: String,
    pub picture: String,
}

/// A group as stored: id, name, picture URL.
#[derive(Clone, Debug, PartialEq)]
pub struct Group {
    pub group_id: GroupID,
    pub name: String,
    pub picture: String,
}

} // verus!
