//! A user record and its builder.

use vstd::prelude::*;

verus! {

/// An account: the address mail reaches it at and the name it goes by.
pub struct User {
    pub email: String,
    pub username: String,
}

/// Build a user from its two fields, kept exactly as given.
pub fn build_user(email: String, username: String) -> (u: User)
    ensures
        u.email@ == email@,
        u.username@ == username@,
{
    User { email, username }
}

} // verus!
