//! User records.

use vstd::prelude::*;

verus! {

/// A user as the record store holds it. `password` is the stored hash,
/// never the password itself.
#[derive(Debug, Clone, PartialEq, Eq)]
pub struct User {
    pub id: i32,
    pub is_admin: bool,
    pub email: String,
    pub password: String,
}

/// What signup is given, and what it hands to the record store: there
/// `password` is the stored hash.
#[derive(Debug, Clone, PartialEq, Eq)]
pub struct NewUser {
    pub email: String,
    pub password: String,
}

/// A user as responses show it: there is no field for the password.
#[derive(Debug, Clone, PartialEq, Eq)]
pub struct UserView {
    pub id: i32,
    pub is_admin: bool,
    pub email: String,
}

/// What a successful login answers with.
#[derive(Debug, Clone, PartialEq, Eq)]
pub struct LoginView {
    pub token: String,
    pub user: UserView,
}

impl User {
    /// The user without the stored hash.
    pub open spec fn public(self) -> UserView {
        UserView { id: self.id, is_admin: self.is_admin, email: self.email }
    }

    /// The user without the stored hash.
    pub fn into_view(self) -> (view: UserView)
        ensures
            view == self.public(),
    {
        UserView { id: self.id, is_admin: self.is_admin, email: self.email }
    }
}

} // verus!
