//! Word records.

use vstd::prelude::*;

verus! {

/// A word as the record store holds it. `user_id` is the owner: the user
/// who submitted the word.
#[derive(Debug, Clone, PartialEq, Eq)]
pub struct Word {
    pub id: i32,
    pub title: String,
    pub description: String,
    pub character: String,
    pub approved: bool,
    pub user_id: i32,
}

/// A word as it is submitted, and as it is handed to the record store.
#[derive(Debug, Clone, PartialEq, Eq)]
pub struct NewWord {
    pub id: i32,
    pub title: String,
    pub description: String,
    pub character: String,
    pub approved: bool,
    pub user_id: i32,
}

impl NewWord {
    /// The record that the store makes of a submitted word.
    pub open spec fn stored(self) -> Word {
        Word {
            id: self.id,
            title: self.title,
            description: self.description,
            character: self.character,
            approved: self.approved,
            user_id: self.user_id,
        }
    }
}

} // verus!
