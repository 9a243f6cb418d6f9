//! The table of words as the handlers' questions change it, and what
//! follows for whole requests.
//!
//! The table here is a mathematical one, answering every question at once
//! and without fault. A request is run against it by answering each
//! question that its handler asks; the laws below say what that does to the
//! table and how the request ends.

use crate::jwt::Claims;
use crate::response::ApiError;
use crate::word::handlers::{
    create_word_asks, create_word_ends, concluded, delete_word_ends, delete_word_goes_on,
    may_delete, update_word_goes_on, update_word_starts, Step, WordQuery, WordReply,
};
use crate::word::models::{NewWord, Word};
use vstd::prelude::*;

verus! {

/// The word with its flag set to `approved`, and nothing else changed.
pub open spec fn with_approval(word: Word, approved: bool) -> Word {
    Word {
        id: word.id,
        title: word.title,
        description: word.description,
        character: word.character,
        approved,
        user_id: word.user_id,
    }
}

/// The table after a question, and the reply to it. A word cannot be added
/// under an id that is taken.
pub open spec fn answer(table: Map<i32, Word>, query: WordQuery) -> (Map<i32, Word>, WordReply) {
    match query {
        WordQuery::Insert(new_word) => if table.contains_key(new_word.id) {
            (table, WordReply::Failed)
        } else {
            (table.insert(new_word.id, new_word.stored()), WordReply::Row(new_word.stored()))
        },
        WordQuery::Find(id) => if table.contains_key(id) {
            (table, WordReply::Row(table[id]))
        } else {
            (table, WordReply::Missing)
        },
        WordQuery::SetApproval { id, approved } => if table.contains_key(id) {
            (
                table.insert(id, with_approval(table[id], approved)),
                WordReply::Row(with_approval(table[id], approved)),
            )
        } else {
            (table, WordReply::Missing)
        },
        WordQuery::Delete(id) => if table.contains_key(id) {
            (table.remove(id), WordReply::Row(table[id]))
        } else {
            (table, WordReply::Missing)
        },
    }
}

/// Each record stands under its own id.
pub open spec fn keyed(table: Map<i32, Word>) -> bool {
    forall|id: i32| table.contains_key(id) ==> (#[trigger] table[id]).id == id
}

/// The table after a submission, and how the request ends.
pub open spec fn submitted(table: Map<i32, Word>, claims: Claims, new_word: NewWord) -> (
    Map<i32, Word>,
    Result<Word, ApiError>,
) {
    let (after, reply) = answer(table, create_word_asks(claims, new_word));
    (after, create_word_ends(reply))
}

/// The table after a request to set the flag of the word `id`, and how the
/// request ends.
pub open spec fn updated(table: Map<i32, Word>, claims: Claims, id: i32, approved: bool) -> (
    Map<i32, Word>,
    Result<Word, ApiError>,
) {
    match update_word_starts(claims, id) {
        Step::Done(end) => (table, end),
        Step::Ask(lookup) => {
            let (found, reply) = answer(table, lookup);
            match update_word_goes_on(id, approved, reply) {
                Step::Done(end) => (found, end),
                Step::Ask(change) => {
                    let (after, last) = answer(found, change);
                    (after, concluded(last))
                },
            }
        },
    }
}

/// The table after a request to delete the word `id`, and how the request
/// ends.
pub open spec fn deleted(table: Map<i32, Word>, claims: Claims, id: i32) -> (
    Map<i32, Word>,
    Result<i32, ApiError>,
) {
    let (found, reply) = answer(table, WordQuery::Find(id));
    match delete_word_goes_on(claims, id, reply) {
        Step::Done(end) => (found, end),
        Step::Ask(removal) => {
            let (after, last) = answer(found, removal);
            (after, delete_word_ends(last))
        },
    }
}

/// The record under `id`, where both tables have one, has the same owner in both.
pub open spec fn same_owner(before: Map<i32, Word>, after: Map<i32, Word>, id: i32) -> bool {
    before.contains_key(id) && after.contains_key(id) ==> after[id].user_id == before[id].user_id
}

/// The record under `id`, where both tables have one, has the same flag in both.
pub open spec fn same_flag(before: Map<i32, Word>, after: Map<i32, Word>, id: i32) -> bool {
    before.contains_key(id) && after.contains_key(id) ==> after[id].approved == before[id].approved
}

/// A caller who is no administrator cannot approve or reject: whatever the
/// word id, the request ends as forbidden and the table is as it was.
pub proof fn approval_needs_an_administrator(
    table: Map<i32, Word>,
    claims: Claims,
    id: i32,
    approved: bool,
)
    requires
        !claims.is_admin,
    ensures
        update_word_starts(claims, id) == Step::<Word>::Done(Err(ApiError::Forbidden)),
        updated(table, claims, id, approved) == (
            table,
            Err::<Word, ApiError>(ApiError::Forbidden),
        ),
{
}

/// An administrator's request sets the flag of a word that exists, and of
/// no other word, and answers with the word as it then is; of a word that
/// does not exist it changes nothing and finds nothing.
pub proof fn approval_by_an_administrator(
    table: Map<i32, Word>,
    claims: Claims,
    id: i32,
    approved: bool,
)
    requires
        claims.is_admin,
    ensures
        table.contains_key(id) ==> updated(table, claims, id, approved) == (
            table.insert(id, with_approval(table[id], approved)),
            Ok::<Word, ApiError>(with_approval(table[id], approved)),
        ),
        !table.contains_key(id) ==> updated(table, claims, id, approved) == (
            table,
            Err::<Word, ApiError>(ApiError::NotFound),
        ),
{
}

/// A caller who neither owns a word nor is an administrator cannot delete
/// it: the request ends as forbidden and the table, the word with it, is
/// as it was.
pub proof fn deletion_needs_the_owner_or_an_administrator(
    table: Map<i32, Word>,
    claims: Claims,
    id: i32,
)
    requires
        table.contains_key(id),
        !claims.is_admin,
        table[id].user_id != claims.id,
    ensures
        deleted(table, claims, id) == (table, Err::<i32, ApiError>(ApiError::Forbidden)),
        deleted(table, claims, id).0.contains_key(id),
{
}

/// The owner's request, and an administrator's, removes a word that exists
/// and no other; of a word that does not exist it changes nothing and finds
/// nothing.
pub proof fn deletion_by_the_owner_or_an_administrator(
    table: Map<i32, Word>,
    claims: Claims,
    id: i32,
)
    ensures
        table.contains_key(id) && may_delete(claims, table[id]) ==> deleted(table, claims, id) == (
            table.remove(id),
            Ok::<i32, ApiError>(table[id].id),
        ),
        !table.contains_key(id) ==> deleted(table, claims, id) == (
            table,
            Err::<i32, ApiError>(ApiError::NotFound),
        ),
{
}

/// Once a word is deleted, a second request to delete it finds nothing,
/// whoever makes it.
pub proof fn second_deletion_finds_nothing(
    table: Map<i32, Word>,
    first: Claims,
    second: Claims,
    id: i32,
)
    requires
        deleted(table, first, id).1 is Ok,
    ensures
        deleted(deleted(table, first, id).0, second, id).1 == Err::<i32, ApiError>(
            ApiError::NotFound,
        ),
        deleted(deleted(table, first, id).0, second, id).0 == deleted(table, first, id).0,
{
    assert(table.contains_key(id));
    assert(!table.remove(id).contains_key(id));
}

/// A submitted word is stored as not approved and as the caller's own, under
/// the id it was submitted with; where that id is taken nothing is stored.
pub proof fn submission_is_pending_and_owned(
    table: Map<i32, Word>,
    claims: Claims,
    new_word: NewWord,
)
    ensures
        match submitted(table, claims, new_word).1 {
            Ok(word) => {
                &&& !table.contains_key(new_word.id)
                &&& !word.approved
                &&& word.user_id == claims.id
                &&& word.id == new_word.id
                &&& submitted(table, claims, new_word).0 == table.insert(new_word.id, word)
            },
            Err(e) => {
                &&& table.contains_key(new_word.id)
                &&& e == ApiError::Internal
                &&& submitted(table, claims, new_word).0 == table
            },
        },
{
}

/// No request gives a word another owner: a word that is in the table
/// before and after a submission, an approval or a deletion has the owner
/// it had.
pub proof fn owner_is_never_reassigned(
    table: Map<i32, Word>,
    claims: Claims,
    new_word: NewWord,
    id: i32,
    approved: bool,
    other: i32,
)
    ensures
        same_owner(table, submitted(table, claims, new_word).0, other),
        same_owner(table, updated(table, claims, id, approved).0, other),
        same_owner(table, deleted(table, claims, id).0, other),
{
}

/// The flag of a word changes through an administrator's approval and in
/// no other way: a submission and a deletion leave the flag of every word
/// that stays as it was, and so does an approval asked by a caller who is
/// no administrator, or asked for another word.
pub proof fn flag_changes_by_approval_only(
    table: Map<i32, Word>,
    claims: Claims,
    new_word: NewWord,
    id: i32,
    approved: bool,
    other: i32,
)
    ensures
        same_flag(table, submitted(table, claims, new_word).0, other),
        same_flag(table, deleted(table, claims, id).0, other),
        !claims.is_admin || other != id ==> same_flag(
            table,
            updated(table, claims, id, approved).0,
            other,
        ),
{
}

/// Each record stays under its own id.
pub proof fn requests_keep_the_table_keyed(
    table: Map<i32, Word>,
    claims: Claims,
    new_word: NewWord,
    id: i32,
    approved: bool,
)
    requires
        keyed(table),
    ensures
        keyed(submitted(table, claims, new_word).0),
        keyed(updated(table, claims, id, approved).0),
        keyed(deleted(table, claims, id).0),
{
}

} // verus!
