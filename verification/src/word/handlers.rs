//! What the word handlers decide.
//!
//! A handler does not reach the record store itself. It says what to ask
//! of the store, is handed back the store's reply, and says what to ask
//! next or how the request ends. Rights are looked at before anything that
//! changes a record is asked for.

use crate::jwt::Claims;
use crate::response::ApiError;
use crate::text::{append_text, push_signed_decimal, signed_decimal, string_of};
use crate::word::models::{NewWord, Word};
use vstd::prelude::*;

verus! {

/// Rows that a page of a listing is moved on by.
pub const PAGE_STRIDE: i64 = 10;

/// What a handler asks of the record store about one word.
#[derive(Debug, Clone, PartialEq, Eq)]
pub enum WordQuery {
    /// Add the word, and answer with the new record.
    Insert(NewWord),
    /// Answer with the record of this id.
    Find(i32),
    /// Set the flag of the record of this id, and answer with the record as it then is.
    SetApproval { id: i32, approved: bool },
    /// Remove the record of this id, and answer with the record removed.
    Delete(i32),
}

/// What the record store answers about one word.
#[derive(Debug, Clone, PartialEq, Eq)]
pub enum WordReply {
    /// The record asked for, added, changed or removed.
    Row(Word),
    /// There is no record of that id.
    Missing,
    /// The store could not do what was asked.
    Failed,
}

/// A listing that a handler asks of the record store.
#[derive(Debug, Clone, Copy, PartialEq, Eq, Structural)]
pub enum WordListing {
    /// The words that are not approved: `limit` of them, after the first `offset`.
    Pending { limit: i64, offset: i64 },
    /// The words of one owner.
    ByOwner(i32),
}

/// What a handler says after each reply: ask the store, or end the request.
#[derive(Debug, PartialEq, Eq)]
pub enum Step<T> {
    Ask(WordQuery),
    Done(Result<T, ApiError>),
}

/// Whether the caller may delete the word: its owner may, and an administrator.
pub open spec fn may_delete(claims: Claims, word: Word) -> bool {
    claims.is_admin || word.user_id == claims.id
}

/// The word that is stored for a submission: not approved, and owned by the caller.
pub open spec fn submission(claims: Claims, new_word: NewWord) -> NewWord {
    NewWord {
        id: new_word.id,
        title: new_word.title,
        description: new_word.description,
        character: new_word.character,
        approved: false,
        user_id: claims.id,
    }
}

/// How a request ends on the store's reply to its last question.
pub open spec fn concluded(reply: WordReply) -> Result<Word, ApiError> {
    match reply {
        WordReply::Row(word) => Ok(word),
        WordReply::Missing => Err(ApiError::NotFound),
        WordReply::Failed => Err(ApiError::Internal),
    }
}

/// Submitting a word: what is asked of the store.
pub open spec fn create_word_asks(claims: Claims, new_word: NewWord) -> WordQuery {
    WordQuery::Insert(submission(claims, new_word))
}

/// Submitting a word: how the request ends.
pub open spec fn create_word_ends(reply: WordReply) -> Result<Word, ApiError> {
    match reply {
        WordReply::Row(word) => Ok(word),
        _ => Err(ApiError::Internal),
    }
}

/// Approving or rejecting a word: the first step.
pub open spec fn update_word_starts(claims: Claims, id: i32) -> Step<Word> {
    if claims.is_admin {
        Step::Ask(WordQuery::Find(id))
    } else {
        Step::Done(Err(ApiError::Forbidden))
    }
}

/// Approving or rejecting a word: the step after the word was looked up.
pub open spec fn update_word_goes_on(id: i32, approved: bool, reply: WordReply) -> Step<Word> {
    match reply {
        WordReply::Row(_) => Step::Ask(WordQuery::SetApproval { id, approved }),
        WordReply::Missing => Step::Done(Err(ApiError::NotFound)),
        WordReply::Failed => Step::Done(Err(ApiError::Internal)),
    }
}

/// Deleting a word: the step after the word was looked up.
pub open spec fn delete_word_goes_on(claims: Claims, id: i32, reply: WordReply) -> Step<i32> {
    match reply {
        WordReply::Row(word) => if may_delete(claims, word) {
            Step::Ask(WordQuery::Delete(id))
        } else {
            Step::Done(Err(ApiError::Forbidden))
        },
        WordReply::Missing => Step::Done(Err(ApiError::NotFound)),
        WordReply::Failed => Step::Done(Err(ApiError::Internal)),
    }
}

/// Deleting a word: how the request ends.
pub open spec fn delete_word_ends(reply: WordReply) -> Result<i32, ApiError> {
    match reply {
        WordReply::Row(word) => Ok(word.id),
        WordReply::Missing => Err(ApiError::NotFound),
        WordReply::Failed => Err(ApiError::Internal),
    }
}

/// The rows that come before a page, where their number can be written in 64 bits.
pub open spec fn rows_before(page_index: i64) -> Option<i64> {
    if i64::MIN <= page_index * PAGE_STRIDE <= i64::MAX {
        Some((page_index * PAGE_STRIDE) as i64)
    } else {
        None
    }
}

/// The moderation queue: what is asked of the store, or why nothing is.
pub open spec fn pending_listing(claims: Claims, page_index: i64, limit: i64) -> Result<
    WordListing,
    ApiError,
> {
    if !claims.is_admin {
        Err(ApiError::Forbidden)
    } else {
        match rows_before(page_index) {
            Some(offset) => Ok(WordListing::Pending { limit, offset }),
            None => Err(ApiError::Validation),
        }
    }
}

/// What a successful deletion answers with.
pub open spec fn deleted_message(id: i32) -> Seq<char> {
    "Word (ID: "@ + signed_decimal(id as int) + ") deleted successfully"@
}

/// Submitting a word. Any caller with claims may; the word is stored as not
/// approved and as the caller's own, whatever the submission said of either.
pub fn create_word(claims: &Claims, new_word: NewWord) -> (query: WordQuery)
    ensures
        query == create_word_asks(*claims, new_word),
{
    WordQuery::Insert(
        NewWord {
            id: new_word.id,
            title: new_word.title,
            description: new_word.description,
            character: new_word.character,
            approved: false,
            user_id: claims.id,
        },
    )
}

/// Submitting a word: the end, on the store's reply to the insertion.
pub fn create_word_done(reply: WordReply) -> (r: Result<Word, ApiError>)
    ensures
        r == create_word_ends(reply),
{
    match reply {
        WordReply::Row(word) => Ok(word),
        _ => Err(ApiError::Internal),
    }
}

/// Approving or rejecting a word. Only an administrator may: any other
/// caller is refused before the store is asked anything.
pub fn update_word(claims: &Claims, id: i32) -> (step: Step<Word>)
    ensures
        step == update_word_starts(*claims, id),
{
    if claims.is_admin {
        Step::Ask(WordQuery::Find(id))
    } else {
        Step::Done(Err(ApiError::Forbidden))
    }
}

/// Approving or rejecting a word: the step on the store's reply to the lookup.
pub fn update_word_found(id: i32, approved: bool, reply: WordReply) -> (step: Step<Word>)
    ensures
        step == update_word_goes_on(id, approved, reply),
{
    match reply {
        WordReply::Row(_) => Step::Ask(WordQuery::SetApproval { id, approved }),
        WordReply::Missing => Step::Done(Err(ApiError::NotFound)),
        WordReply::Failed => Step::Done(Err(ApiError::Internal)),
    }
}

/// Approving or rejecting a word: the end, on the store's reply to the
/// change. A word that went missing since the lookup is not found.
pub fn update_word_done(reply: WordReply) -> (r: Result<Word, ApiError>)
    ensures
        r == concluded(reply),
{
    match reply {
        WordReply::Row(word) => Ok(word),
        WordReply::Missing => Err(ApiError::NotFound),
        WordReply::Failed => Err(ApiError::Internal),
    }
}

/// Reading one word: what is asked of the store.
pub fn get_by_id(id: i32) -> (query: WordQuery)
    ensures
        query == WordQuery::Find(id),
{
    WordQuery::Find(id)
}

/// Reading one word: the end, on the store's reply to the lookup.
pub fn get_by_id_done(reply: WordReply) -> (r: Result<Word, ApiError>)
    ensures
        r == concluded(reply),
{
    match reply {
        WordReply::Row(word) => Ok(word),
        WordReply::Missing => Err(ApiError::NotFound),
        WordReply::Failed => Err(ApiError::Internal),
    }
}

/// Deleting a word: the word is looked up first, for its owner.
pub fn delete_word(id: i32) -> (query: WordQuery)
    ensures
        query == WordQuery::Find(id),
{
    WordQuery::Find(id)
}

/// Deleting a word: the step on the store's reply to the lookup. The owner
/// may delete, and an administrator; any other caller is refused before the
/// store is asked to remove anything.
pub fn delete_word_found(claims: &Claims, id: i32, reply: WordReply) -> (step: Step<i32>)
    ensures
        step == delete_word_goes_on(*claims, id, reply),
{
    match reply {
        WordReply::Row(word) => {
            if claims.is_admin || word.user_id == claims.id {
                Step::Ask(WordQuery::Delete(id))
            } else {
                Step::Done(Err(ApiError::Forbidden))
            }
        },
        WordReply::Missing => Step::Done(Err(ApiError::NotFound)),
        WordReply::Failed => Step::Done(Err(ApiError::Internal)),
    }
}

/// Deleting a word: the end, on the store's reply to the removal, with the
/// id of the word removed. A word that went missing since the lookup is not
/// found.
pub fn delete_word_done(reply: WordReply) -> (r: Result<i32, ApiError>)
    ensures
        r == delete_word_ends(reply),
{
    match reply {
        WordReply::Row(word) => Ok(word.id),
        WordReply::Missing => Err(ApiError::NotFound),
        WordReply::Failed => Err(ApiError::Internal),
    }
}

/// The text that a successful deletion answers with.
pub fn deletion_message(id: i32) -> (message: String)
    ensures
        message@ == deleted_message(id),
{
    let mut out: Vec<char> = Vec::new();
    append_text(&mut out, "Word (ID: ");
    push_signed_decimal(&mut out, id);
    append_text(&mut out, ") deleted successfully");
    string_of(&out)
}

/// The rows that come before the page `page_index` of a listing:
/// `PAGE_STRIDE` for each page before it. `None` where their number cannot
/// be written in 64 bits.
pub fn page_offset(page_index: i64) -> (offset: Option<i64>)
    ensures
        offset == rows_before(page_index),
{
    if page_index > i64::MAX / PAGE_STRIDE || page_index < i64::MIN / PAGE_STRIDE {
        None
    } else {
        Some(page_index * PAGE_STRIDE)
    }
}

/// The moderation queue of words that are not approved. Only an administrator
/// may see it. A page index whose offset cannot be written in 64 bits is
/// not valid.
pub fn get_all_rows_for_admin(claims: &Claims, page_index: i64, limit: i64) -> (r: Result<
    WordListing,
    ApiError,
>)
    ensures
        r == pending_listing(*claims, page_index, limit),
{
    if !claims.is_admin {
        return Err(ApiError::Forbidden);
    }
    match page_offset(page_index) {
        Some(offset) => Ok(WordListing::Pending { limit, offset }),
        None => Err(ApiError::Validation),
    }
}

/// The caller's own words.
pub fn get_all_word_by_user_id(claims: &Claims) -> (listing: WordListing)
    ensures
        listing == WordListing::ByOwner(claims.id),
{
    WordListing::ByOwner(claims.id)
}

/// The end of a listing: the rows, or an internal error where the store gave none.
pub fn listing_done(rows: Option<Vec<Word>>) -> (r: Result<Vec<Word>, ApiError>)
    ensures
        r == match rows {
            Some(words) => Ok::<Vec<Word>, ApiError>(words),
            None => Err::<Vec<Word>, ApiError>(ApiError::Internal),
        },
{
    match rows {
        Some(words) => Ok(words),
        None => Err(ApiError::Internal),
    }
}

} // verus!
