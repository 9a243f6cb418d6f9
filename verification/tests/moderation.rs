use dictionary::guard::authorize;
use dictionary::jwt::{Claims, TokenService};
use dictionary::response::ApiError;
use dictionary::user::handlers::{
    login, login_found, login_refusal, signup, signup_done, signup_refusal, signup_with_hash,
    UserQuery, UserReply,
};
use dictionary::user::models::{NewUser, User, UserView};
use dictionary::password_manager::{verify_password, PasswordError};
use dictionary::word::handlers::{
    create_word, create_word_done, delete_word, delete_word_done, delete_word_found,
    deletion_message, get_all_rows_for_admin, get_all_word_by_user_id, get_by_id, get_by_id_done,
    listing_done, page_offset,
    update_word,
    update_word_done, update_word_found, Step, WordListing, WordQuery, WordReply,
};
use dictionary::word::models::{NewWord, Word};
use std::collections::BTreeMap;

fn answer(table: &mut BTreeMap<i32, Word>, query: WordQuery) -> WordReply {
    match query {
        WordQuery::Insert(n) => {
            if table.contains_key(&n.id) {
                return WordReply::Failed;
            }
            let word = Word {
                id: n.id,
                title: n.title,
                description: n.description,
                character: n.character,
                approved: n.approved,
                user_id: n.user_id,
            };
            table.insert(word.id, word.clone());
            WordReply::Row(word)
        }
        WordQuery::Find(id) => match table.get(&id) {
            Some(word) => WordReply::Row(word.clone()),
            None => WordReply::Missing,
        },
        WordQuery::SetApproval { id, approved } => match table.get_mut(&id) {
            Some(word) => {
                word.approved = approved;
                WordReply::Row(word.clone())
            }
            None => WordReply::Missing,
        },
        WordQuery::Delete(id) => match table.remove(&id) {
            Some(word) => WordReply::Row(word),
            None => WordReply::Missing,
        },
    }
}

fn run_update(
    table: &mut BTreeMap<i32, Word>,
    claims: &Claims,
    id: i32,
    approved: bool,
) -> Result<Word, ApiError> {
    let lookup = match update_word(claims, id) {
        Step::Done(end) => return end,
        Step::Ask(query) => query,
    };
    let reply = answer(table, lookup);
    let change = match update_word_found(id, approved, reply) {
        Step::Done(end) => return end,
        Step::Ask(query) => query,
    };
    let reply = answer(table, change);
    update_word_done(reply)
}

fn run_delete(table: &mut BTreeMap<i32, Word>, claims: &Claims, id: i32) -> Result<i32, ApiError> {
    let reply = answer(table, delete_word(id));
    let removal = match delete_word_found(claims, id, reply) {
        Step::Done(end) => return end,
        Step::Ask(query) => query,
    };
    let reply = answer(table, removal);
    delete_word_done(reply)
}

fn claims(id: i32, is_admin: bool) -> Claims {
    Claims { id, is_admin, iat: 0, exp: 100 }
}

fn word(id: i32, owner: i32, approved: bool) -> Word {
    Word {
        id,
        title: "serendipity".to_string(),
        description: "a happy accident".to_string(),
        character: "s".to_string(),
        approved,
        user_id: owner,
    }
}

fn submission(id: i32) -> NewWord {
    NewWord {
        id,
        title: "serendipity".to_string(),
        description: "a happy accident".to_string(),
        character: "s".to_string(),
        approved: true,
        user_id: 999,
    }
}

#[test]
fn non_admin_cannot_approve() {
    let mut table = BTreeMap::new();
    table.insert(1, word(1, 5, false));
    let before = table.clone();
    for id in [1, 2, -3, i32::MAX] {
        assert_eq!(run_update(&mut table, &claims(5, false), id, true), Err(ApiError::Forbidden));
        assert_eq!(update_word(&claims(5, false), id), Step::Done(Err(ApiError::Forbidden)));
    }
    assert_eq!(table, before);
    assert!(!table[&1].approved);
}

#[test]
fn admin_approves_and_rejects() {
    let mut table = BTreeMap::new();
    table.insert(1, word(1, 5, false));
    table.insert(2, word(2, 6, false));
    assert_eq!(run_update(&mut table, &claims(9, true), 1, true), Ok(word(1, 5, true)));
    assert!(table[&1].approved);
    assert!(!table[&2].approved);
    assert_eq!(run_update(&mut table, &claims(9, true), 1, false), Ok(word(1, 5, false)));
    assert!(!table[&1].approved);
    assert_eq!(table[&1].user_id, 5);
}

#[test]
fn approving_a_missing_word_is_not_found() {
    let mut table = BTreeMap::new();
    assert_eq!(run_update(&mut table, &claims(9, true), 1, true), Err(ApiError::NotFound));
    assert_eq!(update_word_found(1, true, WordReply::Missing), Step::Done(Err(ApiError::NotFound)));
    assert_eq!(update_word_done(WordReply::Missing), Err(ApiError::NotFound));
}

#[test]
fn store_failure_is_internal() {
    assert_eq!(update_word_found(1, true, WordReply::Failed), Step::Done(Err(ApiError::Internal)));
    assert_eq!(update_word_done(WordReply::Failed), Err(ApiError::Internal));
    assert_eq!(
        delete_word_found(&claims(1, true), 1, WordReply::Failed),
        Step::Done(Err(ApiError::Internal))
    );
    assert_eq!(delete_word_done(WordReply::Failed), Err(ApiError::Internal));
    assert_eq!(create_word_done(WordReply::Failed), Err(ApiError::Internal));
    assert_eq!(create_word_done(WordReply::Missing), Err(ApiError::Internal));
    assert_eq!(listing_done(None), Err(ApiError::Internal));
    assert_eq!(listing_done(Some(vec![word(1, 1, false)])), Ok(vec![word(1, 1, false)]));
}

#[test]
fn stranger_cannot_delete() {
    let mut table = BTreeMap::new();
    table.insert(1, word(1, 5, false));
    let before = table.clone();
    assert_eq!(run_delete(&mut table, &claims(6, false), 1), Err(ApiError::Forbidden));
    assert_eq!(table, before);
    assert!(table.contains_key(&1));
}

#[test]
fn owner_and_admin_can_delete() {
    let mut table = BTreeMap::new();
    table.insert(1, word(1, 5, false));
    table.insert(2, word(2, 5, true));
    assert_eq!(run_delete(&mut table, &claims(5, false), 1), Ok(1));
    assert_eq!(run_delete(&mut table, &claims(9, true), 2), Ok(2));
    assert!(table.is_empty());
}

#[test]
fn deleting_twice_is_not_found() {
    let mut table = BTreeMap::new();
    table.insert(1, word(1, 5, false));
    assert_eq!(run_delete(&mut table, &claims(5, false), 1), Ok(1));
    assert_eq!(run_delete(&mut table, &claims(5, false), 1), Err(ApiError::NotFound));
    assert_eq!(run_delete(&mut table, &claims(9, true), 1), Err(ApiError::NotFound));
    assert_eq!(run_delete(&mut table, &claims(6, false), 1), Err(ApiError::NotFound));
}

#[test]
fn word_removed_between_lookup_and_removal_is_not_found() {
    let step = delete_word_found(&claims(5, false), 1, WordReply::Row(word(1, 5, false)));
    assert_eq!(step, Step::Ask(WordQuery::Delete(1)));
    assert_eq!(delete_word_done(WordReply::Missing), Err(ApiError::NotFound));
}

#[test]
fn deletion_message_names_the_id() {
    assert_eq!(deletion_message(5), "Word (ID: 5) deleted successfully");
    assert_eq!(deletion_message(-120), "Word (ID: -120) deleted successfully");
}

#[test]
fn submission_is_pending_and_owned_by_the_caller() {
    let query = create_word(&claims(5, false), submission(3));
    match &query {
        WordQuery::Insert(n) => {
            assert!(!n.approved);
            assert_eq!(n.user_id, 5);
            assert_eq!(n.id, 3);
            assert_eq!(n.title, "serendipity");
            assert_eq!(n.description, "a happy accident");
            assert_eq!(n.character, "s");
        }
        other => panic!("{:?}", other),
    }
    let mut table = BTreeMap::new();
    let reply = answer(&mut table, query);
    assert_eq!(create_word_done(reply), Ok(word(3, 5, false)));
}

#[test]
fn moderation_queue_is_for_administrators() {
    assert_eq!(get_all_rows_for_admin(&claims(5, false), 0, 10), Err(ApiError::Forbidden));
    assert_eq!(
        get_all_rows_for_admin(&claims(9, true), 0, 10),
        Ok(WordListing::Pending { limit: 10, offset: 0 })
    );
    assert_eq!(
        get_all_rows_for_admin(&claims(9, true), 3, 25),
        Ok(WordListing::Pending { limit: 25, offset: 30 })
    );
    assert_eq!(
        get_all_rows_for_admin(&claims(9, true), i64::MAX / 10, 1),
        Ok(WordListing::Pending { limit: 1, offset: 9223372036854775800 })
    );
    assert_eq!(
        get_all_rows_for_admin(&claims(9, true), i64::MAX / 10 + 1, 1),
        Err(ApiError::Validation)
    );
    assert_eq!(get_all_rows_for_admin(&claims(9, true), i64::MIN, 1), Err(ApiError::Validation));
    assert_eq!(get_all_rows_for_admin(&claims(5, false), i64::MAX, 1), Err(ApiError::Forbidden));
}

#[test]
fn own_words_listing() {
    assert_eq!(get_all_word_by_user_id(&claims(5, false)), WordListing::ByOwner(5));
}

#[test]
fn signup_stores_a_hash_and_not_the_password() {
    let new_user = NewUser { email: "a@x.com".to_string(), password: "tr0ub4dor".to_string() };
    match signup(new_user).unwrap() {
        UserQuery::Insert(stored) => {
            assert_eq!(stored.email, "a@x.com");
            assert_ne!(stored.password, "tr0ub4dor");
            assert!(verify_password(&stored.password, "tr0ub4dor"));
        }
        other => panic!("{:?}", other),
    }
}

#[test]
fn signup_with_a_failed_hash_is_a_validation_error() {
    let new_user = NewUser { email: "a@x.com".to_string(), password: "tr0ub4dor".to_string() };
    assert_eq!(
        signup_with_hash(new_user.clone(), Err(PasswordError::Refused)),
        Err(ApiError::Validation)
    );
    assert_eq!(
        signup_with_hash(new_user, Ok("stored".to_string())),
        Ok(UserQuery::Insert(NewUser {
            email: "a@x.com".to_string(),
            password: "stored".to_string()
        }))
    );
    assert_eq!(signup_done(UserReply::Failed), Err(ApiError::Validation));
    assert_eq!(signup_done(UserReply::Missing), Err(ApiError::Validation));
}

#[test]
fn login_failures_are_all_alike() {
    let service = TokenService::new(b"k".to_vec());
    let stored = match signup(NewUser { email: "a@x.com".to_string(), password: "tr0ub4dor".to_string() })
        .unwrap()
    {
        UserQuery::Insert(n) => n.password,
        other => panic!("{:?}", other),
    };
    let user = User { id: 1, is_admin: false, email: "a@x.com".to_string(), password: stored };
    assert_eq!(
        login_found(&service, "wrong", UserReply::Row(user.clone()), 10),
        Err(ApiError::InvalidCredentials)
    );
    assert_eq!(
        login_found(&service, "tr0ub4dor", UserReply::Missing, 10),
        Err(ApiError::InvalidCredentials)
    );
    assert_eq!(
        login_found(&service, "tr0ub4dor", UserReply::Failed, 10),
        Err(ApiError::InvalidCredentials)
    );
    assert_eq!(
        login_found(&service, "tr0ub4dor", UserReply::Row(user), u64::MAX),
        Err(ApiError::InvalidCredentials)
    );
    assert_eq!(login("a@x.com".to_string()), UserQuery::FindByEmail("a@x.com".to_string()));
}

#[test]
fn signup_login_submit_approve_read() {
    let service = TokenService::new(b"startup secret".to_vec());
    let mut users: Vec<User> = Vec::new();
    let mut words: BTreeMap<i32, Word> = BTreeMap::new();

    // signup
    let query = signup(NewUser { email: "a@x.com".to_string(), password: "p1".to_string() });
    let reply = match query.unwrap() {
        UserQuery::Insert(n) => {
            let user = User { id: 1, is_admin: false, email: n.email, password: n.password };
            users.push(user.clone());
            UserReply::Row(user)
        }
        other => panic!("{:?}", other),
    };
    let created = signup_done(reply).unwrap();
    assert_eq!(created, UserView { id: 1, is_admin: false, email: "a@x.com".to_string() });

    // login
    let reply = match login("a@x.com".to_string()) {
        UserQuery::FindByEmail(email) => match users.iter().find(|u| u.email == email) {
            Some(user) => UserReply::Row(user.clone()),
            None => UserReply::Missing,
        },
        other => panic!("{:?}", other),
    };
    let session = login_found(&service, "p1", reply, 1000).unwrap();
    assert!(!session.token.is_empty());
    assert_eq!(session.user, created);

    // submit a word with that token
    let header = format!("Bearer {}", session.token);
    let caller = authorize(&service, Some(&header), 1001).unwrap();
    assert_eq!(caller.id, 1);
    let reply = answer(&mut words, create_word(&caller, submission(11)));
    let stored = create_word_done(reply).unwrap();
    assert!(!stored.approved);
    assert_eq!(stored.user_id, session.user.id);

    // the submitter cannot approve
    assert_eq!(run_update(&mut words, &caller, 11, true), Err(ApiError::Forbidden));

    // an administrator approves
    let admin_token = service.issue(2, true, 1002).unwrap();
    let admin_header = format!("Bearer {}", admin_token);
    let admin = authorize(&service, Some(&admin_header), 1003).unwrap();
    let approved = run_update(&mut words, &admin, 11, true).unwrap();
    assert!(approved.approved);

    // reading the word shows the approval
    match answer(&mut words, WordQuery::Find(11)) {
        WordReply::Row(word) => {
            assert!(word.approved);
            assert_eq!(word.user_id, 1);
        }
        other => panic!("{:?}", other),
    }
}

#[test]
fn page_offset_is_ten_rows_a_page() {
    assert_eq!(page_offset(0), Some(0));
    assert_eq!(page_offset(1), Some(10));
    assert_eq!(page_offset(-2), Some(-20));
    assert_eq!(page_offset(922337203685477580), Some(9223372036854775800));
    assert_eq!(page_offset(922337203685477581), None);
    assert_eq!(page_offset(-922337203685477580), Some(-9223372036854775800));
    assert_eq!(page_offset(-922337203685477581), None);
}

#[test]
fn refused_login_is_answered_as_not_found() {
    assert_eq!(login_refusal(&ApiError::InvalidCredentials), (404, "invalid  email or password"));
    assert_eq!(login_refusal(&ApiError::Internal), (500, "internal error"));
    assert_eq!(login_refusal(&ApiError::Validation), (400, "invalid input"));
    let service = TokenService::new(b"k".to_vec());
    let refused = login_found(&service, "any", UserReply::Missing, 10).unwrap_err();
    assert_eq!(login_refusal(&refused).0, 404);
}

#[test]
fn reading_one_word() {
    assert_eq!(get_by_id(7), WordQuery::Find(7));
    assert_eq!(get_by_id_done(WordReply::Row(word(7, 5, true))), Ok(word(7, 5, true)));
    assert_eq!(get_by_id_done(WordReply::Missing), Err(ApiError::NotFound));
    assert_eq!(get_by_id_done(WordReply::Failed), Err(ApiError::Internal));
    let mut table = BTreeMap::new();
    table.insert(7, word(7, 5, false));
    let reply = answer(&mut table, get_by_id(7));
    assert_eq!(get_by_id_done(reply), Ok(word(7, 5, false)));
    let reply = answer(&mut table, get_by_id(8));
    assert_eq!(get_by_id_done(reply), Err(ApiError::NotFound));
}

#[test]
fn refused_signup_says_where_it_ended() {
    assert_eq!(signup_refusal(&ApiError::Validation, false), (400, "bad password"));
    assert_eq!(signup_refusal(&ApiError::Validation, true), (400, "could not create new user"));
    assert_eq!(signup_refusal(&ApiError::Internal, false), (500, "internal error"));
    assert_eq!(signup_refusal(&ApiError::Internal, true), (500, "internal error"));
    let new_user = NewUser { email: "a@x.com".to_string(), password: "tr0ub4dor".to_string() };
    let unhashed = signup_with_hash(new_user, Err(PasswordError::Refused)).unwrap_err();
    assert_eq!(signup_refusal(&unhashed, false), (400, "bad password"));
    let unstored = signup_done(UserReply::Failed).unwrap_err();
    assert_eq!(signup_refusal(&unstored, true), (400, "could not create new user"));
}
