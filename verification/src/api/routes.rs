//! The endpoints: each one first finds the user that the key of the
//! request stands for, and only then does what was asked.

use crate::api::controllers::{
    catalog_response, find_audiobook, get_account, get_audiobook_position, get_audiobooks,
    login_response, path_response, position_response, post_account, post_audiobook_position,
    ApiKey,
};
use crate::database::schema::{query_user, Store};
use crate::database::tables::{PositionEntry, StoreError, Tables};
use crate::models::account::{is_key, AccountView, NewAccount};
use crate::models::audiobook::Audiobooks;
use crate::models::position::Position;
use crate::utils::error;
use crate::utils::error::Code;
use vstd::prelude::*;

verus! {

/// The user that a request with this key acts as, if the key stands for
/// one.
pub open spec fn authenticated(tables: Tables, key: Seq<char>) -> Option<Seq<char>> {
    match tables.user_of(key) {
        Ok(user) => Some(user),
        Err(_) => None,
    }
}

/// Finds the user of a request, or the answer that refuses it.
pub fn authenticate(store: &Store, auth_token: String) -> (r: Result<String, error::Answer>)
    ensures
        match authenticated(store@, auth_token@) {
            Some(user) => r matches Ok(found) && found@ == user,
            None => r matches Err(given) && given@ == Code::CantAuth.answer(),
        },
{
    match query_user(auth_token, store) {
        Ok(user) => Ok(user),
        Err(_) => Err(error::cant_auth()),
    }
}

/// The answer to a request for an endpoint that does not exist.
pub fn not_found() -> (answer: error::Answer)
    ensures
        answer@ == Code::NotFound.answer(),
{
    error::not_found()
}

/// Lists the catalog for an authenticated client.
pub fn get_audiobooks_route(store: &Store, auth_token: String) -> (r: Result<
    Audiobooks,
    error::Answer,
>)
    ensures
        match authenticated(store@, auth_token@) {
            None => r matches Err(given) && given@ == Code::CantAuth.answer(),
            Some(_) => match catalog_response(store@) {
                Ok(list) => r matches Ok(found) && found@ == list,
                Err(answer) => r matches Err(given) && given@ == answer,
            },
        },
{
    match authenticate(store, auth_token) {
        Ok(_) => {},
        Err(answer) => {
            return Err(answer);
        },
    }
    get_audiobooks(store)
}

/// Finds the directory of an audiobook for an authenticated client. The
/// archive of that directory is what the client is sent.
pub fn get_audiobook_route(hash: String, store: &Store, auth_token: String) -> (r: Result<
    String,
    error::Answer,
>)
    ensures
        match authenticated(store@, auth_token@) {
            None => r matches Err(given) && given@ == Code::CantAuth.answer(),
            Some(_) => match path_response(store@, hash@) {
                Ok(path) => r matches Ok(found) && found@ == path,
                Err(answer) => r matches Err(given) && given@ == answer,
            },
        },
{
    match authenticate(store, auth_token) {
        Ok(_) => {},
        Err(answer) => {
            return Err(answer);
        },
    }
    find_audiobook(hash, store)
}

/// The position that the client has reached in an audiobook.
pub fn get_audiobook_position_route(hash: String, store: &Store, auth_token: String) -> (r:
    Result<Position, error::Answer>)
    ensures
        match authenticated(store@, auth_token@) {
            None => r matches Err(given) && given@ == Code::CantAuth.answer(),
            Some(user) => match position_response(store@, hash@, user) {
                Ok(position) => r matches Ok(found) && found@ == position,
                Err(answer) => r matches Err(given) && given@ == answer,
            },
        },
{
    let user = match authenticate(store, auth_token) {
        Ok(user) => user,
        Err(answer) => {
            return Err(answer);
        },
    };
    get_audiobook_position(hash, user, store)
}

/// Records the position that the client has reached in an audiobook, and
/// says for which user it was recorded, if it was.
pub fn record_audiobook_position(
    hash: String,
    store: &mut Store,
    position: Position,
    auth_token: String,
) -> (r: (error::Answer, Option<String>))
    ensures
        old(store).wf() ==> final(store).wf(),
        match authenticated(old(store)@, auth_token@) {
            None => {
                &&& r.0@ == Code::CantAuth.answer()
                &&& r.1 is None
                &&& final(store)@ == old(store)@
            },
            Some(user) => match old(store)@.record_position(
                (PositionEntry {
                    hash: hash@,
                    user,
                    file: position.file@,
                    position: position.position,
                }),
            ) {
                Ok(tables) => {
                    &&& r.0@ == Code::Success.answer()
                    &&& r.1 matches Some(writer) && writer@ == user
                    &&& final(store)@ == tables
                },
                Err(_) => {
                    &&& r.0@ == Code::PositionCantUpdate.answer()
                    &&& r.1 is None
                    &&& final(store)@ == old(store)@
                },
            },
        },
{
    let user = match authenticate(store, auth_token) {
        Ok(user) => user,
        Err(answer) => {
            return (answer, None);
        },
    };
    let answer = post_audiobook_position(
        hash,
        user.clone(),
        position.file,
        position.position,
        store,
    );
    if answer.code == 0 {
        (answer, Some(user))
    } else {
        (answer, None)
    }
}

/// Records the position that the client has reached in an audiobook.
pub fn post_audiobook_position_route(
    hash: String,
    store: &mut Store,
    position: Position,
    auth_token: String,
) -> (answer: error::Answer)
    ensures
        old(store).wf() ==> final(store).wf(),
        match authenticated(old(store)@, auth_token@) {
            None => answer@ == Code::CantAuth.answer() && final(store)@ == old(store)@,
            Some(user) => match old(store)@.record_position(
                (PositionEntry {
                    hash: hash@,
                    user,
                    file: position.file@,
                    position: position.position,
                }),
            ) {
                Ok(tables) => answer@ == Code::Success.answer() && final(store)@ == tables,
                Err(_) => {
                    &&& answer@ == Code::PositionCantUpdate.answer()
                    &&& final(store)@ == old(store)@
                },
            },
        },
{
    record_audiobook_position(hash, store, position, auth_token).0
}

/// Registers a new account where registration is open. Where it is
/// closed there is no such endpoint: the client is told so and the store
/// stays as it is.
pub fn register_route(register: bool, store: &mut Store, account: NewAccount) -> (r: Result<
    ApiKey,
    error::Answer,
>)
    ensures
        old(store).wf() ==> final(store).wf(),
        !register ==> {
            &&& r matches Err(given) && given@ == Code::NotFound.answer()
            &&& final(store)@ == old(store)@
        },
        register ==> match old(store)@.refuses(account.user@) {
            Some(_) => {
                &&& r matches Err(given) && given@ == Code::CantRegister.answer()
                &&& final(store)@ == old(store)@
            },
            None => r matches Ok(key) && is_key(key@) && old(store)@.register(
                (AccountView { user: account.user@, password: account.password@, key: key@ }),
            ) == Ok::<Tables, StoreError>(final(store)@),
        },
{
    if !register {
        return Err(error::not_found());
    }
    post_account(account.user, account.password, store)
}

/// Logs a client in.
pub fn login_route(store: &Store, account: NewAccount) -> (r: Result<ApiKey, error::Answer>)
    ensures
        match login_response(store@, account.user@, account.password@) {
            Ok(key) => r matches Ok(found) && found@ == key,
            Err(answer) => r matches Err(given) && given@ == answer,
        },
{
    get_account(account.user, account.password, store)
}

} // verus!
