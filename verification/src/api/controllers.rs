//! The operations behind the endpoints: each one asks the store or builds
//! an archive, and turns a failure into the answer the client is given.

use crate::api::archive::{
    append_member, appended, archive_of, build_failure, finish_container, gzip,
    lemma_no_failure, listing_failure, members, new_container, plan, ArchiveError, Listed,
    Listing, MODE_LIMIT,
};
use crate::database::schema::{
    insert_position, insert_user, query_audiobook, query_audiobooks, select_position, select_user,
    Store,
};
use crate::database::tables::{PositionEntry, StoreError, Tables};
use crate::models::account::{is_key, AccountView};
use crate::models::audiobook::{AudiobookFmtView, Audiobooks};
use crate::models::position::{Position, PositionView};
use crate::utils::error;
pub use crate::utils::error::Answer;
use crate::utils::error::{AnswerView, Code};
use vstd::prelude::*;

verus! {

/// The key that a client authenticates with from then on.
#[derive(Debug, PartialEq, Eq)]
pub struct ApiKey {
    pub key: String,
}

impl View for ApiKey {
    type V = Seq<char>;

    open spec fn view(&self) -> Seq<char> {
        self.key@
    }
}

/// What a client is told when it asks for the catalog.
pub open spec fn catalog_response(tables: Tables) -> Result<Seq<AudiobookFmtView>, AnswerView> {
    match tables.catalog() {
        Ok(list) => Ok(list),
        Err(_) => Err(Code::AudiobooksCantQuery.answer()),
    }
}

/// What a client is told when it asks where an audiobook lies.
pub open spec fn path_response(tables: Tables, hash: Seq<char>) -> Result<Seq<char>, AnswerView> {
    match tables.path_of(hash) {
        Ok(path) => Ok(path),
        Err(_) => Err(Code::HashCantQuery.answer()),
    }
}

/// What a client is told when it asks for a position.
pub open spec fn position_response(tables: Tables, hash: Seq<char>, user: Seq<char>) -> Result<
    PositionView,
    AnswerView,
> {
    match tables.position_of(hash, user) {
        Ok(position) => Ok(position),
        Err(_) => Err(Code::PositionCantQuery.answer()),
    }
}

/// What a client is told when it logs in.
pub open spec fn login_response(tables: Tables, user: Seq<char>, password: Seq<char>) -> Result<
    Seq<char>,
    AnswerView,
> {
    match tables.key_of(user, password) {
        Ok(key) => Ok(key),
        Err(_) => Err(Code::CantLogin.answer()),
    }
}

/// Lists the catalog.
pub fn get_audiobooks(store: &Store) -> (r: Result<Audiobooks, error::Answer>)
    ensures
        match catalog_response(store@) {
            Ok(list) => r matches Ok(found) && found@ == list,
            Err(answer) => r matches Err(given) && given@ == answer,
        },
{
    match query_audiobooks(store) {
        Ok(audiobooks) => Ok(audiobooks),
        Err(_) => Err(error::audiobooks_cant_query()),
    }
}

/// Builds the compressed archive of a directory from its listing.
///
/// A listing that cannot be archived is refused before anything is built,
/// with the error of [`plan`]. Otherwise every readable regular file becomes
/// a member under its own name, in listing order, and entries that are not
/// regular files are left out. The archive is returned unless the
/// compressor refuses the finished container; then nothing is returned but
/// the error.
pub fn archive_directory(dir: &Listing) -> (r: Result<Vec<u8>, ArchiveError>)
    ensures
        match plan(*dir) {
            Err(e) => r == Err::<Vec<u8>, ArchiveError>(e),
            Ok(wanted) => match build_failure(wanted) {
                Some(e) => r == Err::<Vec<u8>, ArchiveError>(e),
                None => r matches Ok(bytes) && bytes@ == archive_of(wanted),
            },
        },
{
    if let Some(e) = listing_failure(dir) {
        return Err(e);
    }
    match dir {
        Listing::Unreadable(why) => Err(ArchiveError::DirectoryUnreadable(*why)),
        Listing::Entries(entries) => {
            let mut container = new_container();
            let mut i: usize = 0;
            while i < entries.len()
                invariant
                    plan(*dir) is Ok,
                    *dir == Listing::Entries(*entries),
                    i <= entries.len(),
                    appended(container) == members(entries@.take(i as int)),
                decreases entries.len() - i,
            {
                proof {
                    assert(entries@.take(i + 1).drop_last() =~= entries@.take(i as int));
                    assert(entries@.take(i + 1).last() == entries@[i as int]);
                    lemma_no_failure(entries@, i as int);
                }
                if let Listed::File { name, mode, contents: Ok(data) } = &entries[i] {
                    let kept = *mode % MODE_LIMIT;
                    container = match append_member(container, name.as_str(), kept, data) {
                        Ok(after) => after,
                        Err(_) => {
                            return Err(ArchiveError::AppendFailed);
                        },
                    };
                }
                i += 1;
            }
            proof {
                assert(entries@.take(entries@.len() as int) =~= entries@);
            }
            let tar = match finish_container(container) {
                Ok(tar) => tar,
                Err(_) => {
                    return Err(ArchiveError::FinishFailed);
                },
            };
            match gzip(&tar) {
                Ok(stream) => Ok(stream),
                Err(_) => Err(ArchiveError::CompressFailed),
            }
        },
    }
}

/// Finds the directory of the audiobook stored under `hash`: the one to
/// read and to hand to [`get_audiobook`].
pub fn find_audiobook(hash: String, store: &Store) -> (r: Result<String, error::Answer>)
    ensures
        match path_response(store@, hash@) {
            Ok(path) => r matches Ok(found) && found@ == path,
            Err(answer) => r matches Err(given) && given@ == answer,
        },
{
    match query_audiobook(hash, store) {
        Ok(path) => Ok(path),
        Err(_) => Err(error::hash_cant_query()),
    }
}

/// Builds the archive of an audiobook from the listing of its directory.
/// The archive is given exactly where the listing can be archived and the
/// compressor does not refuse the container. Whatever keeps the
/// archive from being built, the client is told the same.
pub fn get_audiobook(dir: &Listing) -> (r: Result<Vec<u8>, error::Answer>)
    ensures
        r is Ok <==> (plan(*dir) matches Ok(wanted) && build_failure(wanted) is None),
        match r {
            Ok(bytes) => plan(*dir) matches Ok(wanted) && bytes@ == archive_of(wanted),
            Err(given) => given@ == Code::BinaryCantCreate.answer(),
        },
{
    archive_response(archive_directory(dir))
}

/// Turns the outcome of a build into what the client is given: the
/// archive as it is, and one answer for every error.
pub fn archive_response(built: Result<Vec<u8>, ArchiveError>) -> (r: Result<Vec<u8>, error::Answer>)
    ensures
        match built {
            Ok(bytes) => r == Ok::<Vec<u8>, error::Answer>(bytes),
            Err(_) => r matches Err(given) && given@ == Code::BinaryCantCreate.answer(),
        },
{
    match built {
        Ok(bytes) => Ok(bytes),
        Err(_) => Err(error::binary_cant_create()),
    }
}

/// Records the position of `user` in the audiobook `hash`.
pub fn post_audiobook_position(
    hash: String,
    user: String,
    file: String,
    position: u32,
    store: &mut Store,
) -> (answer: error::Answer)
    ensures
        old(store).wf() ==> final(store).wf(),
        match old(store)@.record_position(
            (PositionEntry { hash: hash@, user: user@, file: file@, position }),
        ) {
            Ok(tables) => answer@ == Code::Success.answer() && final(store)@ == tables,
            Err(_) => answer@ == Code::PositionCantUpdate.answer() && final(store)@ == old(store)@,
        },
{
    match insert_position(hash, user, file, position, store) {
        Ok(_) => error::success(),
        Err(_) => error::position_cant_update(),
    }
}

/// The position of `user` in the audiobook `hash`.
pub fn get_audiobook_position(hash: String, user: String, store: &Store) -> (r: Result<
    Position,
    error::Answer,
>)
    ensures
        match position_response(store@, hash@, user@) {
            Ok(position) => r matches Ok(found) && found@ == position,
            Err(answer) => r matches Err(given) && given@ == answer,
        },
{
    match select_position(hash, user, store) {
        Ok(position) => Ok(Position { file: position.file, position: position.position }),
        Err(_) => Err(error::position_cant_query()),
    }
}

/// Registers `user` and gives out the key of the new account.
pub fn post_account(user: String, password: String, store: &mut Store) -> (r: Result<
    ApiKey,
    error::Answer,
>)
    ensures
        old(store).wf() ==> final(store).wf(),
        match old(store)@.refuses(user@) {
            Some(_) => {
                &&& r matches Err(given) && given@ == Code::CantRegister.answer()
                &&& final(store)@ == old(store)@
            },
            None => r matches Ok(key) && is_key(key@) && old(store)@.register(
                (AccountView { user: user@, password: password@, key: key@ }),
            ) == Ok::<Tables, StoreError>(final(store)@),
        },
{
    match insert_user(user, password, store) {
        Ok(key) => Ok(ApiKey { key }),
        Err(_) => Err(error::cant_register()),
    }
}

/// Gives out the key of the account with this user and this password.
pub fn get_account(user: String, password: String, store: &Store) -> (r: Result<
    ApiKey,
    error::Answer,
>)
    ensures
        match login_response(store@, user@, password@) {
            Ok(key) => r matches Ok(found) && found@ == key,
            Err(answer) => r matches Err(given) && given@ == answer,
        },
{
    match select_user(user, password, store) {
        Ok(key) => Ok(ApiKey { key }),
        Err(_) => Err(error::cant_login()),
    }
}

} // verus!
