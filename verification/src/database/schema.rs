//! The store: the tables of audiobooks, positions and accounts, the
//! operations on them, and the scan that fills the catalog.
//!
//! A fresh store has no tables; each is made by the operation that creates
//! it. A table is a sequence of rows with unique keys: the identifier for
//! audiobooks, the pair of identifier and user for positions, the user for
//! accounts.

use crate::database::nesting::{nesting_within, too_deep};
use crate::database::rows::{first, keyed, lemma_first, lemma_first_none, lemma_upsert};
use crate::database::tables::{
    account_key, book_entries_of, book_entry, book_key, book_views, catalog, listed, position_key,
    with_api_key, with_credentials, BookEntry, PositionEntry, StoreError, Tables,
};
use crate::models::account::{generate_key, is_key, Account, AccountView};
use crate::models::audiobook::{compute_hash, Audiobook, AudiobookFmt, AudiobookView, Audiobooks};
use crate::models::position::Position;
use vstd::prelude::*;
use vstd::utf8::encode_utf8;

verus! {

struct BookRow {
    hash: String,
    title: String,
    author: String,
    path: String,
}

struct PositionRow {
    hash: String,
    user: String,
    file: String,
    position: u32,
}

impl BookRow {
    spec fn entry(self) -> BookEntry {
        BookEntry { hash: self.hash@, title: self.title@, author: self.author@, path: self.path@ }
    }
}

impl PositionRow {
    spec fn entry(self) -> PositionEntry {
        PositionEntry {
            hash: self.hash@,
            user: self.user@,
            file: self.file@,
            position: self.position,
        }
    }
}

spec fn book_entries(rows: Seq<BookRow>) -> Seq<BookEntry> {
    Seq::new(rows.len(), |i: int| rows[i].entry())
}

spec fn position_entries(rows: Seq<PositionRow>) -> Seq<PositionEntry> {
    Seq::new(rows.len(), |i: int| rows[i].entry())
}

spec fn account_entries(rows: Seq<Account>) -> Seq<AccountView> {
    Seq::new(rows.len(), |i: int| rows[i]@)
}

/// The store.
pub struct Store {
    audiobooks: Option<Vec<BookRow>>,
    positions: Option<Vec<PositionRow>>,
    accounts: Option<Vec<Account>>,
}

impl View for Store {
    type V = Tables;

    closed spec fn view(&self) -> Tables {
        Tables {
            audiobooks: match self.audiobooks {
                Some(rows) => Some(book_entries(rows@)),
                None => None,
            },
            positions: match self.positions {
                Some(rows) => Some(position_entries(rows@)),
                None => None,
            },
            accounts: match self.accounts {
                Some(rows) => Some(account_entries(rows@)),
                None => None,
            },
        }
    }
}

impl Store {
    /// Whether the keys of every table are unique. Every operation keeps
    /// this so.
    pub open spec fn wf(&self) -> bool {
        self@.wf()
    }

    /// A store without tables.
    pub fn new() -> (store: Store)
        ensures
            store.wf(),
            store@ == (Tables { audiobooks: None, positions: None, accounts: None }),
    {
        Store { audiobooks: None, positions: None, accounts: None }
    }
}

/// Creates the table of audiobooks unless it is there.
pub fn create_audiobooks(store: &mut Store) -> (r: Result<(), StoreError>)
    ensures
        r is Ok,
        old(store).wf() ==> final(store).wf(),
        final(store)@ == old(store)@.create_audiobooks(),
{
    if store.audiobooks.is_none() {
        store.audiobooks = Some(Vec::new());
        assert(book_entries(Seq::<BookRow>::empty()) =~= Seq::<BookEntry>::empty());
    }
    Ok(())
}

/// Creates the table of positions unless it is there.
pub fn create_positions(store: &mut Store) -> (r: Result<(), StoreError>)
    ensures
        r is Ok,
        old(store).wf() ==> final(store).wf(),
        final(store)@ == old(store)@.create_positions(),
{
    if store.positions.is_none() {
        store.positions = Some(Vec::new());
        assert(position_entries(Seq::<PositionRow>::empty()) =~= Seq::<PositionEntry>::empty());
    }
    Ok(())
}

/// Creates the table of accounts unless it is there.
pub fn create_accounts(store: &mut Store) -> (r: Result<(), StoreError>)
    ensures
        r is Ok,
        old(store).wf() ==> final(store).wf(),
        final(store)@ == old(store)@.create_accounts(),
{
    if store.accounts.is_none() {
        store.accounts = Some(Vec::new());
        assert(account_entries(Seq::<Account>::empty()) =~= Seq::<AccountView>::empty());
    }
    Ok(())
}

/// The place of the row of `hash` and `user` among `rows`.
fn find_position(rows: &Vec<PositionRow>, hash: &String, user: &String) -> (r: Option<usize>)
    ensures
        match r {
            Some(i) => i < rows.len() && first(
                position_entries(rows@),
                keyed(position_key(), (hash@, user@)),
            ) == Some(i as int),
            None => first(position_entries(rows@), keyed(position_key(), (hash@, user@))) is None,
        },
{
    let ghost entries = position_entries(rows@);
    let ghost wanted = keyed(position_key(), (hash@, user@));
    let mut i: usize = 0;
    while i < rows.len()
        invariant
            i <= rows.len(),
            entries == position_entries(rows@),
            wanted == keyed(position_key(), (hash@, user@)),
            forall|j: int| 0 <= j < i ==> !#[trigger] wanted(entries[j]),
        decreases rows.len() - i,
    {
        if rows[i].hash == *hash && rows[i].user == *user {
            proof {
                assert(wanted(entries[i as int]));
                lemma_first(entries, wanted, i as int);
            }
            return Some(i);
        }
        assert(!wanted(entries[i as int]));
        i += 1;
    }
    proof {
        lemma_first_none(entries, wanted);
    }
    None
}

/// Records that `user` has reached `position` in `file` of the audiobook
/// `hash`: in the row of the two if there is one, in a new row otherwise.
pub fn insert_position(
    hash: String,
    user: String,
    file: String,
    position: u32,
    store: &mut Store,
) -> (r: Result<(), StoreError>)
    ensures
        old(store).wf() ==> final(store).wf(),
        match old(store)@.record_position(
            (PositionEntry { hash: hash@, user: user@, file: file@, position }),
        ) {
            Ok(tables) => r is Ok && final(store)@ == tables,
            Err(e) => r == Err::<(), StoreError>(e) && final(store)@ == old(store)@,
        },
{
    match &mut store.positions {
        None => Err(StoreError::NoSuchTable),
        Some(rows) => {
            let ghost before = position_entries(rows@);
            let at = find_position(rows, &hash, &user);
            let row = PositionRow { hash, user, file, position };
            proof {
                lemma_upsert(before, position_key(), row.entry());
            }
            match at {
                Some(i) => {
                    rows.set(i, row);
                    assert(position_entries(rows@) =~= before.update(i as int, row.entry()));
                },
                None => {
                    rows.push(row);
                    assert(position_entries(rows@) =~= before.push(row.entry()));
                },
            }
            Ok(())
        },
    }
}

/// The file and the offset that `user` has reached in the audiobook
/// `hash`.
pub fn select_position(hash: String, user: String, store: &Store) -> (r: Result<
    Position,
    StoreError,
>)
    ensures
        match store@.position_of(hash@, user@) {
            Ok(position) => r matches Ok(found) && found@ == position,
            Err(e) => r == Err::<Position, StoreError>(e),
        },
{
    match &store.positions {
        None => Err(StoreError::NoSuchTable),
        Some(rows) => match find_position(rows, &hash, &user) {
            Some(i) => Ok(Position { file: rows[i].file.clone(), position: rows[i].position }),
            None => Err(StoreError::RowNotFound),
        },
    }
}


/// The place of the row of `hash` among `rows`.
fn find_book(rows: &Vec<BookRow>, hash: &String) -> (r: Option<usize>)
    ensures
        match r {
            Some(i) => i < rows.len() && first(book_entries(rows@), keyed(book_key(), hash@))
                == Some(i as int),
            None => first(book_entries(rows@), keyed(book_key(), hash@)) is None,
        },
{
    let ghost entries = book_entries(rows@);
    let ghost wanted = keyed(book_key(), hash@);
    let mut i: usize = 0;
    while i < rows.len()
        invariant
            i <= rows.len(),
            entries == book_entries(rows@),
            wanted == keyed(book_key(), hash@),
            forall|j: int| 0 <= j < i ==> !#[trigger] wanted(entries[j]),
        decreases rows.len() - i,
    {
        if rows[i].hash == *hash {
            proof {
                assert(wanted(entries[i as int]));
                lemma_first(entries, wanted, i as int);
            }
            return Some(i);
        }
        assert(!wanted(entries[i as int]));
        i += 1;
    }
    proof {
        lemma_first_none(entries, wanted);
    }
    None
}

/// Stores an audiobook under its identifier. A row that was stored under
/// the same identifier is replaced; no second row is made.
pub fn insert_audiobook(audiobook: Audiobook, store: &mut Store) -> (r: Result<(), StoreError>)
    ensures
        old(store).wf() ==> final(store).wf(),
        match old(store)@.store_audiobook(audiobook@) {
            Ok(tables) => r is Ok && final(store)@ == tables,
            Err(e) => r == Err::<(), StoreError>(e) && final(store)@ == old(store)@,
        },
{
    match &mut store.audiobooks {
        None => Err(StoreError::NoSuchTable),
        Some(rows) => {
            let ghost before = book_entries(rows@);
            let hash = compute_hash(audiobook.title.clone(), audiobook.author.clone());
            let at = find_book(rows, &hash);
            let row = BookRow {
                hash,
                title: audiobook.title,
                author: audiobook.author,
                path: audiobook.path,
            };
            proof {
                lemma_upsert(before, book_key(), row.entry());
            }
            match at {
                Some(i) => {
                    rows.set(i, row);
                    assert(book_entries(rows@) =~= before.update(i as int, row.entry()));
                },
                None => {
                    rows.push(row);
                    assert(book_entries(rows@) =~= before.push(row.entry()));
                },
            }
            Ok(())
        },
    }
}

/// Stores every audiobook of `books`, one after the other. The first
/// failure ends the work: what was stored before it stays stored, and
/// nothing after it is tried.
pub fn insert_audiobooks(books: &Vec<Audiobook>, store: &mut Store) -> (r: Result<(), StoreError>)
    ensures
        old(store).wf() ==> final(store).wf(),
        match old(store)@.store_audiobooks(book_views(books@)) {
            Ok(tables) => r is Ok && final(store)@ == tables,
            Err(e) => r == Err::<(), StoreError>(e) && final(store)@ == old(store)@,
        },
{
    let mut i: usize = 0;
    while i < books.len()
        invariant
            i <= books.len(),
            old(store).wf() ==> store.wf(),
            old(store)@.store_audiobooks(book_views(books@.take(i as int))) == Ok::<
                Tables,
                StoreError,
            >(store@),
        decreases books.len() - i,
    {
        let book = Audiobook {
            title: books[i].title.clone(),
            author: books[i].author.clone(),
            path: books[i].path.clone(),
        };
        proof {
            let next = book_entries_of(book_views(books@.take(i + 1)));
            assert(next.drop_last() =~= book_entries_of(book_views(books@.take(i as int))));
            assert(next.last() == book_entry(book@));
        }
        match insert_audiobook(book, store) {
            Ok(_) => {},
            Err(e) => {
                return Err(e);
            },
        }
        i += 1;
    }
    proof {
        assert(books@.take(books@.len() as int) =~= books@);
    }
    Ok(())
}

/// Lists the whole catalog: every row once, without its path, in the order
/// of the table.
pub fn query_audiobooks(store: &Store) -> (r: Result<Audiobooks, StoreError>)
    ensures
        match store@.catalog() {
            Ok(catalog) => r matches Ok(list) && list@ == catalog,
            Err(e) => r == Err::<Audiobooks, StoreError>(e),
        },
{
    match &store.audiobooks {
        None => Err(StoreError::NoSuchTable),
        Some(rows) => {
            let mut audiobooks: Vec<AudiobookFmt> = Vec::new();
            let mut i: usize = 0;
            while i < rows.len()
                invariant
                    i <= rows.len(),
                    audiobooks.len() == i,
                    forall|j: int|
                        0 <= j < i ==> (#[trigger] audiobooks@[j])@ == listed(rows@[j].entry()),
                decreases rows.len() - i,
            {
                audiobooks.push(
                    AudiobookFmt {
                        hash: rows[i].hash.clone(),
                        title: rows[i].title.clone(),
                        author: rows[i].author.clone(),
                    },
                );
                i += 1;
            }
            let list = Audiobooks { audiobooks };
            assert(list@ =~= catalog(book_entries(rows@)));
            Ok(list)
        },
    }
}

/// The path of the audiobook stored under `hash`.
pub fn query_audiobook(hash: String, store: &Store) -> (r: Result<String, StoreError>)
    ensures
        match store@.path_of(hash@) {
            Ok(found) => r matches Ok(path) && path@ == found,
            Err(e) => r == Err::<String, StoreError>(e),
        },
{
    match &store.audiobooks {
        None => Err(StoreError::NoSuchTable),
        Some(rows) => match find_book(rows, &hash) {
            Some(i) => Ok(rows[i].path.clone()),
            None => Err(StoreError::RowNotFound),
        },
    }
}

/// The place of the account of `user` among `rows`.
fn find_user(rows: &Vec<Account>, user: &String) -> (r: Option<usize>)
    ensures
        match r {
            Some(i) => i < rows.len() && first(account_entries(rows@), keyed(account_key(), user@))
                == Some(i as int),
            None => first(account_entries(rows@), keyed(account_key(), user@)) is None,
        },
{
    let ghost entries = account_entries(rows@);
    let ghost wanted = keyed(account_key(), user@);
    let mut i: usize = 0;
    while i < rows.len()
        invariant
            i <= rows.len(),
            entries == account_entries(rows@),
            wanted == keyed(account_key(), user@),
            forall|j: int| 0 <= j < i ==> !#[trigger] wanted(entries[j]),
        decreases rows.len() - i,
    {
        if rows[i].user == *user {
            proof {
                assert(wanted(entries[i as int]));
                lemma_first(entries, wanted, i as int);
            }
            return Some(i);
        }
        assert(!wanted(entries[i as int]));
        i += 1;
    }
    proof {
        lemma_first_none(entries, wanted);
    }
    None
}

/// The place of the first account with this user and this password.
fn find_credentials(rows: &Vec<Account>, user: &String, password: &String) -> (r: Option<usize>)
    ensures
        match r {
            Some(i) => i < rows.len() && first(
                account_entries(rows@),
                with_credentials(user@, password@),
            ) == Some(i as int),
            None => first(account_entries(rows@), with_credentials(user@, password@)) is None,
        },
{
    let ghost entries = account_entries(rows@);
    let ghost wanted = with_credentials(user@, password@);
    let mut i: usize = 0;
    while i < rows.len()
        invariant
            i <= rows.len(),
            entries == account_entries(rows@),
            wanted == with_credentials(user@, password@),
            forall|j: int| 0 <= j < i ==> !#[trigger] wanted(entries[j]),
        decreases rows.len() - i,
    {
        if rows[i].user == *user && rows[i].password == *password {
            proof {
                assert(wanted(entries[i as int]));
                lemma_first(entries, wanted, i as int);
            }
            return Some(i);
        }
        assert(!wanted(entries[i as int]));
        i += 1;
    }
    proof {
        lemma_first_none(entries, wanted);
    }
    None
}

/// The place of the first account that `key` stands for.
fn find_api_key(rows: &Vec<Account>, key: &String) -> (r: Option<usize>)
    ensures
        match r {
            Some(i) => i < rows.len() && first(account_entries(rows@), with_api_key(key@)) == Some(
                i as int,
            ),
            None => first(account_entries(rows@), with_api_key(key@)) is None,
        },
{
    let ghost entries = account_entries(rows@);
    let ghost wanted = with_api_key(key@);
    let mut i: usize = 0;
    while i < rows.len()
        invariant
            i <= rows.len(),
            entries == account_entries(rows@),
            wanted == with_api_key(key@),
            forall|j: int| 0 <= j < i ==> !#[trigger] wanted(entries[j]),
        decreases rows.len() - i,
    {
        if rows[i].key == *key {
            proof {
                assert(wanted(entries[i as int]));
                lemma_first(entries, wanted, i as int);
            }
            return Some(i);
        }
        assert(!wanted(entries[i as int]));
        i += 1;
    }
    proof {
        lemma_first_none(entries, wanted);
    }
    None
}

/// Adds an account with a key that was generated for it. A user can have
/// one account only: a second one is refused, and the first one stays as it
/// is.
pub fn insert_account(user: String, password: String, key: String, store: &mut Store) -> (r:
    Result<(), StoreError>)
    ensures
        old(store).wf() ==> final(store).wf(),
        match old(store)@.register(
            (AccountView { user: user@, password: password@, key: key@ }),
        ) {
            Ok(tables) => r is Ok && final(store)@ == tables,
            Err(e) => r == Err::<(), StoreError>(e) && final(store)@ == old(store)@,
        },
{
    match &mut store.accounts {
        None => Err(StoreError::NoSuchTable),
        Some(rows) => {
            let ghost before = account_entries(rows@);
            match find_user(rows, &user) {
                Some(_) => Err(StoreError::UniqueViolation),
                None => {
                    let row = Account { user, password, key };
                    proof {
                        lemma_upsert(before, account_key(), row@);
                    }
                    rows.push(row);
                    assert(account_entries(rows@) =~= before.push(row@));
                    Ok(())
                },
            }
        },
    }
}

/// Registers `user` with `password` under a fresh key, and returns the
/// key.
pub fn insert_user(user: String, password: String, store: &mut Store) -> (r: Result<
    String,
    StoreError,
>)
    ensures
        old(store).wf() ==> final(store).wf(),
        match old(store)@.refuses(user@) {
            Some(e) => r == Err::<String, StoreError>(e) && final(store)@ == old(store)@,
            None => r matches Ok(key) && is_key(key@) && old(store)@.register(
                (AccountView { user: user@, password: password@, key: key@ }),
            ) == Ok::<Tables, StoreError>(final(store)@),
        },
{
    let key = generate_key();
    match insert_account(user, password, key.clone(), store) {
        Ok(_) => Ok(key),
        Err(e) => Err(e),
    }
}

/// The key of the account with this user and this password.
pub fn select_user(user: String, password: String, store: &Store) -> (r: Result<
    String,
    StoreError,
>)
    ensures
        match store@.key_of(user@, password@) {
            Ok(found) => r matches Ok(key) && key@ == found,
            Err(e) => r == Err::<String, StoreError>(e),
        },
{
    match &store.accounts {
        None => Err(StoreError::NoSuchTable),
        Some(rows) => match find_credentials(rows, &user, &password) {
            Some(i) => Ok(rows[i].key.clone()),
            None => Err(StoreError::RowNotFound),
        },
    }
}

/// The user that `key` stands for. Where several accounts have the key, it
/// stands for the one that was registered first.
pub fn query_user(key: String, store: &Store) -> (r: Result<String, StoreError>)
    ensures
        match store@.user_of(key@) {
            Ok(found) => r matches Ok(user) && user@ == found,
            Err(e) => r == Err::<String, StoreError>(e),
        },
{
    match &store.accounts {
        None => Err(StoreError::NoSuchTable),
        Some(rows) => match find_api_key(rows, &key) {
            Some(i) => Ok(rows[i].user.clone()),
            None => Err(StoreError::RowNotFound),
        },
    }
}

/// The name of the metadata file of an audiobook directory.
pub const INFO_FILE: &'static str = "info";

/// What reading one entry of the data directory gave.
#[derive(Debug, PartialEq, Eq)]
pub enum Child {
    /// The entry itself could not be read.
    Unreadable,
    /// Anything but a directory.
    NotDirectory,
    /// A directory: its path, and the text of its [`INFO_FILE`] if there is
    /// one that could be read.
    Directory { path: String, info: Option<String> },
}

/// What reading the data directory gave.
#[derive(Debug, PartialEq, Eq)]
pub enum DataRoot {
    /// The directory could not be read at all.
    Unreadable,
    /// Its entries, in the order in which they were read.
    Children(Vec<Child>),
}

/// `toml::Value`: a parsed TOML document. Nothing is known of it but what
/// [`strings_of`] says.
#[verifier::external_type_specification]
#[verifier::external_body]
pub struct ExValue(toml::Value);

/// `toml::de::Error`: why a text is no TOML document. It is only ever
/// dropped.
#[verifier::external_type_specification]
#[verifier::external_body]
pub struct ExTomlError(toml::de::Error);

/// The entries of the top-level table of a document whose values are
/// strings, by their keys.
pub uninterp spec fn strings_of(document: toml::Value) -> Map<Seq<char>, Seq<char>>;

/// The string entries of the document that `text` is parsed to, where it
/// is a TOML document.
pub uninterp spec fn toml_strings(text: Seq<char>) -> Option<Map<Seq<char>, Seq<char>>>;

/// `toml::Value::from_str` parses a text as a TOML document. It gives the
/// same document, or the same refusal, whenever the text is the same. The
/// parser calls itself for every level of nesting, so only a text that
/// does not nest too deep is handed to it.
pub assume_specification[ <toml::Value as core::str::FromStr>::from_str ](s: &str) -> (r: Result<
    toml::Value,
    <toml::Value as core::str::FromStr>::Err,
>)
    requires
        !too_deep(encode_utf8(s@)),
    ensures
        match r {
            Ok(document) => toml_strings(s@) == Some(strings_of(document)),
            Err(_) => toml_strings(s@) is None,
        },
;

/// `toml::Value::get` with a string index, then `toml::Value::as_str`: the
/// value of the entry `name` of the top-level table, where there is such an
/// entry and its value is a string.
#[verifier::external_body]
fn string_at(document: &toml::Value, name: &str) -> (r: Option<String>)
    ensures
        match r {
            Some(value) => strings_of(*document).contains_key(name@) && strings_of(
                *document,
            )[name@] == value@,
            None => !strings_of(*document).contains_key(name@),
        },
{
    Some(document.get(name)?.as_str()?.to_owned())
}

/// The title and the author that a metadata text gives: the string entries
/// `title` and `author` of a TOML document. A text that is no such
/// document or that lacks one of the two gives nothing, and neither does
/// a text whose values nest too deep to be read.
pub open spec fn info_fields(text: Seq<char>) -> Option<(Seq<char>, Seq<char>)> {
    if too_deep(encode_utf8(text)) {
        None
    } else {
        match toml_strings(text) {
            Some(strings) => if strings.contains_key("title"@) && strings.contains_key(
                "author"@,
            ) {
                Some((strings["title"@], strings["author"@]))
            } else {
                None
            },
            None => None,
        }
    }
}

/// The audiobook that a directory holds, by its path and the text of its
/// metadata file.
pub open spec fn candidate(path: Seq<char>, info: Option<String>) -> Option<AudiobookView> {
    match info {
        Some(text) => match info_fields(text@) {
            Some((title, author)) => Some(AudiobookView { title, author, path }),
            None => None,
        },
        None => None,
    }
}

/// The audiobook that an entry of the data directory holds.
pub open spec fn child_candidate(child: Child) -> Option<AudiobookView> {
    match child {
        Child::Directory { path, info } => candidate(path@, info),
        _ => None,
    }
}

/// The audiobooks of a sequence of entries, in order: every entry gives one
/// or none, whatever its neighbours are.
pub open spec fn candidates(children: Seq<Child>) -> Seq<AudiobookView>
    decreases children.len(),
{
    if children.len() == 0 {
        Seq::empty()
    } else {
        let before = candidates(children.drop_last());
        match child_candidate(children.last()) {
            Some(book) => before.push(book),
            None => before,
        }
    }
}

/// The audiobooks of the data directory. An unreadable directory has
/// none.
pub open spec fn root_candidates(root: DataRoot) -> Seq<AudiobookView> {
    match root {
        DataRoot::Unreadable => Seq::empty(),
        DataRoot::Children(children) => candidates(children@),
    }
}

/// The audiobooks of two runs of entries are those of the first run
/// followed by those of the second.
pub proof fn lemma_candidates_of_both(front: Seq<Child>, back: Seq<Child>)
    ensures
        candidates(front + back) == candidates(front) + candidates(back),
    decreases back.len(),
{
    if back.len() == 0 {
        assert(front + back =~= front);
        assert(candidates(front) + candidates(back) =~= candidates(front));
    } else {
        lemma_candidates_of_both(front, back.drop_last());
        assert((front + back).drop_last() =~= front + back.drop_last());
        assert((front + back).last() == back.last());
        if child_candidate(back.last()) is Some {
            assert(candidates(front + back) =~= candidates(front) + candidates(back));
        }
    }
}

/// An entry that holds no audiobook, such as a directory without a
/// metadata file, does not stop the scan and changes nothing of what the
/// scan finds in the entries around it.
pub proof fn lemma_scan_passes_over(children: Seq<Child>, i: int)
    requires
        0 <= i < children.len(),
        child_candidate(children[i]) is None,
    ensures
        candidates(children) == candidates(children.remove(i)),
{
    let front = children.take(i);
    let one = seq![children[i]];
    let back = children.skip(i + 1);
    assert(children =~= front + (one + back));
    assert(children.remove(i) =~= front + back);
    lemma_candidates_of_both(front, one + back);
    lemma_candidates_of_both(one, back);
    lemma_candidates_of_both(front, back);
    assert(one.drop_last() =~= Seq::<Child>::empty());
    assert(candidates(one.drop_last()) =~= Seq::<AudiobookView>::empty());
    assert(one.last() == children[i]);
    assert(candidates(one) =~= Seq::<AudiobookView>::empty());
    assert(candidates(one) + candidates(back) =~= candidates(back));
}

/// Reads the title and the author out of a metadata text.
pub fn parse_info(text: &str) -> (r: Option<(String, String)>)
    ensures
        match r {
            Some((title, author)) => info_fields(text@) == Some((title@, author@)),
            None => info_fields(text@) is None,
        },
{
    if !nesting_within(text) {
        return None;
    }
    let document = match <toml::Value as core::str::FromStr>::from_str(text) {
        Ok(document) => document,
        Err(_) => {
            return None;
        },
    };
    let title = string_at(&document, "title");
    let author = string_at(&document, "author");
    audiobook_fields(title, author)
}

/// Both fields, where both are there.
pub fn audiobook_fields(title: Option<String>, author: Option<String>) -> (r: Option<
    (String, String),
>)
    ensures
        r == match (title, author) {
            (Some(t), Some(a)) => Some((t, a)),
            _ => None,
        },
{
    match title {
        Some(t) => match author {
            Some(a) => Some((t, a)),
            None => None,
        },
        None => None,
    }
}

/// The audiobook that the directory at `path` holds, given the text of its
/// metadata file. A directory without such a file, with one that is no
/// TOML document, or with one that lacks a title or an author holds none.
pub fn scan_audiobook_directory(path: &String, info: &Option<String>) -> (r: Option<Audiobook>)
    ensures
        match r {
            Some(book) => candidate(path@, *info) == Some(book@),
            None => candidate(path@, *info) is None,
        },
{
    match info {
        None => None,
        Some(text) => match parse_info(text.as_str()) {
            Some((title, author)) => Some(Audiobook { title, author, path: path.clone() }),
            None => None,
        },
    }
}

/// The audiobooks of the data directory, in the order of its entries.
/// Entries that hold no audiobook are passed over; they never stop the
/// scan.
pub fn scan_audiobook_direcories(root: &DataRoot) -> (books: Vec<Audiobook>)
    ensures
        book_views(books@) == root_candidates(*root),
{
    let mut audiobooks: Vec<Audiobook> = Vec::new();
    match root {
        DataRoot::Unreadable => {
            assert(book_views(audiobooks@) =~= Seq::<AudiobookView>::empty());
        },
        DataRoot::Children(children) => {
            let mut i: usize = 0;
            assert(book_views(audiobooks@) =~= candidates(children@.take(0)));
            while i < children.len()
                invariant
                    i <= children.len(),
                    book_views(audiobooks@) == candidates(children@.take(i as int)),
                decreases children.len() - i,
            {
                proof {
                    assert(children@.take(i + 1).drop_last() =~= children@.take(i as int));
                    assert(children@.take(i + 1).last() == children@[i as int]);
                }
                let ghost before = book_views(audiobooks@);
                if let Child::Directory { path, info } = &children[i] {
                    if let Some(audiobook) = scan_audiobook_directory(path, info) {
                        audiobooks.push(audiobook);
                        assert(book_views(audiobooks@) =~= before.push(audiobook@));
                    }
                }
                i += 1;
            }
            proof {
                assert(children@.take(children@.len() as int) =~= children@);
            }
        },
    }
    audiobooks
}

/// Brings the catalog up to date with the data directory: creates the
/// table of audiobooks unless it is there, and stores every audiobook that
/// the scan of the directory gives.
pub fn scan_audiobooks(root: &DataRoot, store: &mut Store) -> (r: Result<(), StoreError>)
    ensures
        r is Ok,
        old(store).wf() ==> final(store).wf(),
        final(store)@ == old(store)@.synced(root_candidates(*root)),
{
    match create_audiobooks(store) {
        Ok(_) => {},
        Err(e) => {
            return Err(e);
        },
    }
    let audiobooks = scan_audiobook_direcories(root);
    insert_audiobooks(&audiobooks, store)
}

} // verus!
