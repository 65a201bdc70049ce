//! What holds of the store whatever its tables are.

use crate::database::rows::{
    count, first, first_row, keyed, lemma_count_unique, lemma_first_after_push, lemma_first_none,
    lemma_upsert, lemma_upsert_all, lemma_upsert_all_idempotent, lemma_upsert_overwrites, row_of,
    upsert,
};
use crate::database::tables::{
    account_key, book_entries_of, book_entry, book_key, position_key, with_api_key,
    with_credentials, BookEntry, PositionEntry, StoreError, Tables,
};
use crate::models::account::AccountView;
use crate::models::audiobook::{content_id, AudiobookView};
use crate::models::position::PositionView;
use vstd::prelude::*;

verus! {

/// Every change that the store makes keeps the keys of its tables unique.
pub proof fn lemma_changes_keep_keys_unique(
    tables: Tables,
    book: AudiobookView,
    books: Seq<AudiobookView>,
    position: PositionEntry,
    account: AccountView,
)
    requires
        tables.wf(),
    ensures
        tables.create_audiobooks().wf(),
        tables.create_positions().wf(),
        tables.create_accounts().wf(),
        tables.store_audiobook(book) matches Ok(after) ==> after.wf(),
        tables.store_audiobooks(books) matches Ok(after) ==> after.wf(),
        tables.synced(books).wf(),
        tables.record_position(position) matches Ok(after) ==> after.wf(),
        tables.register(account) matches Ok(after) ==> after.wf(),
{
    if let Some(rows) = tables.audiobooks {
        lemma_upsert(rows, book_key(), book_entry(book));
        lemma_upsert_all(rows, book_key(), book_entries_of(books));
    } else {
        lemma_upsert_all(Seq::<BookEntry>::empty(), book_key(), book_entries_of(books));
    }
    if let Some(rows) = tables.positions {
        lemma_upsert(rows, position_key(), position);
    }
    if let Some(rows) = tables.accounts {
        lemma_upsert(rows, account_key(), account);
        lemma_first_none(rows, keyed(account_key(), account.user));
    }
}

/// Bringing the catalog up to date a second time with the same audiobooks
/// changes nothing: the tables, and with them the number of rows and the
/// listing of the catalog, are what they were after the first time.
pub proof fn lemma_sync_is_idempotent(tables: Tables, books: Seq<AudiobookView>)
    requires
        tables.wf(),
    ensures
        tables.synced(books).synced(books) == tables.synced(books),
{
    let rows = match tables.audiobooks {
        Some(rows) => rows,
        None => Seq::empty(),
    };
    lemma_upsert_all_idempotent(rows, book_key(), book_entries_of(books));
}

/// Storing an audiobook whose title and author are in the catalog already
/// puts its path under the identifier they had, and makes no second row:
/// the table is as long as before and holds one row with that identifier.
/// The audiobooks under all other identifiers stay where they lay.
pub proof fn lemma_store_replaces_path(tables: Tables, book: AudiobookView)
    requires
        tables.wf(),
        tables.path_of(content_id(book.title, book.author)) is Ok,
    ensures
        tables.store_audiobook(book) matches Ok(after) && {
            &&& after.path_of(content_id(book.title, book.author)) == Ok::<Seq<char>, StoreError>(
                book.path,
            )
            &&& after.audiobooks->Some_0.len() == tables.audiobooks->Some_0.len()
            &&& count(
                after.audiobooks->Some_0,
                keyed(book_key(), content_id(book.title, book.author)),
            ) == 1
            &&& forall|other: Seq<char>|
                other != content_id(book.title, book.author) ==> #[trigger] after.path_of(other)
                    == tables.path_of(other)
        },
{
    let rows = tables.audiobooks->Some_0;
    let id = content_id(book.title, book.author);
    lemma_upsert(rows, book_key(), book_entry(book));
    let after = upsert(rows, book_key(), book_entry(book));
    lemma_count_unique(after, book_key(), id);
    assert forall|other: Seq<char>| other != id implies #[trigger] tables.store_audiobook(
        book,
    )->Ok_0.path_of(other) == tables.path_of(other) by {
        assert(row_of(after, book_key(), other) == row_of(rows, book_key(), other));
    }
}

/// Of two positions recorded one after the other for the same audiobook
/// and user, the second one wins: the table is what it would be had the
/// first never been recorded, it holds exactly one row for the two, and
/// that row is what is read back.
pub proof fn lemma_last_position_wins(tables: Tables, first: PositionEntry, second: PositionEntry)
    requires
        tables.wf(),
        tables.positions is Some,
        first.hash == second.hash,
        first.user == second.user,
    ensures
        tables.record_position(first) matches Ok(once) && once.record_position(second) matches Ok(
            twice,
        ) && {
            &&& tables.record_position(second) == Ok::<Tables, StoreError>(twice)
            &&& twice.position_of(second.hash, second.user) == Ok::<PositionView, StoreError>(
                PositionView { file: second.file, position: second.position },
            )
            &&& count(
                twice.positions->Some_0,
                keyed(position_key(), (second.hash, second.user)),
            ) == 1
        },
{
    let rows = tables.positions->Some_0;
    lemma_upsert_overwrites(rows, position_key(), first, second);
    lemma_upsert(rows, position_key(), second);
    lemma_count_unique(
        upsert(rows, position_key(), second),
        position_key(),
        (second.hash, second.user),
    );
}

/// A position that is recorded either takes the place of the row of its
/// audiobook and user, or makes exactly one new row: the table keeps its
/// length in the first case and grows by one in the second, and either way
/// it holds one row for the two afterwards.
pub proof fn lemma_position_updates_or_inserts(tables: Tables, entry: PositionEntry)
    requires
        tables.wf(),
        tables.positions is Some,
    ensures
        tables.record_position(entry) matches Ok(after) && {
            &&& after.positions->Some_0.len() == if tables.position_of(entry.hash, entry.user)
                is Ok {
                tables.positions->Some_0.len()
            } else {
                tables.positions->Some_0.len() + 1
            }
            &&& count(after.positions->Some_0, keyed(position_key(), (entry.hash, entry.user)))
                == 1
        },
{
    let rows = tables.positions->Some_0;
    lemma_upsert(rows, position_key(), entry);
    lemma_count_unique(
        upsert(rows, position_key(), entry),
        position_key(),
        (entry.hash, entry.user),
    );
}

/// A position recorded for one audiobook and user leaves the positions of
/// all others as they were.
pub proof fn lemma_position_leaves_others(
    tables: Tables,
    entry: PositionEntry,
    hash: Seq<char>,
    user: Seq<char>,
)
    requires
        hash != entry.hash || user != entry.user,
    ensures
        tables.record_position(entry) matches Ok(after) ==> after.position_of(hash, user)
            == tables.position_of(hash, user),
{
    if let Some(rows) = tables.positions {
        lemma_upsert(rows, position_key(), entry);
        assert(row_of(upsert(rows, position_key(), entry), position_key(), (hash, user)) == row_of(
            rows,
            position_key(),
            (hash, user),
        ));
    }
}

/// An audiobook that is in the catalog stays there whatever the catalog is
/// brought up to date with: entries are replaced, never removed.
pub proof fn lemma_sync_keeps_entries(tables: Tables, books: Seq<AudiobookView>, hash: Seq<char>)
    requires
        tables.path_of(hash) is Ok,
    ensures
        tables.synced(books).path_of(hash) is Ok,
{
    lemma_upsert_all(tables.audiobooks->Some_0, book_key(), book_entries_of(books));
}

/// Nothing that the store does changes an account, or the key that came
/// with it: audiobooks and positions leave the accounts alone, and a new
/// account comes after all those that were there.
pub proof fn lemma_accounts_stay(
    tables: Tables,
    book: AudiobookView,
    books: Seq<AudiobookView>,
    position: PositionEntry,
    account: AccountView,
)
    ensures
        tables.store_audiobook(book) matches Ok(after) ==> after.accounts == tables.accounts,
        tables.synced(books).accounts == tables.accounts,
        tables.record_position(position) matches Ok(after) ==> after.accounts == tables.accounts,
        tables.register(account) matches Ok(after) ==> after.accounts->Some_0.drop_last()
            == tables.accounts->Some_0 && after.accounts->Some_0.last() == account,
{
    if let Ok(after) = tables.register(account) {
        assert(after.accounts->Some_0.drop_last() =~= tables.accounts->Some_0);
    }
}

/// A key that comes with a new account, and that stood for no user before,
/// stands for the user of that account once the account is added, and the
/// credentials of the account give the key back.
pub proof fn lemma_registered_key_resolves(tables: Tables, account: AccountView)
    requires
        tables.register(account) is Ok,
        tables.user_of(account.key) is Err,
    ensures
        tables.register(account)->Ok_0.user_of(account.key) == Ok::<Seq<char>, StoreError>(
            account.user,
        ),
        tables.register(account)->Ok_0.key_of(account.user, account.password) == Ok::<
            Seq<char>,
            StoreError,
        >(account.key),
{
    let rows = tables.accounts->Some_0;
    lemma_first_after_push(rows, with_api_key(account.key), account);
    lemma_first_after_push(rows, with_credentials(account.user, account.password), account);
    lemma_first_none(rows, keyed(account_key(), account.user));
    lemma_first_none(rows, with_credentials(account.user, account.password));
    if first_row(rows, with_credentials(account.user, account.password)) is Some {
        let i = first(rows, with_credentials(account.user, account.password))->Some_0;
        assert(keyed(account_key(), account.user)(rows[i]));
    }
}

/// A key that stands for a user keeps standing for that user when an
/// account is added, and a key other than that of the new account stands
/// for whom it stood before, or for no one as before.
pub proof fn lemma_keys_stay_bound(tables: Tables, account: AccountView, key: Seq<char>)
    requires
        tables.register(account) is Ok,
        tables.user_of(key) is Ok || key != account.key,
    ensures
        tables.register(account)->Ok_0.user_of(key) == tables.user_of(key),
{
    let rows = tables.accounts->Some_0;
    lemma_first_after_push(rows, with_api_key(key), account);
}

} // verus!
