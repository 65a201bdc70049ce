//! What a store holds, and what every operation makes of it: the tables as
//! sequences of rows, and each operation as a function on them.

use crate::database::rows::{first_row, row_of, unique, upsert, upsert_all};
use crate::models::account::AccountView;
use crate::models::audiobook::{content_id, Audiobook, AudiobookFmtView, AudiobookView};
use crate::models::position::PositionView;
use vstd::prelude::*;

verus! {

/// Why the store did not carry out an operation.
#[derive(Debug, Clone, Copy, PartialEq, Eq, Structural)]
pub enum StoreError {
    /// The table that the operation works on has not been created.
    NoSuchTable,
    /// No row matches.
    RowNotFound,
    /// A row with the same key is there already.
    UniqueViolation,
}

/// A row of the table of audiobooks.
pub struct BookEntry {
    pub hash: Seq<char>,
    pub title: Seq<char>,
    pub author: Seq<char>,
    pub path: Seq<char>,
}

/// A row of the table of positions.
pub struct PositionEntry {
    pub hash: Seq<char>,
    pub user: Seq<char>,
    pub file: Seq<char>,
    pub position: u32,
}

/// The key of a row of audiobooks: its identifier.
pub open spec fn book_key() -> spec_fn(BookEntry) -> Seq<char> {
    |row: BookEntry| row.hash
}

/// The key of a row of positions: the audiobook and the user.
pub open spec fn position_key() -> spec_fn(PositionEntry) -> (Seq<char>, Seq<char>) {
    |row: PositionEntry| (row.hash, row.user)
}

/// The key of a row of accounts: the user.
pub open spec fn account_key() -> spec_fn(AccountView) -> Seq<char> {
    |row: AccountView| row.user
}

/// The accounts that `key` stands for.
pub open spec fn with_api_key(key: Seq<char>) -> spec_fn(AccountView) -> bool {
    |row: AccountView| row.key == key
}

/// The accounts with this user and this password.
pub open spec fn with_credentials(user: Seq<char>, password: Seq<char>) -> spec_fn(
    AccountView,
) -> bool {
    |row: AccountView| row.user == user && row.password == password
}

/// What a store holds: each table, once it has been created.
pub struct Tables {
    pub audiobooks: Option<Seq<BookEntry>>,
    pub positions: Option<Seq<PositionEntry>>,
    pub accounts: Option<Seq<AccountView>>,
}

impl Tables {
    /// Whether the keys of every table are unique.
    pub open spec fn wf(self) -> bool {
        &&& self.audiobooks matches Some(rows) ==> unique(rows, book_key())
        &&& self.positions matches Some(rows) ==> unique(rows, position_key())
        &&& self.accounts matches Some(rows) ==> unique(rows, account_key())
    }

    /// These tables with `rows` as the table of audiobooks.
    pub open spec fn with_audiobooks(self, rows: Seq<BookEntry>) -> Tables {
        Tables { audiobooks: Some(rows), ..self }
    }

    /// These tables with `rows` as the table of positions.
    pub open spec fn with_positions(self, rows: Seq<PositionEntry>) -> Tables {
        Tables { positions: Some(rows), ..self }
    }

    /// These tables with `rows` as the table of accounts.
    pub open spec fn with_accounts(self, rows: Seq<AccountView>) -> Tables {
        Tables { accounts: Some(rows), ..self }
    }

    /// These tables once the table of positions has been created.
    pub open spec fn create_positions(self) -> Tables {
        match self.positions {
            Some(_) => self,
            None => self.with_positions(Seq::empty()),
        }
    }

    /// These tables once the table of accounts has been created.
    pub open spec fn create_accounts(self) -> Tables {
        match self.accounts {
            Some(_) => self,
            None => self.with_accounts(Seq::empty()),
        }
    }

    /// These tables once the table of audiobooks has been created.
    pub open spec fn create_audiobooks(self) -> Tables {
        match self.audiobooks {
            Some(_) => self,
            None => self.with_audiobooks(Seq::empty()),
        }
    }

    /// These tables after `book` was stored under its identifier: in the
    /// place of the row that had the identifier, or in a new row.
    pub open spec fn store_audiobook(self, book: AudiobookView) -> Result<Tables, StoreError> {
        match self.audiobooks {
            None => Err(StoreError::NoSuchTable),
            Some(rows) => Ok(self.with_audiobooks(upsert(rows, book_key(), book_entry(book)))),
        }
    }

    /// These tables after every audiobook of `books` was stored, one after
    /// the other.
    pub open spec fn store_audiobooks(self, books: Seq<AudiobookView>) -> Result<
        Tables,
        StoreError,
    > {
        match self.audiobooks {
            None => if books.len() == 0 {
                Ok(self)
            } else {
                Err(StoreError::NoSuchTable)
            },
            Some(rows) => Ok(
                self.with_audiobooks(upsert_all(rows, book_key(), book_entries_of(books))),
            ),
        }
    }

    /// These tables after the catalog was brought up to date with `books`.
    pub open spec fn synced(self, books: Seq<AudiobookView>) -> Tables {
        self.create_audiobooks().store_audiobooks(books)->Ok_0
    }

    /// The listing of the catalog: every row once, without its path.
    pub open spec fn catalog(self) -> Result<Seq<AudiobookFmtView>, StoreError> {
        match self.audiobooks {
            None => Err(StoreError::NoSuchTable),
            Some(rows) => Ok(catalog(rows)),
        }
    }

    /// The path of the audiobook stored under `hash`.
    pub open spec fn path_of(self, hash: Seq<char>) -> Result<Seq<char>, StoreError> {
        match self.audiobooks {
            None => Err(StoreError::NoSuchTable),
            Some(rows) => match row_of(rows, book_key(), hash) {
                Some(row) => Ok(row.path),
                None => Err(StoreError::RowNotFound),
            },
        }
    }

    /// These tables after a position was recorded: in the row of its
    /// audiobook and user if there is one, in a new row otherwise.
    pub open spec fn record_position(self, entry: PositionEntry) -> Result<Tables, StoreError> {
        match self.positions {
            None => Err(StoreError::NoSuchTable),
            Some(rows) => Ok(self.with_positions(upsert(rows, position_key(), entry))),
        }
    }

    /// The position that `user` has reached in the audiobook `hash`.
    pub open spec fn position_of(self, hash: Seq<char>, user: Seq<char>) -> Result<
        PositionView,
        StoreError,
    > {
        match self.positions {
            None => Err(StoreError::NoSuchTable),
            Some(rows) => match row_of(rows, position_key(), (hash, user)) {
                Some(row) => Ok(PositionView { file: row.file, position: row.position }),
                None => Err(StoreError::RowNotFound),
            },
        }
    }

    /// Why no account can be added for `user`, if none can: a user can have
    /// one account only.
    pub open spec fn refuses(self, user: Seq<char>) -> Option<StoreError> {
        match self.accounts {
            None => Some(StoreError::NoSuchTable),
            Some(rows) => if row_of(rows, account_key(), user) is Some {
                Some(StoreError::UniqueViolation)
            } else {
                None
            },
        }
    }

    /// These tables after `account` was added as the last one.
    pub open spec fn register(self, account: AccountView) -> Result<Tables, StoreError> {
        match self.refuses(account.user) {
            Some(e) => Err(e),
            None => Ok(self.with_accounts(self.accounts->Some_0.push(account))),
        }
    }

    /// The key of the account with this user and this password.
    pub open spec fn key_of(self, user: Seq<char>, password: Seq<char>) -> Result<
        Seq<char>,
        StoreError,
    > {
        match self.accounts {
            None => Err(StoreError::NoSuchTable),
            Some(rows) => match first_row(rows, with_credentials(user, password)) {
                Some(row) => Ok(row.key),
                None => Err(StoreError::RowNotFound),
            },
        }
    }

    /// The user that `key` stands for: that of the first account with this
    /// key.
    pub open spec fn user_of(self, key: Seq<char>) -> Result<Seq<char>, StoreError> {
        match self.accounts {
            None => Err(StoreError::NoSuchTable),
            Some(rows) => match first_row(rows, with_api_key(key)) {
                Some(row) => Ok(row.user),
                None => Err(StoreError::RowNotFound),
            },
        }
    }
}

/// The row that an audiobook is stored as: under the identifier computed
/// from its title and author.
pub open spec fn book_entry(book: AudiobookView) -> BookEntry {
    BookEntry {
        hash: content_id(book.title, book.author),
        title: book.title,
        author: book.author,
        path: book.path,
    }
}

/// The rows that a sequence of audiobooks is stored as.
pub open spec fn book_entries_of(books: Seq<AudiobookView>) -> Seq<BookEntry> {
    Seq::new(books.len(), |i: int| book_entry(books[i]))
}

/// The views of a sequence of audiobooks.
pub open spec fn book_views(books: Seq<Audiobook>) -> Seq<AudiobookView> {
    Seq::new(books.len(), |i: int| books[i]@)
}

/// How the catalog lists a row: without its path.
pub open spec fn listed(row: BookEntry) -> AudiobookFmtView {
    AudiobookFmtView { hash: row.hash, title: row.title, author: row.author }
}

/// How the catalog lists a table: every row once, in the order of the
/// table.
pub open spec fn catalog(rows: Seq<BookEntry>) -> Seq<AudiobookFmtView> {
    Seq::new(rows.len(), |i: int| listed(rows[i]))
}

} // verus!
