//! Tables as sequences of rows, and what it means to look a row up, to
//! replace it and to keep keys unique. Rows are kept in the order in which
//! their keys first came in.

use vstd::prelude::*;

verus! {

/// Whether `i` is the first position of `rows` whose row is `wanted`.
pub open spec fn is_first<T>(rows: Seq<T>, wanted: spec_fn(T) -> bool, i: int) -> bool {
    &&& 0 <= i < rows.len()
    &&& wanted(rows[i])
    &&& forall|j: int| 0 <= j < i ==> !#[trigger] wanted(rows[j])
}

/// The first position of `rows` whose row is `wanted`, if there is one.
pub open spec fn first<T>(rows: Seq<T>, wanted: spec_fn(T) -> bool) -> Option<int> {
    if exists|i: int| is_first(rows, wanted, i) {
        Some(choose|i: int| is_first(rows, wanted, i))
    } else {
        None
    }
}

/// The first row of `rows` that is `wanted`, if there is one.
pub open spec fn first_row<T>(rows: Seq<T>, wanted: spec_fn(T) -> bool) -> Option<T> {
    match first(rows, wanted) {
        Some(i) => Some(rows[i]),
        None => None,
    }
}

/// How many rows of `rows` are `wanted`.
pub open spec fn count<T>(rows: Seq<T>, wanted: spec_fn(T) -> bool) -> nat
    decreases rows.len(),
{
    if rows.len() == 0 {
        0
    } else {
        count(rows.drop_last(), wanted) + if wanted(rows.last()) {
            1nat
        } else {
            0nat
        }
    }
}

/// The rows whose key is `k`.
pub open spec fn keyed<T, K>(key: spec_fn(T) -> K, k: K) -> spec_fn(T) -> bool {
    |row: T| key(row) == k
}

/// Whether no two rows of `rows` have the same key.
pub open spec fn unique<T, K>(rows: Seq<T>, key: spec_fn(T) -> K) -> bool {
    forall|i: int, j: int|
        0 <= i < j < rows.len() ==> key(#[trigger] rows[i]) != key(#[trigger] rows[j])
}

/// The row stored under the key `k`, if there is one.
pub open spec fn row_of<T, K>(rows: Seq<T>, key: spec_fn(T) -> K, k: K) -> Option<T> {
    first_row(rows, keyed(key, k))
}

/// `rows` with `row` stored under its key: in the place of the row that had
/// the key, or at the end if there was none.
pub open spec fn upsert<T, K>(rows: Seq<T>, key: spec_fn(T) -> K, row: T) -> Seq<T> {
    match first(rows, keyed(key, key(row))) {
        Some(i) => rows.update(i, row),
        None => rows.push(row),
    }
}

/// `rows` after every row of `incoming` was stored under its key, one after
/// the other.
pub open spec fn upsert_all<T, K>(rows: Seq<T>, key: spec_fn(T) -> K, incoming: Seq<T>) -> Seq<T>
    decreases incoming.len(),
{
    if incoming.len() == 0 {
        rows
    } else {
        upsert(upsert_all(rows, key, incoming.drop_last()), key, incoming.last())
    }
}

/// The last row of `incoming` with the key `k`, if there is one.
pub open spec fn last_with<T, K>(incoming: Seq<T>, key: spec_fn(T) -> K, k: K) -> Option<T>
    decreases incoming.len(),
{
    if incoming.len() == 0 {
        None
    } else if key(incoming.last()) == k {
        Some(incoming.last())
    } else {
        last_with(incoming.drop_last(), key, k)
    }
}

/// A position is the first of its kind exactly if `first` names it.
pub proof fn lemma_first<T>(rows: Seq<T>, wanted: spec_fn(T) -> bool, i: int)
    requires
        is_first(rows, wanted, i),
    ensures
        first(rows, wanted) == Some(i),
{
    let c = choose|c: int| is_first(rows, wanted, c);
    if c < i {
        assert(!wanted(rows[c]));
    } else if i < c {
        assert(!wanted(rows[i]));
    }
}

/// Where no row is wanted, `first` finds none; where it finds none, no row
/// is wanted.
pub proof fn lemma_first_none<T>(rows: Seq<T>, wanted: spec_fn(T) -> bool)
    ensures
        first(rows, wanted) is None <==> forall|j: int|
            0 <= j < rows.len() ==> !#[trigger] wanted(rows[j]),
        first(rows, wanted) matches Some(i) ==> is_first(rows, wanted, i),
{
    if first(rows, wanted) is None {
        assert forall|j: int| 0 <= j < rows.len() implies !#[trigger] wanted(rows[j]) by {
            if wanted(rows[j]) {
                lemma_least(rows, wanted, j);
            }
        }
    } else {
        let i = choose|i: int| is_first(rows, wanted, i);
        assert(wanted(rows[i]));
    }
}

/// Below a wanted row there is a first one.
proof fn lemma_least<T>(rows: Seq<T>, wanted: spec_fn(T) -> bool, j: int)
    requires
        0 <= j < rows.len(),
        wanted(rows[j]),
    ensures
        exists|i: int| is_first(rows, wanted, i),
    decreases j,
{
    if exists|m: int| 0 <= m < j && wanted(rows[m]) {
        let m = choose|m: int| 0 <= m < j && wanted(rows[m]);
        lemma_least(rows, wanted, m);
    } else {
        assert(is_first(rows, wanted, j));
    }
}

/// What storing a row does to a table: the row is then found under its key,
/// every other key keeps its row, keys stay where they were, and the table
/// grows by one row exactly if the key is new.
pub proof fn lemma_upsert<T, K>(rows: Seq<T>, key: spec_fn(T) -> K, row: T)
    ensures
        row_of(upsert(rows, key, row), key, key(row)) == Some(row),
        forall|k: K|
            k != key(row) ==> #[trigger] row_of(upsert(rows, key, row), key, k) == row_of(
                rows,
                key,
                k,
            ),
        forall|i: int|
            0 <= i < rows.len() ==> key(#[trigger] upsert(rows, key, row)[i]) == key(rows[i]),
        upsert(rows, key, row).len() == if row_of(rows, key, key(row)) is Some {
            rows.len()
        } else {
            rows.len() + 1
        },
        unique(rows, key) ==> unique(upsert(rows, key, row), key),
{
    let wanted = keyed(key, key(row));
    let after = upsert(rows, key, row);
    lemma_first_none(rows, wanted);
    match first(rows, wanted) {
        Some(i) => {
            assert(is_first(after, wanted, i)) by {
                assert forall|j: int| 0 <= j < i implies !#[trigger] wanted(after[j]) by {
                    assert(!wanted(rows[j]));
                }
            }
            lemma_first(after, wanted, i);
        },
        None => {
            assert(is_first(after, wanted, rows.len() as int)) by {
                assert forall|j: int| 0 <= j < rows.len() implies !#[trigger] wanted(after[j]) by {
                    assert(!wanted(rows[j]));
                }
            }
            lemma_first(after, wanted, rows.len() as int);
        },
    }
    assert forall|k: K| k != key(row) implies #[trigger] row_of(after, key, k) == row_of(
        rows,
        key,
        k,
    ) by {
        lemma_upsert_other(rows, key, row, k);
    }
    if unique(rows, key) {
        assert forall|i: int, j: int| 0 <= i < j < after.len() implies key(#[trigger] after[i])
            != key(#[trigger] after[j]) by {
            match first(rows, wanted) {
                Some(m) => {
                    assert(key(rows[m]) == key(row));
                    assert(key(after[i]) == key(rows[i]));
                    assert(key(after[j]) == key(rows[j]));
                },
                None => {
                    if j == rows.len() {
                        assert(!wanted(rows[i]));
                    }
                },
            }
        }
    }
}

/// Storing a row leaves the rows of all other keys as they were.
proof fn lemma_upsert_other<T, K>(rows: Seq<T>, key: spec_fn(T) -> K, row: T, k: K)
    requires
        k != key(row),
    ensures
        row_of(upsert(rows, key, row), key, k) == row_of(rows, key, k),
{
    let wanted = keyed(key, key(row));
    let other = keyed(key, k);
    let after = upsert(rows, key, row);
    lemma_first_none(rows, wanted);
    lemma_first_none(rows, other);
    lemma_first_none(after, other);
    match first(rows, other) {
        Some(i) => {
            assert(after[i] == rows[i]);
            assert(is_first(after, other, i)) by {
                assert forall|j: int| 0 <= j < i implies !#[trigger] other(after[j]) by {
                    assert(!other(rows[j]));
                    assert(key(after[j]) == key(rows[j]));
                }
            }
            lemma_first(after, other, i);
        },
        None => {
            assert forall|j: int| 0 <= j < after.len() implies !#[trigger] other(after[j]) by {
                if j < rows.len() {
                    assert(!other(rows[j]));
                    assert(key(after[j]) == key(rows[j]));
                }
            }
        },
    }
}

/// A row stored under a key leaves no trace once another row is stored
/// under the same key.
pub proof fn lemma_upsert_overwrites<T, K>(rows: Seq<T>, key: spec_fn(T) -> K, row1: T, row2: T)
    requires
        key(row1) == key(row2),
    ensures
        upsert(upsert(rows, key, row1), key, row2) == upsert(rows, key, row2),
{
    let wanted = keyed(key, key(row1));
    let mid = upsert(rows, key, row1);
    lemma_first_none(rows, wanted);
    match first(rows, wanted) {
        Some(i) => {
            assert(is_first(mid, wanted, i)) by {
                assert forall|j: int| 0 <= j < i implies !#[trigger] wanted(mid[j]) by {
                    assert(!wanted(rows[j]));
                }
            }
            lemma_first(mid, wanted, i);
            assert(mid.update(i, row2) =~= rows.update(i, row2));
        },
        None => {
            assert(is_first(mid, wanted, rows.len() as int)) by {
                assert forall|j: int| 0 <= j < rows.len() implies !#[trigger] wanted(mid[j]) by {
                    assert(!wanted(rows[j]));
                }
            }
            lemma_first(mid, wanted, rows.len() as int);
            assert(mid.update(rows.len() as int, row2) =~= rows.push(row2));
        },
    }
}

/// A row added at the end is found only by a search that found nothing
/// before: every earlier find stays what it was.
pub proof fn lemma_first_after_push<T>(rows: Seq<T>, wanted: spec_fn(T) -> bool, row: T)
    ensures
        first_row(rows.push(row), wanted) == match first_row(rows, wanted) {
            Some(found) => Some(found),
            None => if wanted(row) {
                Some(row)
            } else {
                None
            },
        },
{
    let after = rows.push(row);
    lemma_first_none(rows, wanted);
    lemma_first_none(after, wanted);
    match first(rows, wanted) {
        Some(i) => {
            assert(is_first(after, wanted, i)) by {
                assert(after[i] == rows[i]);
                assert forall|j: int| 0 <= j < i implies !#[trigger] wanted(after[j]) by {
                    assert(!wanted(rows[j]));
                }
            }
            lemma_first(after, wanted, i);
        },
        None => {
            if wanted(row) {
                assert(is_first(after, wanted, rows.len() as int)) by {
                    assert forall|j: int| 0 <= j < rows.len() implies !#[trigger] wanted(
                        after[j],
                    ) by {
                        assert(!wanted(rows[j]));
                    }
                }
                lemma_first(after, wanted, rows.len() as int);
            } else {
                assert forall|j: int| 0 <= j < after.len() implies !#[trigger] wanted(
                    after[j],
                ) by {
                    if j < rows.len() {
                        assert(!wanted(rows[j]));
                    }
                }
            }
        },
    }
}

/// In a table with unique keys a key has at most one row: exactly one if a
/// row is found under it, none otherwise.
pub proof fn lemma_count_unique<T, K>(rows: Seq<T>, key: spec_fn(T) -> K, k: K)
    requires
        unique(rows, key),
    ensures
        count(rows, keyed(key, k)) == if row_of(rows, key, k) is Some {
            1nat
        } else {
            0nat
        },
    decreases rows.len(),
{
    let wanted = keyed(key, k);
    lemma_first_none(rows, wanted);
    if rows.len() > 0 {
        let before = rows.drop_last();
        lemma_count_unique(before, key, k);
        lemma_first_none(before, wanted);
        if wanted(rows.last()) {
            assert forall|j: int| 0 <= j < before.len() implies !#[trigger] wanted(before[j]) by {
                assert(before[j] == rows[j]);
                assert(key(rows[j]) != key(rows[rows.len() - 1]));
            }
        } else {
            match first(rows, wanted) {
                Some(i) => {
                    assert(wanted(before[i]));
                },
                None => {
                    assert forall|j: int| 0 <= j < before.len() implies !#[trigger] wanted(
                        before[j],
                    ) by {
                        assert(before[j] == rows[j]);
                    }
                },
            }
        }
    }
}

/// In a table with unique keys every row is the one found under its key.
pub proof fn lemma_row_at<T, K>(rows: Seq<T>, key: spec_fn(T) -> K, i: int)
    requires
        unique(rows, key),
        0 <= i < rows.len(),
    ensures
        first(rows, keyed(key, key(rows[i]))) == Some(i),
        row_of(rows, key, key(rows[i])) == Some(rows[i]),
{
    let wanted = keyed(key, key(rows[i]));
    assert(is_first(rows, wanted, i)) by {
        assert forall|j: int| 0 <= j < i implies !#[trigger] wanted(rows[j]) by {
            assert(key(rows[j]) != key(rows[i]));
        }
    }
    lemma_first(rows, wanted, i);
}

/// A key that occurs in `incoming` has a last row there.
pub proof fn lemma_last_with<T, K>(incoming: Seq<T>, key: spec_fn(T) -> K, j: int)
    requires
        0 <= j < incoming.len(),
    ensures
        last_with(incoming, key, key(incoming[j])) is Some,
    decreases incoming.len(),
{
    if key(incoming.last()) != key(incoming[j]) {
        assert(incoming.drop_last()[j] == incoming[j]);
        lemma_last_with(incoming.drop_last(), key, j);
    }
}

/// What storing a whole sequence of rows does to a table: under every key
/// of the sequence its last row is found, every other key keeps its row,
/// the keys that were there stay where they were, and no row is added if
/// all the keys were there already.
pub proof fn lemma_upsert_all<T, K>(rows: Seq<T>, key: spec_fn(T) -> K, incoming: Seq<T>)
    ensures
        forall|k: K| #[trigger]
            row_of(upsert_all(rows, key, incoming), key, k) == match last_with(incoming, key, k) {
                Some(row) => Some(row),
                None => row_of(rows, key, k),
            },
        upsert_all(rows, key, incoming).len() >= rows.len(),
        forall|i: int|
            0 <= i < rows.len() ==> key(#[trigger] upsert_all(rows, key, incoming)[i]) == key(
                rows[i],
            ),
        unique(rows, key) ==> unique(upsert_all(rows, key, incoming), key),
        (forall|j: int|
            0 <= j < incoming.len() ==> row_of(rows, key, key(#[trigger] incoming[j])) is Some)
            ==> upsert_all(rows, key, incoming).len() == rows.len(),
    decreases incoming.len(),
{
    if incoming.len() > 0 {
        let before = incoming.drop_last();
        let row = incoming.last();
        let mid = upsert_all(rows, key, before);
        lemma_upsert_all(rows, key, before);
        lemma_upsert(mid, key, row);
        let after = upsert(mid, key, row);
        assert forall|k: K| #[trigger]
            row_of(after, key, k) == match last_with(incoming, key, k) {
                Some(r) => Some(r),
                None => row_of(rows, key, k),
            } by {
            if k != key(row) {
                assert(row_of(after, key, k) == row_of(mid, key, k));
            }
        }
        assert forall|i: int| 0 <= i < rows.len() implies key(#[trigger] after[i]) == key(
            rows[i],
        ) by {
            assert(key(after[i]) == key(mid[i]));
            assert(key(mid[i]) == key(rows[i]));
        }
        if forall|j: int|
            0 <= j < incoming.len() ==> row_of(rows, key, key(#[trigger] incoming[j])) is Some {
            assert forall|j: int| 0 <= j < before.len() implies row_of(
                rows,
                key,
                key(#[trigger] before[j]),
            ) is Some by {
                assert(before[j] == incoming[j]);
            }
            assert(row_of(rows, key, key(incoming[incoming.len() - 1])) is Some);
            assert(row_of(mid, key, key(row)) is Some);
        }
    }
}

/// Storing the same sequence of rows a second time changes nothing.
pub proof fn lemma_upsert_all_idempotent<T, K>(rows: Seq<T>, key: spec_fn(T) -> K, incoming: Seq<T>)
    requires
        unique(rows, key),
    ensures
        upsert_all(upsert_all(rows, key, incoming), key, incoming) == upsert_all(
            rows,
            key,
            incoming,
        ),
{
    let once = upsert_all(rows, key, incoming);
    let twice = upsert_all(once, key, incoming);
    lemma_upsert_all(rows, key, incoming);
    lemma_upsert_all(once, key, incoming);
    assert forall|j: int| 0 <= j < incoming.len() implies row_of(
        once,
        key,
        key(#[trigger] incoming[j]),
    ) is Some by {
        lemma_last_with(incoming, key, j);
    }
    assert(twice.len() == once.len());
    assert forall|i: int| 0 <= i < once.len() implies twice[i] == once[i] by {
        let k = key(once[i]);
        assert(key(twice[i]) == k);
        lemma_row_at(once, key, i);
        lemma_row_at(twice, key, i);
        assert(row_of(twice, key, k) == row_of(once, key, k));
    }
    assert(twice =~= once);
}

} // verus!
