//! The `redb` tables underneath: ordered maps from byte strings to byte strings.

use vstd::prelude::*;

use std::ops::Bound;

use redb::ReadableTable;

use crate::bytes::byte_lt;

verus! {

/// What `redb` reports when a page cannot be read or written.
#[verifier::external_type_specification]
#[verifier::external_body]
pub struct ExStorageError(redb::StorageError);

/// What `redb` reports when a table cannot be opened.
#[verifier::external_type_specification]
#[verifier::external_body]
pub struct ExTableError(redb::TableError);

/// A write transaction; its tables are opened by [`open_rows`].
#[verifier::external_type_specification]
#[verifier::external_body]
pub struct ExWriteTransaction(redb_bincode::WriteTransaction);

/// An open table of `redb` with byte strings for keys and for values. Keys are
/// compared as slices of bytes are ([`byte_lt`]).
#[verifier::external_body]
pub struct RowTable<'txn> {
    inner: redb::Table<'txn, &'static [u8], &'static [u8]>,
}

/// The rows of a table: what `redb::Table` holds.
pub uninterp spec fn rows(table: RowTable<'_>) -> Map<Seq<u8>, Seq<u8>>;

/// The name under which a table was opened: what `redb::Table` keeps of it
/// for as long as the table is open.
pub uninterp spec fn opened_as(table: RowTable<'_>) -> Seq<char>;

/// Opens a table by `redb::WriteTransaction::open_table`, creating it when it
/// is missing. When it succeeds, the table is the one of that name. An empty
/// name is left out: `redb` panics on it. Nothing is claimed of the rows: they
/// are what this and earlier transactions left in the table. Nor is it said
/// when opening fails: that rests on the storage, and on which tables of the
/// transaction are open already.
#[verifier::external_body]
pub(crate) fn open_rows<'txn>(
    tx: &'txn redb_bincode::WriteTransaction,
    name: &str,
) -> (res: Result<RowTable<'txn>, redb::TableError>)
    requires
        name@.len() > 0,
    ensures
        res matches Ok(table) ==> opened_as(table) == name@,
{
    let inner = tx.as_raw().open_table(redb::TableDefinition::new(name))?;
    Ok(RowTable { inner })
}

/// Looks one row up by `redb::Table::get`. When it succeeds, it returns the
/// value of the row with that key, and `None` exactly where there is no such
/// row.
#[verifier::external_body]
pub(crate) fn get_row(table: &RowTable<'_>, key: &Vec<u8>) -> (res: Result<
    Option<Vec<u8>>,
    redb::StorageError,
>)
    ensures
        res matches Ok(found) ==> match found {
            Some(value) => rows(*table).contains_key(key@) && rows(*table)[key@] == value@,
            None => !rows(*table).contains_key(key@),
        },
{
    match table.inner.get(key.as_slice())? {
        Some(value) => Ok(Some(value.value().to_vec())),
        None => Ok(None),
    }
}

/// Writes one row by `redb::Table::insert`. When it succeeds, the row of that
/// key holds the value, whether or not there was one before, and every other
/// row is as it was. The table keeps its name.
#[verifier::external_body]
pub(crate) fn insert_row(
    table: &mut RowTable<'_>,
    key: &Vec<u8>,
    value: &Vec<u8>,
) -> (res: Result<(), redb::StorageError>)
    ensures
        res is Ok ==> rows(*final(table)) == rows(*old(table)).insert(key@, value@),
        opened_as(*final(table)) == opened_as(*old(table)),
{
    table.inner.insert(key.as_slice(), value.as_slice())?;
    Ok(())
}

/// Removes one row by `redb::Table::remove`. When it succeeds, no row has that
/// key, every other row is as it was, and the result says whether there was
/// such a row before. The table keeps its name.
#[verifier::external_body]
pub(crate) fn remove_row(table: &mut RowTable<'_>, key: &Vec<u8>) -> (res: Result<
    bool,
    redb::StorageError,
>)
    ensures
        res matches Ok(removed) ==> {
            &&& rows(*final(table)) == rows(*old(table)).remove(key@)
            &&& removed == rows(*old(table)).contains_key(key@)
        },
        opened_as(*final(table)) == opened_as(*old(table)),
{
    Ok(table.inner.remove(key.as_slice())?.is_some())
}

/// The first row of `redb::Table::range` from a key on. When it succeeds, it
/// returns the row whose key is the least of those that do not stand before
/// `from`, and `None` exactly where there is none. A table has finitely many
/// rows.
#[verifier::external_body]
pub(crate) fn row_from(table: &RowTable<'_>, from: &Vec<u8>) -> (res: Result<
    Option<(Vec<u8>, Vec<u8>)>,
    redb::StorageError,
>)
    ensures
        res is Ok ==> rows(*table).dom().finite(),
        res matches Ok(Some((key, value))) ==> {
            &&& rows(*table).contains_key(key@)
            &&& rows(*table)[key@] == value@
            &&& !byte_lt(key@, from@)
            &&& forall|k: Seq<u8>| #[trigger]
                rows(*table).contains_key(k) && !byte_lt(k, from@) ==> !byte_lt(k, key@)
        },
        res matches Ok(None) ==> forall|k: Seq<u8>| #[trigger]
            rows(*table).contains_key(k) ==> byte_lt(k, from@),
{
    match table.inner.range(from.as_slice()..)?.next().transpose()? {
        Some((key, value)) => Ok(Some((key.value().to_vec(), value.value().to_vec()))),
        None => Ok(None),
    }
}

/// The first row of `redb::Table::range` behind a key. When it succeeds, it
/// returns the row whose key is the least of those that stand behind `after`,
/// and `None` exactly where there is none. A table has finitely many rows.
#[verifier::external_body]
pub(crate) fn row_after(table: &RowTable<'_>, after: &Vec<u8>) -> (res: Result<
    Option<(Vec<u8>, Vec<u8>)>,
    redb::StorageError,
>)
    ensures
        res is Ok ==> rows(*table).dom().finite(),
        res matches Ok(Some((key, value))) ==> {
            &&& rows(*table).contains_key(key@)
            &&& rows(*table)[key@] == value@
            &&& byte_lt(after@, key@)
            &&& forall|k: Seq<u8>| #[trigger]
                rows(*table).contains_key(k) && byte_lt(after@, k) ==> !byte_lt(k, key@)
        },
        res matches Ok(None) ==> forall|k: Seq<u8>| #[trigger]
            rows(*table).contains_key(k) ==> !byte_lt(after@, k),
{
    let behind = (Bound::Excluded(after.as_slice()), Bound::Unbounded);
    match table.inner.range::<&[u8]>(behind)?.next().transpose()? {
        Some((key, value)) => Ok(Some((key.value().to_vec(), value.value().to_vec()))),
        None => Ok(None),
    }
}

/// The last row of `redb::Table::range` up to a key, that key left out. When
/// it succeeds, it returns the row whose key is the greatest of those that
/// stand before `to`, and `None` exactly where there is none. A table has
/// finitely many rows.
#[verifier::external_body]
pub(crate) fn row_before(table: &RowTable<'_>, to: &Vec<u8>) -> (res: Result<
    Option<(Vec<u8>, Vec<u8>)>,
    redb::StorageError,
>)
    ensures
        res is Ok ==> rows(*table).dom().finite(),
        res matches Ok(Some((key, value))) ==> {
            &&& rows(*table).contains_key(key@)
            &&& rows(*table)[key@] == value@
            &&& byte_lt(key@, to@)
            &&& forall|k: Seq<u8>| #[trigger]
                rows(*table).contains_key(k) && byte_lt(k, to@) ==> !byte_lt(key@, k)
        },
        res matches Ok(None) ==> forall|k: Seq<u8>| #[trigger]
            rows(*table).contains_key(k) ==> !byte_lt(k, to@),
{
    match table.inner.range(..to.as_slice())?.next_back().transpose()? {
        Some((key, value)) => Ok(Some((key.value().to_vec(), value.value().to_vec()))),
        None => Ok(None),
    }
}

}
