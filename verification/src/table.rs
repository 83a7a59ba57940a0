//! Typed tables over the byte strings of [`crate::storage`].

use vstd::prelude::*;

use core::marker::PhantomData;

use crate::bytes::{
    byte_lt, from_key_bytes, key_bytes, key_words, lemma_key_bytes, lemma_key_order,
    lemma_key_words, lemma_unpacked, pack, packed, to_key_bytes, unpack, unpacked,
};
use crate::error::{DbError, DbResult};
use crate::order::{differs_first, lemma_lt_asymmetric, lemma_lt_irreflexive, word_lt};
use crate::listing::{
    at_most, between, key_le, key_lt, lemma_first_is, lemma_key_asymmetric, lemma_key_irreflexive,
    lemma_key_lt_le, lemma_key_total, lemma_key_transitive, lemma_last_is, lemma_next_is,
    lemma_no_next, lemma_no_previous, lemma_previous_is, lemma_rank, lemma_rank_at, lemma_sorted,
    rank, sorted, span,
};
use crate::storage::{
    get_row, insert_row, open_rows, opened_as, remove_row, row_after, row_before, row_from, rows,
    RowTable,
};
use crate::words::{from_words, to_words, Words};

verus! {

/// A value that a row can hold.
pub trait Value: Sized {
    /// What the value stands for.
    type Model;

    spec fn model(self) -> Self::Model;

    /// The words that a row with this value holds.
    spec fn encoded(m: Self::Model) -> Seq<u64>;

    /// The value that a row's words stand for, where they stand for one.
    spec fn decoded(w: Seq<u64>) -> Option<Self::Model>;

    /// What was written is read back.
    proof fn lemma_decoded(m: Self::Model)
        ensures
            Self::decoded(Self::encoded(m)) == Some(m),
    ;

    fn encode(&self) -> (w: Vec<u64>)
        ensures
            w@ == Self::encoded(self.model()),
    ;

    fn decode(w: &Vec<u64>) -> (res: Option<Self>)
        ensures
            match res {
                Some(x) => Self::decoded(w@) == Some(x.model()),
                None => Self::decoded(w@) is None,
            },
    ;
}

impl<T: Words> Value for T {
    type Model = T;

    open spec fn model(self) -> T {
        self
    }

    open spec fn encoded(m: T) -> Seq<u64> {
        m.words()
    }

    open spec fn decoded(w: Seq<u64>) -> Option<T> {
        T::parsed(w)
    }

    proof fn lemma_decoded(m: T) {
        m.lemma_round_trip();
    }

    fn encode(&self) -> (w: Vec<u64>) {
        to_words(self)
    }

    fn decode(w: &Vec<u64>) -> (res: Option<Self>) {
        from_words(w)
    }
}

/// Bytes, one in each word.
pub open spec fn words_of_bytes(b: Seq<u8>) -> Seq<u64> {
    b.map_values(|x: u8| x as u64)
}

/// The bytes that words hold, where each holds one.
pub open spec fn bytes_of_words(w: Seq<u64>) -> Option<Seq<u8>> {
    if forall|i: int| 0 <= i < w.len() ==> #[trigger] w[i] <= u8::MAX {
        Some(w.map_values(|x: u64| x as u8))
    } else {
        None
    }
}

pub proof fn lemma_bytes_of_words(b: Seq<u8>)
    ensures
        bytes_of_words(words_of_bytes(b)) == Some(b),
{
    let w = words_of_bytes(b);
    assert(forall|i: int| 0 <= i < w.len() ==> #[trigger] w[i] <= u8::MAX);
    assert(w.map_values(|x: u64| x as u8) =~= b);
}

/// Appends bytes, one in each word.
pub fn push_bytes(bytes: &Vec<u8>, out: &mut Vec<u64>)
    ensures
        final(out)@ == old(out)@ + words_of_bytes(bytes@),
{
    let mut i: usize = 0;
    assert(out@ =~= old(out)@ + words_of_bytes(bytes@.take(0)));
    while i < bytes.len()
        invariant
            i <= bytes.len(),
            out@ == old(out)@ + words_of_bytes(bytes@.take(i as int)),
        decreases bytes.len() - i,
    {
        out.push(bytes[i] as u64);
        i = i + 1;
        assert(out@ =~= old(out)@ + words_of_bytes(bytes@.take(i as int)));
    }
    assert(bytes@.take(i as int) =~= bytes@);
}

/// Reads the bytes from the word at `from` on.
pub fn parse_bytes(w: &Vec<u64>, from: usize) -> (res: Option<Vec<u8>>)
    requires
        from <= w@.len(),
    ensures
        match res {
            Some(bytes) => bytes_of_words(w@.skip(from as int)) == Some(bytes@),
            None => bytes_of_words(w@.skip(from as int)) is None,
        },
{
    let mut bytes: Vec<u8> = Vec::new();
    let mut i: usize = from;
    while i < w.len()
        invariant
            from <= i <= w.len(),
            bytes.len() == i - from,
            forall|j: int| 0 <= j < bytes.len() ==> w@[from + j] <= u8::MAX && bytes@[j] == #[trigger] w@[from + j],
        decreases w.len() - i,
    {
        if w[i] > u8::MAX as u64 {
            assert(w@.skip(from as int)[i - from] > u8::MAX);
            return None;
        }
        bytes.push(w[i] as u8);
        i = i + 1;
    }
    assert forall|j: int| 0 <= j < w@.skip(from as int).len() implies #[trigger] w@.skip(
        from as int,
    )[j] <= u8::MAX by {
        assert(w@[from + j] <= u8::MAX);
    }
    let ghost read = w@.skip(from as int).map_values(|x: u64| x as u8);
    assert forall|j: int| 0 <= j < bytes.len() implies read[j] == bytes@[j] by {
        assert(w@[from + j] <= u8::MAX);
    }
    assert(read =~= bytes@);
    Some(bytes)
}

impl Value for Vec<u8> {
    type Model = Seq<u8>;

    open spec fn model(self) -> Seq<u8> {
        self@
    }

    open spec fn encoded(m: Seq<u8>) -> Seq<u64> {
        words_of_bytes(m)
    }

    open spec fn decoded(w: Seq<u64>) -> Option<Seq<u8>> {
        bytes_of_words(w)
    }

    proof fn lemma_decoded(m: Seq<u8>) {
        lemma_bytes_of_words(m);
    }

    fn encode(&self) -> (w: Vec<u64>) {
        let mut w: Vec<u64> = Vec::new();
        push_bytes(self, &mut w);
        assert(w@ =~= words_of_bytes(self@));
        w
    }

    fn decode(w: &Vec<u64>) -> (res: Option<Self>) {
        assert(w@.skip(0) =~= w@);
        parse_bytes(w, 0)
    }
}

/// Tells that a row was met whose key or value cannot be read. Only reading
/// one gives such a value.
#[derive(Debug)]
pub struct MalformedRow {
    _met: (),
}

/// An open table with keys `K` and values `V`.
pub struct Table<'txn, K, V> {
    bytes: RowTable<'txn>,
    _key: PhantomData<K>,
    _value: PhantomData<V>,
}

/// The bytes of a key.
pub open spec fn row_key<K: Words>(key: K) -> Seq<u8> {
    key_bytes(key.words())
}

/// The key that bytes stand for, where they stand for one.
pub open spec fn key_of_row<K: Words>(b: Seq<u8>) -> Option<K> {
    match key_words(b) {
        Some(w) => K::parsed(w),
        None => None,
    }
}

/// The value that bytes stand for, where they stand for one.
pub open spec fn value_of_row<V: Value>(b: Seq<u8>) -> Option<V::Model> {
    match unpacked(b) {
        Some(w) => V::decoded(w),
        None => None,
    }
}

/// The typed rows among raw rows: those whose key and value can be read.
pub open spec fn typed_rows<K: Words, V: Value>(raw: Map<Seq<u8>, Seq<u8>>) -> Map<K, V::Model> {
    Map::new(
        |k: K| raw.contains_key(row_key(k)) && value_of_row::<V>(raw[row_key(k)]) is Some,
        |k: K| value_of_row::<V>(raw[row_key(k)])->0,
    )
}

proof fn lemma_row_key<K: Words>(key: K)
    ensures
        key_of_row::<K>(row_key(key)) == Some(key),
{
    key.lemma_round_trip();
    lemma_key_bytes(key.words());
}

proof fn lemma_key_of_row<K: Words>(b: Seq<u8>)
    ensures
        key_of_row::<K>(b) matches Some(key) ==> row_key(key) == b,
{
    lemma_key_words(b);
    if let Some(w) = key_words(b) {
        K::lemma_canonical(w);
    }
}

/// Keys stand in the table in their own order.
proof fn lemma_row_order<K: Words>(a: K, b: K)
    ensures
        byte_lt(row_key(a), row_key(b)) == key_lt(a, b),
{
    a.lemma_round_trip();
    b.lemma_round_trip();
    lemma_key_order(a.words(), b.words());
}

/// A key read from a row bounds the other keys as its bytes bound theirs.
proof fn lemma_rows_order<K: Words, V: Value>(raw: Map<Seq<u8>, Seq<u8>>, other: K, key: K)
    ensures
        byte_lt(row_key(other), row_key(key)) == key_lt(other, key),
        byte_lt(row_key(key), row_key(other)) == key_lt(key, other),
        forall|k: K| #[trigger]
            typed_rows::<K, V>(raw).contains_key(k) ==> {
                &&& raw.contains_key(row_key(k))
                &&& byte_lt(row_key(k), row_key(key)) == key_lt(k, key)
                &&& byte_lt(row_key(key), row_key(k)) == key_lt(key, k)
                &&& byte_lt(row_key(k), row_key(other)) == key_lt(k, other)
                &&& byte_lt(row_key(other), row_key(k)) == key_lt(other, k)
            },
{
    lemma_row_order(other, key);
    lemma_row_order(key, other);
    assert forall|k: K| #[trigger] typed_rows::<K, V>(raw).contains_key(k) implies {
        &&& raw.contains_key(row_key(k))
        &&& byte_lt(row_key(k), row_key(key)) == key_lt(k, key)
        &&& byte_lt(row_key(key), row_key(k)) == key_lt(key, k)
        &&& byte_lt(row_key(k), row_key(other)) == key_lt(k, other)
        &&& byte_lt(row_key(other), row_key(k)) == key_lt(other, k)
    } by {
        lemma_row_order(k, key);
        lemma_row_order(key, k);
        lemma_row_order(k, other);
        lemma_row_order(other, k);
    }
}

proof fn lemma_typed_finite<K: Words, V: Value>(raw: Map<Seq<u8>, Seq<u8>>)
    ensures
        raw.dom().finite() ==> typed_rows::<K, V>(raw).dom().finite(),
{
    if raw.dom().finite() {
        let f = |b: Seq<u8>| key_of_row::<K>(b)->0;
        let dom = typed_rows::<K, V>(raw).dom();
        raw.dom().lemma_map_finite(f);
        assert forall|k: K| dom.contains(k) implies raw.dom().map(f).contains(k) by {
            lemma_row_key(k);
            assert(raw.dom().contains(row_key(k)));
            assert(f(row_key(k)) == k);
        }
        vstd::set_lib::lemma_set_subset_finite(raw.dom().map(f), dom);
    }
}

fn encode_key<K: Words>(key: &K) -> (b: Vec<u8>)
    ensures
        b@ == row_key(*key),
{
    to_key_bytes(&to_words(key))
}

fn decode_key<K: Words>(b: &Vec<u8>) -> (res: Option<K>)
    ensures
        res == key_of_row::<K>(b@),
{
    match from_key_bytes(b) {
        Some(w) => from_words(&w),
        None => None,
    }
}

fn encode_value<V: Value>(value: &V) -> (b: Vec<u8>)
    ensures
        b@ == packed(V::encoded(value.model())),
        value_of_row::<V>(b@) == Some(value.model()),
{
    proof {
        V::lemma_decoded(value.model());
        lemma_unpacked(V::encoded(value.model()));
    }
    pack(&value.encode())
}

fn decode_value<V: Value>(b: &Vec<u8>) -> (res: Option<V>)
    ensures
        match res {
            Some(value) => value_of_row::<V>(b@) == Some(value.model()),
            None => value_of_row::<V>(b@) is None,
        },
{
    match unpack(b) {
        Some(w) => V::decode(&w),
        None => None,
    }
}

/// The keys of read rows.
pub open spec fn keys_of<K, V>(found: Seq<(K, V)>) -> Seq<K> {
    found.map_values(|row: (K, V)| row.0)
}

/// Each read row is a row of the map.
pub open spec fn rows_of<K, V: Value>(found: Seq<(K, V)>, m: Map<K, V::Model>) -> bool {
    forall|i: int|
        0 <= i < found.len() ==> m.contains_key((#[trigger] found[i]).0) && m[found[i].0]
            == found[i].1.model()
}

impl<'txn, K: Words, V: Value> View for Table<'txn, K, V> {
    type V = Map<K, V::Model>;

    closed spec fn view(&self) -> Map<K, V::Model> {
        typed_rows::<K, V>(rows(self.bytes))
    }
}

/// The least key of the rows that is not before `from`.
pub open spec fn is_first_from<K: Words, M>(m: Map<K, M>, from: K, key: K) -> bool {
    &&& m.contains_key(key)
    &&& key_le(from, key)
    &&& forall|k: K| #[trigger] m.contains_key(k) && key_le(from, k) ==> key_le(key, k)
}

/// The least key of the rows that is behind `after`.
pub open spec fn is_first_after<K: Words, M>(m: Map<K, M>, after: K, key: K) -> bool {
    &&& m.contains_key(key)
    &&& key_lt(after, key)
    &&& forall|k: K| #[trigger] m.contains_key(k) && key_lt(after, k) ==> key_le(key, k)
}

/// The greatest key of the rows that is before `to`.
pub open spec fn is_last_before<K: Words, M>(m: Map<K, M>, to: K, key: K) -> bool {
    &&& m.contains_key(key)
    &&& key_lt(key, to)
    &&& forall|k: K| #[trigger] m.contains_key(k) && key_lt(k, to) ==> key_le(k, key)
}

impl<'txn, K: Words, V: Value> Table<'txn, K, V> {
    /// Every row can be read.
    pub closed spec fn intact(&self) -> bool {
        forall|b: Seq<u8>| #[trigger]
            rows(self.bytes).contains_key(b) ==> key_of_row::<K>(b) is Some && value_of_row::<V>(
                rows(self.bytes)[b],
            ) is Some
    }

    /// The name that the table has in the database.
    pub closed spec fn name(&self) -> Seq<char> {
        opened_as(self.bytes)
    }

    /// Opens the table of a name, creating it when it is missing.
    pub(crate) fn open(tx: &'txn redb_bincode::WriteTransaction, name: &str) -> (res: DbResult<
        Self,
    >)
        requires
            name@.len() > 0,
        ensures
            match res {
                Ok(table) => table.name() == name@,
                Err(e) => e is Table,
            },
    {
        match open_rows(tx, name) {
            Ok(bytes) => Ok(Table { bytes, _key: PhantomData, _value: PhantomData }),
            Err(e) => Err(DbError::Table(e)),
        }
    }

    /// The value of a row.
    pub fn get(&self, key: &K) -> (res: DbResult<Option<V>>)
        ensures
            match res {
                Ok(Some(value)) => self@.contains_key(*key) && self@[*key] == value.model(),
                Ok(None) => !self@.contains_key(*key),
                Err(e) => e.is_fault(),
            },
            res matches Err(DbError::Malformed(_)) ==> !self.intact(),
    {
        match get_row(&self.bytes, &encode_key(key)) {
            Ok(Some(b)) => match decode_value(&b) {
                Some(value) => Ok(Some(value)),
                None => Err(DbError::Malformed(MalformedRow { _met: () })),
            },
            Ok(None) => Ok(None),
            Err(e) => Err(DbError::Row(e)),
        }
    }

    /// Whether there is a row.
    pub fn contains(&self, key: &K) -> (res: DbResult<bool>)
        ensures
            match res {
                Ok(found) => found == self@.contains_key(*key),
                Err(e) => e.is_fault(),
            },
            res matches Err(DbError::Malformed(_)) ==> !self.intact(),
    {
        Ok(self.get(key)?.is_some())
    }

    /// Writes a row, in place of the one with this key if there is one.
    pub fn insert(&mut self, key: &K, value: &V) -> (res: DbResult<()>)
        ensures
            match res {
                Ok(()) => final(self)@ == old(self)@.insert(*key, value.model()),
                Err(e) => e.is_fault(),
            },
            !(res matches Err(DbError::Malformed(_))),
            res is Ok && old(self).intact() ==> final(self).intact(),
            final(self).name() == old(self).name(),
    {
        match insert_row(&mut self.bytes, &encode_key(key), &encode_value(value)) {
            Ok(()) => {
                proof {
                    lemma_row_key(*key);
                    assert forall|k: K| k != *key implies row_key(k) != row_key(*key) by {
                        lemma_row_key(k);
                    }
                    assert(self@ =~= old(self)@.insert(*key, value.model()));
                }
                Ok(())
            },
            Err(e) => Err(DbError::Row(e)),
        }
    }

    /// Removes the row with this key if there is one.
    pub fn remove(&mut self, key: &K) -> (res: DbResult<()>)
        ensures
            match res {
                Ok(()) => final(self)@ == old(self)@.remove(*key),
                Err(e) => e.is_fault(),
            },
            !(res matches Err(DbError::Malformed(_))),
            res is Ok && old(self).intact() ==> final(self).intact(),
            final(self).name() == old(self).name(),
    {
        match remove_row(&mut self.bytes, &encode_key(key)) {
            Ok(_) => {
                proof {
                    lemma_row_key(*key);
                    assert forall|k: K| k != *key implies row_key(k) != row_key(*key) by {
                        lemma_row_key(k);
                    }
                    assert(self@ =~= old(self)@.remove(*key));
                }
                Ok(())
            },
            Err(e) => Err(DbError::Row(e)),
        }
    }

    /// Removes the row with this key and returns its value.
    pub fn take(&mut self, key: &K) -> (res: DbResult<Option<V>>)
        ensures
            match res {
                Ok(found) => {
                    &&& final(self)@ == old(self)@.remove(*key)
                    &&& found is Some == old(self)@.contains_key(*key)
                    &&& found matches Some(value) ==> old(self)@[*key] == value.model()
                },
                Err(e) => e.is_fault(),
            },
            res matches Err(DbError::Malformed(_)) ==> !old(self).intact(),
            res is Ok && old(self).intact() ==> final(self).intact(),
            final(self).name() == old(self).name(),
    {
        let found = self.get(key)?;
        self.remove(key)?;
        Ok(found)
    }

    fn decoded_row(&self, row: (Vec<u8>, Vec<u8>)) -> (res: DbResult<(K, V)>)
        requires
            rows(self.bytes).contains_key(row.0@),
            rows(self.bytes)[row.0@] == row.1@,
        ensures
            match res {
                Ok((key, value)) => {
                    &&& row_key(key) == row.0@
                    &&& self@.contains_key(key)
                    &&& self@[key] == value.model()
                },
                Err(e) => e.is_fault(),
            },
            res matches Err(DbError::Malformed(_)) ==> !self.intact(),
    {
        proof {
            lemma_key_of_row::<K>(row.0@);
        }
        match (decode_key::<K>(&row.0), decode_value(&row.1)) {
            (Some(key), Some(value)) => Ok((key, value)),
            _ => Err(DbError::Malformed(MalformedRow { _met: () })),
        }
    }

    /// The first row from a key on.
    pub fn first_from(&self, from: &K) -> (res: DbResult<Option<(K, V)>>)
        ensures
            match res {
                Ok(Some((key, value))) => is_first_from(self@, *from, key) && self@[key]
                    == value.model(),
                Ok(None) => forall|k: K| #[trigger] self@.contains_key(k) ==> key_lt(k, *from),
                Err(e) => e.is_fault(),
            },
            res matches Err(DbError::Malformed(_)) ==> !self.intact(),
            res is Ok ==> self@.dom().finite(),
    {
        proof {
            lemma_typed_finite::<K, V>(rows(self.bytes));
            lemma_rows_order::<K, V>(rows(self.bytes), *from, *from);
        }
        match row_from(&self.bytes, &encode_key(from)) {
            Ok(Some(row)) => {
                let (key, value) = self.decoded_row(row)?;
                proof {
                    lemma_rows_order::<K, V>(rows(self.bytes), *from, key);
                }
                Ok(Some((key, value)))
            },
            Ok(None) => Ok(None),
            Err(e) => Err(DbError::Row(e)),
        }
    }

    /// The first row behind a key.
    pub fn first_after(&self, after: &K) -> (res: DbResult<Option<(K, V)>>)
        ensures
            match res {
                Ok(Some((key, value))) => is_first_after(self@, *after, key) && self@[key]
                    == value.model(),
                Ok(None) => forall|k: K| #[trigger] self@.contains_key(k) ==> key_le(k, *after),
                Err(e) => e.is_fault(),
            },
            res matches Err(DbError::Malformed(_)) ==> !self.intact(),
            res is Ok ==> self@.dom().finite(),
    {
        proof {
            lemma_typed_finite::<K, V>(rows(self.bytes));
            lemma_rows_order::<K, V>(rows(self.bytes), *after, *after);
        }
        match row_after(&self.bytes, &encode_key(after)) {
            Ok(Some(row)) => {
                let (key, value) = self.decoded_row(row)?;
                proof {
                    lemma_rows_order::<K, V>(rows(self.bytes), *after, key);
                }
                Ok(Some((key, value)))
            },
            Ok(None) => Ok(None),
            Err(e) => Err(DbError::Row(e)),
        }
    }

    /// The last row before a key.
    pub fn last_before(&self, to: &K) -> (res: DbResult<Option<(K, V)>>)
        ensures
            match res {
                Ok(Some((key, value))) => is_last_before(self@, *to, key) && self@[key]
                    == value.model(),
                Ok(None) => forall|k: K| #[trigger] self@.contains_key(k) ==> key_le(*to, k),
                Err(e) => e.is_fault(),
            },
            res matches Err(DbError::Malformed(_)) ==> !self.intact(),
            res is Ok ==> self@.dom().finite(),
    {
        proof {
            lemma_typed_finite::<K, V>(rows(self.bytes));
            lemma_rows_order::<K, V>(rows(self.bytes), *to, *to);
        }
        match row_before(&self.bytes, &encode_key(to)) {
            Ok(Some(row)) => {
                let (key, value) = self.decoded_row(row)?;
                proof {
                    lemma_rows_order::<K, V>(rows(self.bytes), *to, key);
                }
                Ok(Some((key, value)))
            },
            Ok(None) => Ok(None),
            Err(e) => Err(DbError::Row(e)),
        }
    }

    /// The first row from `lo` to `hi`, both ends included.
    pub fn walk_from(&self, lo: &K, hi: &K) -> (res: DbResult<Option<(K, V)>>)
        ensures
            match res {
                Ok(found) => {
                    let range = between(self@, *lo, *hi);
                    &&& range.finite()
                    &&& found is Some <==> sorted(range).len() > 0
                    &&& found matches Some((key, value)) ==> sorted(range)[0] == key
                        && range.contains(key) && self@[key] == value.model()
                },
                Err(e) => e.is_fault(),
            },
            res matches Err(DbError::Malformed(_)) ==> !self.intact(),
            res is Ok ==> self@.dom().finite(),
    {
        let found = self.first_from(lo)?;
        let ghost range = between(self@, *lo, *hi);
        proof {
            vstd::set_lib::lemma_set_subset_finite(self@.dom(), range);
            lemma_sorted(range);
        }
        match found {
            Some((key, value)) => {
                if less(hi, &key) {
                    proof {
                        if sorted(range).len() > 0 {
                            let k = sorted(range)[0];
                            assert(sorted(range).contains(k));
                            lemma_key_lt_le(*hi, key, k);
                        }
                    }
                    Ok(None)
                } else {
                    proof {
                        lemma_first_is(range, key);
                    }
                    Ok(Some((key, value)))
                }
            },
            None => {
                proof {
                    if sorted(range).len() > 0 {
                        assert(sorted(range).contains(sorted(range)[0]));
                    }
                }
                Ok(None)
            },
        }
    }

    /// The row that follows the one with this key among those from `lo` to
    /// `hi`.
    pub fn walk_on(&self, key: &K, lo: &K, hi: &K) -> (res: DbResult<Option<(K, V)>>)
        requires
            between(self@, *lo, *hi).contains(*key),
        ensures
            match res {
                Ok(found) => {
                    let range = between(self@, *lo, *hi);
                    let next = rank(range, *key) + 1;
                    &&& range.finite()
                    &&& found is Some <==> next < sorted(range).len()
                    &&& found matches Some((k, value)) ==> sorted(range)[next] == k
                        && range.contains(k) && self@[k] == value.model()
                },
                Err(e) => e.is_fault(),
            },
            res matches Err(DbError::Malformed(_)) ==> !self.intact(),
    {
        let found = self.first_after(key)?;
        let ghost range = between(self@, *lo, *hi);
        proof {
            vstd::set_lib::lemma_set_subset_finite(self@.dom(), range);
            lemma_rank(range, *key);
        }
        match found {
            Some((k, value)) => {
                if less(hi, &k) {
                    proof {
                        assert forall|x: K| #[trigger] range.contains(x) implies key_le(x, *key) by {
                            lemma_key_lt_le(*hi, k, x);
                        }
                        lemma_no_next(range, *key);
                    }
                    Ok(None)
                } else {
                    proof {
                        lemma_key_lt_le(*lo, *key, k);
                        assert(key_le(*lo, k));
                        lemma_next_is(range, *key, k);
                    }
                    Ok(Some((k, value)))
                }
            },
            None => {
                proof {
                    lemma_no_next(range, *key);
                }
                Ok(None)
            },
        }
    }

    /// The last row from `lo` to `hi`, both ends included.
    pub fn walk_back_from(&self, lo: &K, hi: &K) -> (res: DbResult<Option<(K, V)>>)
        where K: Copy,
        ensures
            match res {
                Ok(found) => {
                    let range = between(self@, *lo, *hi);
                    &&& range.finite()
                    &&& found is Some <==> sorted(range).len() > 0
                    &&& found matches Some((key, value)) ==> sorted(range).last() == key
                        && range.contains(key) && self@[key] == value.model()
                },
                Err(e) => e.is_fault(),
            },
            res matches Err(DbError::Malformed(_)) ==> !self.intact(),
    {
        let below = self.last_before(hi)?;
        let ghost range = between(self@, *lo, *hi);
        proof {
            vstd::set_lib::lemma_set_subset_finite(self@.dom(), range);
            lemma_sorted(range);
            lemma_key_irreflexive(*hi);
        }
        let at_end = self.get(hi)?;
        if let Some(value) = at_end {
            if !less(hi, lo) {
                proof {
                    lemma_last_is(range, *hi);
                }
                return Ok(Some((*hi, value)));
            }
        }
        match below {
            Some((key, value)) => {
                if less(&key, lo) {
                    proof {
                        assert forall|x: K| !#[trigger] range.contains(x) by {
                            if range.contains(x) {
                                lemma_key_total(x, *hi);
                                lemma_key_lt_le(x, key, *lo);
                                lemma_key_lt_le(*lo, x, *hi);
                            }
                        }
                        if sorted(range).len() > 0 {
                            assert(sorted(range).contains(sorted(range)[0]));
                        }
                    }
                    Ok(None)
                } else {
                    proof {
                        assert forall|x: K| #[trigger] range.contains(x) implies key_le(x, key) by {
                            lemma_key_total(x, *hi);
                            lemma_key_lt_le(*lo, x, *hi);
                        }
                        lemma_key_lt_le(key, *hi, *hi);
                        lemma_key_asymmetric(key, *hi);
                        lemma_last_is(range, key);
                    }
                    Ok(Some((key, value)))
                }
            },
            None => {
                proof {
                    assert forall|x: K| !#[trigger] range.contains(x) by {
                        if range.contains(x) {
                            lemma_key_total(x, *hi);
                            lemma_key_lt_le(*lo, x, *hi);
                        }
                    }
                    if sorted(range).len() > 0 {
                        assert(sorted(range).contains(sorted(range)[0]));
                    }
                }
                Ok(None)
            },
        }
    }

    /// The row that precedes the one with this key among those from `lo` to
    /// `hi`.
    pub fn walk_back(&self, key: &K, lo: &K, hi: &K) -> (res: DbResult<Option<(K, V)>>)
        requires
            between(self@, *lo, *hi).contains(*key),
        ensures
            match res {
                Ok(found) => {
                    let range = between(self@, *lo, *hi);
                    let previous = rank(range, *key) - 1;
                    &&& range.finite()
                    &&& found is Some <==> previous >= 0
                    &&& found matches Some((k, value)) ==> sorted(range)[previous] == k
                        && range.contains(k) && self@[k] == value.model()
                },
                Err(e) => e.is_fault(),
            },
            res matches Err(DbError::Malformed(_)) ==> !self.intact(),
    {
        let found = self.last_before(key)?;
        let ghost range = between(self@, *lo, *hi);
        proof {
            vstd::set_lib::lemma_set_subset_finite(self@.dom(), range);
            lemma_rank(range, *key);
        }
        match found {
            Some((k, value)) => {
                if less(&k, lo) {
                    proof {
                        assert forall|x: K| #[trigger] range.contains(x) implies key_le(*key, x) by {
                            lemma_key_lt_le(x, k, *lo);
                        }
                        lemma_no_previous(range, *key);
                    }
                    Ok(None)
                } else {
                    proof {
                        lemma_key_lt_le(k, *key, *hi);
                        lemma_key_asymmetric(k, *key);
                        assert(key_le(k, *hi));
                        lemma_previous_is(range, *key, k);
                    }
                    Ok(Some((k, value)))
                }
            },
            None => {
                proof {
                    lemma_no_previous(range, *key);
                }
                Ok(None)
            },
        }
    }

    /// The rows from `lo` to `hi`, both ends included, in ascending order.
    pub fn collect(&self, lo: &K, hi: &K) -> (res: DbResult<Vec<(K, V)>>)
        ensures
            match res {
                Ok(found) => {
                    &&& keys_of(found@) == sorted(between(self@, *lo, *hi))
                    &&& rows_of(found@, self@)
                    &&& between(self@, *lo, *hi).finite()
                },
                Err(e) => e.is_fault(),
            },
            res matches Err(DbError::Malformed(_)) ==> !self.intact(),
    {
        let mut found: Vec<(K, V)> = Vec::new();
        let ghost range = between(self@, *lo, *hi);
        let mut next = self.walk_from(lo, hi)?;
        assert(keys_of(found@) =~= sorted(range).take(0));
        loop
            invariant
                range == between(self@, *lo, *hi),
                range.finite(),
                found.len() <= sorted(range).len(),
                keys_of(found@) == sorted(range).take(found.len() as int),
                rows_of(found@, self@),
                next is Some <==> found.len() < sorted(range).len(),
                next matches Some((key, value)) ==> sorted(range)[found.len() as int] == key
                    && range.contains(key) && self@[key] == value.model(),
            decreases sorted(range).len() - found.len(),
        {
            match next {
                Some((key, value)) => {
                    let after = self.walk_on(&key, lo, hi)?;
                    let ghost before = found@;
                    found.push((key, value));
                    proof {
                        lemma_rank_at(range, before.len() as int);
                        assert(keys_of(found@) =~= keys_of(before).push(key));
                        assert(keys_of(found@) =~= sorted(range).take(found.len() as int));
                    }
                    next = after;
                },
                None => {
                    assert(sorted(range).take(found.len() as int) =~= sorted(range));
                    return Ok(found);
                },
            }
        }
    }

    /// The first rows, at most `limit` of them, from `lo` to `hi` and behind
    /// `after`, where it is given, in order.
    pub fn page_after(&self, after: Option<K>, lo: &K, hi: &K, limit: usize) -> (res: DbResult<
        Vec<(K, V)>,
    >) where K: Copy
        requires
            after matches Some(a) ==> key_le(*lo, a),
        ensures
            match res {
                Ok(found) => {
                    &&& keys_of(found@) == at_most(
                        sorted(span(self@, after, *lo, *hi)),
                        limit as nat,
                    )
                    &&& rows_of(found@, self@)
                    &&& span(self@, after, *lo, *hi).finite()
                },
                Err(e) => e.is_fault(),
            },
            res matches Err(DbError::Malformed(_)) ==> !self.intact(),
    {
        let mut found: Vec<(K, V)> = Vec::new();
        let ghost set = span(self@, after, *lo, *hi);
        let mut next = match &after {
            Some(a) => self.first_after(a)?,
            None => self.first_from(lo)?,
        };
        proof {
            vstd::set_lib::lemma_set_subset_finite(self@.dom(), set);
            lemma_sorted(set);
            assert forall|x: K| #[trigger] set.contains(x) implies match next {
                Some((k, _)) => key_le(k, x),
                None => false,
            } by {
                if let Some(a) = after {
                    if next is None {
                        lemma_key_asymmetric(a, x);
                    }
                }
            }
            if let Some((k, _)) = next {
                if let Some(a) = after {
                    lemma_key_lt_le(*lo, a, k);
                }
                if key_le(k, *hi) {
                    if let Some(a) = after {
                        lemma_key_asymmetric(a, k);
                        if key_lt(k, *lo) {
                            lemma_key_asymmetric(*lo, k);
                        }
                    }
                    assert(set.contains(k));
                    lemma_first_is(set, k);
                } else {
                    assert forall|x: K| !#[trigger] set.contains(x) by {
                        lemma_key_lt_le(*hi, k, x);
                    }
                    assert(set =~= Set::empty());
                }
            } else {
                assert(set =~= Set::empty());
            }
            assert(keys_of(found@) =~= sorted(set).take(0));
        }
        while found.len() < limit
            invariant
                set == span(self@, after, *lo, *hi),
                set.finite(),
                found.len() <= limit,
                found.len() <= sorted(set).len(),
                keys_of(found@) == sorted(set).take(found.len() as int),
                rows_of(found@, self@),
                match next {
                    Some((k, v)) => {
                        &&& self@.contains_key(k)
                        &&& self@[k] == v.model()
                        &&& if key_le(k, *hi) {
                            &&& found.len() < sorted(set).len()
                            &&& sorted(set)[found.len() as int] == k
                            &&& set.contains(k)
                        } else {
                            found.len() == sorted(set).len()
                        }
                    },
                    None => found.len() == sorted(set).len(),
                },
            ensures
                found.len() == limit || found.len() == sorted(set).len(),
            decreases limit - found.len(),
        {
            match next {
                Some((key, value)) => {
                    if less(hi, &key) {
                        break;
                    }
                    let following = self.first_after(&key)?;
                    let ghost before = found@;
                    found.push((key, value));
                    proof {
                        lemma_rank_at(set, before.len() as int);
                        assert(keys_of(found@) =~= keys_of(before).push(key));
                        assert(keys_of(found@) =~= sorted(set).take(found.len() as int));
                        let past_end = match following {
                            Some((n, _)) => key_lt(*hi, n),
                            None => true,
                        };
                        if past_end {
                            assert forall|x: K| #[trigger] set.contains(x) implies key_le(
                                x,
                                key,
                            ) by {
                                if key_lt(key, x) {
                                    if let Some((n, _)) = following {
                                        lemma_key_lt_le(*hi, n, x);
                                    }
                                }
                            }
                            lemma_no_next(set, key);
                        } else {
                            let n = (following->0).0;
                            lemma_key_lt_le(*lo, key, n);
                            if key_lt(n, *lo) {
                                lemma_key_asymmetric(n, *lo);
                            }
                            if let Some(a) = after {
                                lemma_key_transitive(a, key, n);
                            }
                            assert(set.contains(n));
                            lemma_next_is(set, key, n);
                        }
                    }
                    next = following;
                },
                None => {
                    break;
                },
            }
        }
        proof {
            if found.len() == sorted(set).len() {
                assert(sorted(set).take(found.len() as int) =~= sorted(set));
            }
        }
        Ok(found)
    }
}

/// Compares two keys.
pub fn less<K: Words>(a: &K, b: &K) -> (res: bool)
    ensures
        res == key_lt(*a, *b),
{
    less_words(&to_words(a), &to_words(b))
}

fn less_words(a: &Vec<u64>, b: &Vec<u64>) -> (res: bool)
    ensures
        res == word_lt(a@, b@),
{
    if a.len() != b.len() {
        return a.len() < b.len();
    }
    let mut i: usize = 0;
    while i < a.len()
        invariant
            a.len() == b.len(),
            i <= a.len(),
            forall|j: int| 0 <= j < i ==> a@[j] == b@[j],
        decreases a.len() - i,
    {
        if a[i] != b[i] {
            proof {
                if a@[i as int] < b@[i as int] {
                    assert(differs_first(a@, b@, i as int));
                } else {
                    assert(differs_first(b@, a@, i as int));
                    lemma_lt_asymmetric(b@, a@);
                }
            }
            return a[i] < b[i];
        }
        i = i + 1;
    }
    proof {
        assert(a@ =~= b@);
        lemma_lt_irreflexive(a@);
    }
    false
}

}
