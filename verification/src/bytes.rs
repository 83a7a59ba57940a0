//! Words as the bytes that rows hold.
//!
//! A key takes eight bytes for each word, the highest first, so that keys of
//! one width stand in the order of their words. A value takes one byte for
//! each small word and nine for each of the others.

use vstd::prelude::*;

use crate::order::{differs_first, lemma_lt_total, word_lt};

verus! {

/// At `i` the two byte strings differ for the first time, and `a` ends or has
/// the smaller byte there.
pub open spec fn breaks_first(a: Seq<u8>, b: Seq<u8>, i: int) -> bool {
    &&& 0 <= i <= a.len()
    &&& i < b.len()
    &&& i == a.len() || a[i] < b[i]
    &&& forall|j: int| 0 <= j < i ==> a[j] == b[j]
}

/// `a` stands strictly before `b` where byte strings are compared byte by
/// byte, the beginning of another before it.
pub open spec fn byte_lt(a: Seq<u8>, b: Seq<u8>) -> bool {
    exists|i: int| breaks_first(a, b, i)
}

pub proof fn lemma_byte_asymmetric(a: Seq<u8>, b: Seq<u8>)
    requires
        byte_lt(a, b),
    ensures
        !byte_lt(b, a),
{
    if byte_lt(b, a) {
        let i = choose|i: int| breaks_first(a, b, i);
        let j = choose|j: int| breaks_first(b, a, j);
        if i < j {
            assert(b[i] == a[i]);
        } else if j < i {
            assert(a[j] == b[j]);
        }
    }
}

/// The eight bytes of a word, the highest first.
pub open spec fn word_bytes(x: u64) -> Seq<u8> {
    let q1 = x / 256;
    let q2 = q1 / 256;
    let q3 = q2 / 256;
    let q4 = q3 / 256;
    let q5 = q4 / 256;
    let q6 = q5 / 256;
    let q7 = q6 / 256;
    seq![
        q7 as u8,
        (q6 % 256) as u8,
        (q5 % 256) as u8,
        (q4 % 256) as u8,
        (q3 % 256) as u8,
        (q2 % 256) as u8,
        (q1 % 256) as u8,
        (x % 256) as u8,
    ]
}

/// The number that eight bytes stand for, the highest first.
pub open spec fn bytes_number(b: Seq<u8>) -> int {
    let n2 = 256 * b[0] + b[1];
    let n3 = 256 * n2 + b[2];
    let n4 = 256 * n3 + b[3];
    let n5 = 256 * n4 + b[4];
    let n6 = 256 * n5 + b[5];
    let n7 = 256 * n6 + b[6];
    256 * n7 + b[7]
}

pub proof fn lemma_number(b: Seq<u8>)
    requires
        b.len() == 8,
    ensures
        0 <= bytes_number(b) <= u64::MAX,
        word_bytes(bytes_number(b) as u64) == b,
{
    let n2 = 256 * b[0] + b[1];
    let n3 = 256 * n2 + b[2];
    let n4 = 256 * n3 + b[3];
    let n5 = 256 * n4 + b[4];
    let n6 = 256 * n5 + b[5];
    let n7 = 256 * n6 + b[6];
    let x = bytes_number(b) as u64;
    assert(x / 256 == n7 && x % 256 == b[7]);
    assert(n7 / 256 == n6 && n7 % 256 == b[6]);
    assert(n6 / 256 == n5 && n6 % 256 == b[5]);
    assert(n5 / 256 == n4 && n5 % 256 == b[4]);
    assert(n4 / 256 == n3 && n4 % 256 == b[3]);
    assert(n3 / 256 == n2 && n3 % 256 == b[2]);
    assert(n2 / 256 == b[0] && n2 % 256 == b[1]);
    assert(word_bytes(x) =~= b);
}

pub proof fn lemma_word_bytes(x: u64)
    ensures
        word_bytes(x).len() == 8,
        bytes_number(word_bytes(x)) == x,
{
    let q1 = x / 256;
    let q2 = q1 / 256;
    let q3 = q2 / 256;
    let q4 = q3 / 256;
    let q5 = q4 / 256;
    let q6 = q5 / 256;
    let q7 = q6 / 256;
    assert(q7 < 256);
    assert(q6 == 256 * q7 + q6 % 256);
    assert(q5 == 256 * q6 + q5 % 256);
    assert(q4 == 256 * q5 + q4 % 256);
    assert(q3 == 256 * q4 + q3 % 256);
    assert(q2 == 256 * q3 + q2 % 256);
    assert(q1 == 256 * q2 + q1 % 256);
    assert(x == 256 * q1 + x % 256);
}

/// Where the bytes of two words differ first, the smaller word has the
/// smaller byte.
proof fn lemma_word_bytes_order(x: u64, y: u64) -> (i: int)
    requires
        x < y,
    ensures
        0 <= i < 8,
        breaks_first(word_bytes(x), word_bytes(y), i),
{
    let a = word_bytes(x);
    let b = word_bytes(y);
    lemma_word_bytes(x);
    lemma_word_bytes(y);
    if a[0] != b[0] {
        assert(a[0] < b[0]);
        0
    } else if a[1] != b[1] {
        assert(a[1] < b[1]);
        1
    } else if a[2] != b[2] {
        assert(a[2] < b[2]);
        2
    } else if a[3] != b[3] {
        assert(a[3] < b[3]);
        3
    } else if a[4] != b[4] {
        assert(a[4] < b[4]);
        4
    } else if a[5] != b[5] {
        assert(a[5] < b[5]);
        5
    } else if a[6] != b[6] {
        assert(a[6] < b[6]);
        6
    } else {
        assert(a[7] < b[7]);
        7
    }
}

/// Appends the eight bytes of a word.
fn push_word(x: u64, out: &mut Vec<u8>)
    ensures
        final(out)@ == old(out)@ + word_bytes(x),
{
    let q1: u64 = x / 256;
    let q2: u64 = q1 / 256;
    let q3: u64 = q2 / 256;
    let q4: u64 = q3 / 256;
    let q5: u64 = q4 / 256;
    let q6: u64 = q5 / 256;
    let q7: u64 = q6 / 256;
    out.push(q7 as u8);
    out.push((q6 % 256) as u8);
    out.push((q5 % 256) as u8);
    out.push((q4 % 256) as u8);
    out.push((q3 % 256) as u8);
    out.push((q2 % 256) as u8);
    out.push((q1 % 256) as u8);
    out.push((x % 256) as u8);
    assert(out@ =~= old(out)@ + word_bytes(x));
}

/// The word in the eight bytes from `at` on.
fn word_at(b: &Vec<u8>, at: usize) -> (x: u64)
    requires
        at + 8 <= b@.len(),
    ensures
        x == bytes_number(b@.subrange(at as int, at + 8)),
{
    let len: usize = b.len();
    assert(at + 8 <= len);
    let n2: u64 = 256 * (b[at] as u64) + b[at + 1] as u64;
    let n3: u64 = 256 * n2 + b[at + 2] as u64;
    let n4: u64 = 256 * n3 + b[at + 3] as u64;
    let n5: u64 = 256 * n4 + b[at + 4] as u64;
    let n6: u64 = 256 * n5 + b[at + 5] as u64;
    let n7: u64 = 256 * n6 + b[at + 6] as u64;
    256 * n7 + b[at + 7] as u64
}

/// The bytes of a key.
pub open spec fn key_bytes(w: Seq<u64>) -> Seq<u8>
    decreases w.len(),
{
    if w.len() == 0 {
        Seq::empty()
    } else {
        word_bytes(w[0]) + key_bytes(w.skip(1))
    }
}

/// The words that a key's bytes hold, where they hold whole words.
pub open spec fn key_words(b: Seq<u8>) -> Option<Seq<u64>>
    decreases b.len(),
{
    if b.len() == 0 {
        Some(Seq::empty())
    } else if b.len() < 8 {
        None
    } else {
        match key_words(b.skip(8)) {
            Some(rest) => Some(seq![bytes_number(b.take(8)) as u64] + rest),
            None => None,
        }
    }
}

/// A key is read back from its bytes.
pub proof fn lemma_key_bytes(w: Seq<u64>)
    ensures
        key_words(key_bytes(w)) == Some(w),
    decreases w.len(),
{
    if w.len() > 0 {
        let b = key_bytes(w);
        lemma_word_bytes(w[0]);
        lemma_key_bytes(w.skip(1));
        assert(b.take(8) =~= word_bytes(w[0]));
        assert(b.skip(8) =~= key_bytes(w.skip(1)));
        assert(seq![w[0]] + w.skip(1) =~= w);
    } else {
        assert(w =~= Seq::empty());
    }
}

/// No other bytes stand for the same key.
pub proof fn lemma_key_words(b: Seq<u8>)
    ensures
        key_words(b) matches Some(w) ==> key_bytes(w) == b,
    decreases b.len(),
{
    if b.len() >= 8 {
        lemma_key_words(b.skip(8));
        if let Some(rest) = key_words(b.skip(8)) {
            let x = bytes_number(b.take(8)) as u64;
            let w = seq![x] + rest;
            lemma_number(b.take(8));
            assert(w.skip(1) =~= rest);
            assert(b.take(8) + b.skip(8) =~= b);
        }
    } else if b.len() == 0 {
        assert(b =~= Seq::empty());
    }
}

proof fn lemma_key_order_forward(a: Seq<u64>, b: Seq<u64>)
    requires
        a.len() == b.len(),
        word_lt(a, b),
    ensures
        byte_lt(key_bytes(a), key_bytes(b)),
    decreases a.len(),
{
    let i = choose|i: int| differs_first(a, b, i);
    let x = key_bytes(a);
    let y = key_bytes(b);
    lemma_word_bytes(a[0]);
    lemma_word_bytes(b[0]);
    if i == 0 {
        let j = lemma_word_bytes_order(a[0], b[0]);
        assert forall|k: int| 0 <= k < j implies x[k] == y[k] by {
            assert(word_bytes(a[0])[k] == word_bytes(b[0])[k]);
        }
        assert(breaks_first(x, y, j));
    } else {
        assert(a[0] == b[0]);
        assert forall|k: int| 0 <= k < i - 1 implies a.skip(1)[k] == b.skip(1)[k] by {
            assert(a[k + 1] == b[k + 1]);
        }
        assert(differs_first(a.skip(1), b.skip(1), i - 1));
        lemma_key_order_forward(a.skip(1), b.skip(1));
        let p = key_bytes(a.skip(1));
        let q = key_bytes(b.skip(1));
        let j = choose|j: int| breaks_first(p, q, j);
        assert forall|k: int| 0 <= k < j + 8 implies x[k] == y[k] by {
            if k >= 8 {
                assert(p[k - 8] == q[k - 8]);
            }
        }
        assert(breaks_first(x, y, j + 8));
    }
}

/// Keys of one width stand in the order of their words.
pub proof fn lemma_key_order(a: Seq<u64>, b: Seq<u64>)
    requires
        a.len() == b.len(),
    ensures
        byte_lt(key_bytes(a), key_bytes(b)) == word_lt(a, b),
{
    lemma_lt_total(a, b);
    if word_lt(a, b) {
        lemma_key_order_forward(a, b);
    } else if word_lt(b, a) {
        lemma_key_order_forward(b, a);
        lemma_byte_asymmetric(key_bytes(b), key_bytes(a));
    }
}

/// The key's bytes as a list of their own.
pub fn to_key_bytes(w: &Vec<u64>) -> (b: Vec<u8>)
    ensures
        b@ == key_bytes(w@),
{
    let mut b: Vec<u8> = Vec::new();
    let mut i: usize = 0;
    assert(w@.skip(0) =~= w@);
    assert(b@ + key_bytes(w@.skip(0)) =~= key_bytes(w@));
    while i < w.len()
        invariant
            i <= w.len(),
            b@ + key_bytes(w@.skip(i as int)) == key_bytes(w@),
        decreases w.len() - i,
    {
        push_word(w[i], &mut b);
        proof {
            assert(w@.skip(i as int).skip(1) =~= w@.skip(i + 1));
            assert(b@ + key_bytes(w@.skip(i + 1)) =~= key_bytes(w@));
        }
        i = i + 1;
    }
    assert(b@ + key_bytes(w@.skip(i as int)) =~= b@);
    b
}

/// The words that the whole key holds.
pub fn from_key_bytes(b: &Vec<u8>) -> (res: Option<Vec<u64>>)
    ensures
        match res {
            Some(w) => key_words(b@) == Some(w@),
            None => key_words(b@) is None,
        },
{
    let mut w: Vec<u64> = Vec::new();
    let mut at: usize = 0;
    assert(b@.skip(0) =~= b@);
    proof {
        if let Some(rest) = key_words(b@) {
            assert(w@ + rest =~= rest);
        }
    }
    while at < b.len()
        invariant
            at <= b.len(),
            key_words(b@) == (match key_words(b@.skip(at as int)) {
                Some(rest) => Some(w@ + rest),
                None => None,
            }),
        decreases b.len() - at,
    {
        if b.len() - at < 8 {
            return None;
        }
        let x: u64 = word_at(b, at);
        let ghost before = w@;
        w.push(x);
        proof {
            assert(b@.skip(at as int).skip(8) =~= b@.skip(at + 8));
            assert(b@.skip(at as int).take(8) =~= b@.subrange(at as int, at + 8));
            lemma_number(b@.subrange(at as int, at + 8));
            if let Some(rest) = key_words(b@.skip(at + 8)) {
                assert(before + (seq![x] + rest) =~= w@ + rest);
            }
        }
        at = at + 8;
    }
    assert(w@ + Seq::<u64>::empty() =~= w@);
    Some(w)
}

/// Marks a word that takes eight more bytes.
pub const WIDE: u8 = 255;

/// The bytes of one word of a value.
pub open spec fn packed_word(x: u64) -> Seq<u8> {
    if x < WIDE {
        seq![x as u8]
    } else {
        seq![WIDE] + word_bytes(x)
    }
}

/// The bytes of a value.
pub open spec fn packed(w: Seq<u64>) -> Seq<u8>
    decreases w.len(),
{
    if w.len() == 0 {
        Seq::empty()
    } else {
        packed_word(w[0]) + packed(w.skip(1))
    }
}

/// The words that a value's bytes hold, where the last word is whole.
pub open spec fn unpacked(b: Seq<u8>) -> Option<Seq<u64>>
    decreases b.len(),
{
    if b.len() == 0 {
        Some(Seq::empty())
    } else if b[0] < WIDE {
        match unpacked(b.skip(1)) {
            Some(rest) => Some(seq![b[0] as u64] + rest),
            None => None,
        }
    } else if b.len() < 9 {
        None
    } else {
        match unpacked(b.skip(9)) {
            Some(rest) => Some(seq![bytes_number(b.subrange(1, 9)) as u64] + rest),
            None => None,
        }
    }
}

/// A value is read back from its bytes.
pub proof fn lemma_unpacked(w: Seq<u64>)
    ensures
        unpacked(packed(w)) == Some(w),
    decreases w.len(),
{
    if w.len() > 0 {
        let b = packed(w);
        lemma_word_bytes(w[0]);
        lemma_unpacked(w.skip(1));
        assert(seq![w[0]] + w.skip(1) =~= w);
        if w[0] < WIDE {
            assert(b.skip(1) =~= packed(w.skip(1)));
        } else {
            assert(b.subrange(1, 9) =~= word_bytes(w[0]));
            assert(b.skip(9) =~= packed(w.skip(1)));
        }
    } else {
        assert(w =~= Seq::empty());
    }
}

/// The value's bytes as a list of their own.
pub fn pack(w: &Vec<u64>) -> (b: Vec<u8>)
    ensures
        b@ == packed(w@),
{
    let mut b: Vec<u8> = Vec::new();
    let mut i: usize = 0;
    assert(w@.skip(0) =~= w@);
    assert(b@ + packed(w@.skip(0)) =~= packed(w@));
    while i < w.len()
        invariant
            i <= w.len(),
            b@ + packed(w@.skip(i as int)) == packed(w@),
        decreases w.len() - i,
    {
        let x: u64 = w[i];
        let ghost before = b@;
        if x < WIDE as u64 {
            b.push(x as u8);
            assert(b@ =~= before + packed_word(x));
        } else {
            b.push(WIDE);
            push_word(x, &mut b);
            assert(b@ =~= before + packed_word(x));
        }
        proof {
            assert(w@.skip(i as int).skip(1) =~= w@.skip(i + 1));
            assert(b@ + packed(w@.skip(i + 1)) =~= before + packed(w@.skip(i as int)));
        }
        i = i + 1;
    }
    assert(b@ + packed(w@.skip(i as int)) =~= b@);
    b
}

/// The words that the whole value holds.
pub fn unpack(b: &Vec<u8>) -> (res: Option<Vec<u64>>)
    ensures
        match res {
            Some(w) => unpacked(b@) == Some(w@),
            None => unpacked(b@) is None,
        },
{
    let mut w: Vec<u64> = Vec::new();
    let mut at: usize = 0;
    assert(b@.skip(0) =~= b@);
    proof {
        if let Some(rest) = unpacked(b@) {
            assert(w@ + rest =~= rest);
        }
    }
    while at < b.len()
        invariant
            at <= b.len(),
            unpacked(b@) == (match unpacked(b@.skip(at as int)) {
                Some(rest) => Some(w@ + rest),
                None => None,
            }),
        decreases b.len() - at,
    {
        let ghost before = w@;
        if b[at] < WIDE {
            let x: u64 = b[at] as u64;
            w.push(x);
            proof {
                assert(b@.skip(at as int).skip(1) =~= b@.skip(at + 1));
                if let Some(rest) = unpacked(b@.skip(at + 1)) {
                    assert(before + (seq![x] + rest) =~= w@ + rest);
                }
            }
            at = at + 1;
        } else {
            if b.len() - at < 9 {
                return None;
            }
            let x: u64 = word_at(b, at + 1);
            w.push(x);
            proof {
                assert(b@.skip(at as int).skip(9) =~= b@.skip(at + 9));
                assert(b@.skip(at as int).subrange(1, 9) =~= b@.subrange(at + 1, at + 9));
                lemma_number(b@.subrange(at + 1, at + 9));
                if let Some(rest) = unpacked(b@.skip(at + 9)) {
                    assert(before + (seq![x] + rest) =~= w@ + rest);
                }
            }
            at = at + 9;
        }
    }
    assert(w@ + Seq::<u64>::empty() =~= w@);
    Some(w)
}

}
