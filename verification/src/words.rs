//! Encoding of keys and records as lists of 64-bit words.
//!
//! A type's encoding has one width and one form, so that rows are found again
//! under the key they were written with and read back as they were written.

use vstd::prelude::*;

verus! {

/// A value with a fixed-width encoding as words.
pub trait Words: Sized {
    /// Number of words of every encoding.
    spec fn width() -> nat;

    /// The encoding of the value.
    spec fn words(self) -> Seq<u64>;

    /// The value that a word list encodes, where it encodes one.
    spec fn parsed(w: Seq<u64>) -> Option<Self>;

    /// What was encoded is read back.
    proof fn lemma_round_trip(self)
        ensures
            self.words().len() == Self::width(),
            Self::parsed(self.words()) == Some(self),
    ;

    /// What can be read is the one encoding of what it is read as.
    proof fn lemma_canonical(w: Seq<u64>)
        ensures
            Self::parsed(w) matches Some(x) ==> x.words() == w,
    ;

    /// Appends the encoding.
    fn push_words(&self, out: &mut Vec<u64>)
        ensures
            final(out)@ == old(out)@ + self.words(),
    ;

    /// Reads the encoding that starts at `at`; the result goes with the index
    /// of the first word behind it.
    fn parse_at(w: &Vec<u64>, at: usize) -> (res: Option<(Self, usize)>)
        requires
            at <= w@.len(),
        ensures
            match res {
                Some((x, next)) => {
                    &&& next == at + Self::width()
                    &&& next <= w@.len()
                    &&& Self::parsed(w@.subrange(at as int, next as int)) == Some(x)
                },
                None => {
                    ||| at + Self::width() > w@.len()
                    ||| Self::parsed(w@.subrange(at as int, at + Self::width())) is None
                },
            },
    ;
}

/// Two values with one encoding are one value.
pub proof fn lemma_words_injective<T: Words>(a: T, b: T)
    requires
        a.words() == b.words(),
    ensures
        a == b,
{
    a.lemma_round_trip();
    b.lemma_round_trip();
}

/// The encoding as a list of its own.
pub fn to_words<T: Words>(x: &T) -> (w: Vec<u64>)
    ensures
        w@ == x.words(),
{
    let mut w: Vec<u64> = Vec::new();
    x.push_words(&mut w);
    assert(w@ =~= x.words());
    w
}

/// The value that the whole list encodes.
pub fn from_words<T: Words>(w: &Vec<u64>) -> (res: Option<T>)
    ensures
        res == T::parsed(w@),
{
    proof {
        T::lemma_canonical(w@);
        if let Some(x) = T::parsed(w@) {
            x.lemma_round_trip();
        }
        assert(w@.subrange(0, w@.len() as int) =~= w@);
    }
    match T::parse_at(w, 0) {
        Some((x, next)) => if next == w.len() {
            Some(x)
        } else {
            None
        },
        None => None,
    }
}

impl Words for u64 {
    open spec fn width() -> nat {
        1
    }

    open spec fn words(self) -> Seq<u64> {
        seq![self]
    }

    open spec fn parsed(w: Seq<u64>) -> Option<Self> {
        if w.len() == 1 {
            Some(w[0])
        } else {
            None
        }
    }

    proof fn lemma_round_trip(self) {
    }

    proof fn lemma_canonical(w: Seq<u64>) {
        if w.len() == 1 {
            assert(seq![w[0]] =~= w);
        }
    }

    fn push_words(&self, out: &mut Vec<u64>) {
        out.push(*self);
        assert(out@ =~= old(out)@ + self.words());
    }

    fn parse_at(w: &Vec<u64>, at: usize) -> (res: Option<(Self, usize)>) {
        if at < w.len() {
            Some((w[at], at + 1))
        } else {
            None
        }
    }
}

impl Words for u32 {
    open spec fn width() -> nat {
        1
    }

    open spec fn words(self) -> Seq<u64> {
        seq![self as u64]
    }

    open spec fn parsed(w: Seq<u64>) -> Option<Self> {
        if w.len() == 1 && w[0] <= u32::MAX {
            Some(w[0] as u32)
        } else {
            None
        }
    }

    proof fn lemma_round_trip(self) {
    }

    proof fn lemma_canonical(w: Seq<u64>) {
        if w.len() == 1 {
            assert(seq![w[0]] =~= w);
        }
    }

    fn push_words(&self, out: &mut Vec<u64>) {
        out.push(*self as u64);
        assert(out@ =~= old(out)@ + self.words());
    }

    fn parse_at(w: &Vec<u64>, at: usize) -> (res: Option<(Self, usize)>) {
        if at < w.len() && w[at] <= u32::MAX as u64 {
            Some((w[at] as u32, at + 1))
        } else {
            None
        }
    }
}

impl Words for u16 {
    open spec fn width() -> nat {
        1
    }

    open spec fn words(self) -> Seq<u64> {
        seq![self as u64]
    }

    open spec fn parsed(w: Seq<u64>) -> Option<Self> {
        if w.len() == 1 && w[0] <= u16::MAX {
            Some(w[0] as u16)
        } else {
            None
        }
    }

    proof fn lemma_round_trip(self) {
    }

    proof fn lemma_canonical(w: Seq<u64>) {
        if w.len() == 1 {
            assert(seq![w[0]] =~= w);
        }
    }

    fn push_words(&self, out: &mut Vec<u64>) {
        out.push(*self as u64);
        assert(out@ =~= old(out)@ + self.words());
    }

    fn parse_at(w: &Vec<u64>, at: usize) -> (res: Option<(Self, usize)>) {
        if at < w.len() && w[at] <= u16::MAX as u64 {
            Some((w[at] as u16, at + 1))
        } else {
            None
        }
    }
}

impl Words for u8 {
    open spec fn width() -> nat {
        1
    }

    open spec fn words(self) -> Seq<u64> {
        seq![self as u64]
    }

    open spec fn parsed(w: Seq<u64>) -> Option<Self> {
        if w.len() == 1 && w[0] <= u8::MAX {
            Some(w[0] as u8)
        } else {
            None
        }
    }

    proof fn lemma_round_trip(self) {
    }

    proof fn lemma_canonical(w: Seq<u64>) {
        if w.len() == 1 {
            assert(seq![w[0]] =~= w);
        }
    }

    fn push_words(&self, out: &mut Vec<u64>) {
        out.push(*self as u64);
        assert(out@ =~= old(out)@ + self.words());
    }

    fn parse_at(w: &Vec<u64>, at: usize) -> (res: Option<(Self, usize)>) {
        if at < w.len() && w[at] <= u8::MAX as u64 {
            Some((w[at] as u8, at + 1))
        } else {
            None
        }
    }
}

impl Words for bool {
    open spec fn width() -> nat {
        1
    }

    open spec fn words(self) -> Seq<u64> {
        seq![if self { 1u64 } else { 0u64 }]
    }

    open spec fn parsed(w: Seq<u64>) -> Option<Self> {
        if w.len() == 1 && w[0] <= 1 {
            Some(w[0] == 1)
        } else {
            None
        }
    }

    proof fn lemma_round_trip(self) {
    }

    proof fn lemma_canonical(w: Seq<u64>) {
        if w.len() == 1 {
            assert(seq![w[0]] =~= w);
        }
    }

    fn push_words(&self, out: &mut Vec<u64>) {
        out.push(if *self { 1 } else { 0 });
        assert(out@ =~= old(out)@ + self.words());
    }

    fn parse_at(w: &Vec<u64>, at: usize) -> (res: Option<(Self, usize)>) {
        if at < w.len() && w[at] <= 1 {
            Some((w[at] == 1, at + 1))
        } else {
            None
        }
    }
}

impl Words for () {
    open spec fn width() -> nat {
        0
    }

    open spec fn words(self) -> Seq<u64> {
        Seq::empty()
    }

    open spec fn parsed(w: Seq<u64>) -> Option<Self> {
        if w.len() == 0 {
            Some(())
        } else {
            None
        }
    }

    proof fn lemma_round_trip(self) {
    }

    proof fn lemma_canonical(w: Seq<u64>) {
        if w.len() == 0 {
            assert(w =~= Seq::empty());
        }
    }

    fn push_words(&self, out: &mut Vec<u64>) {
        assert(out@ =~= old(out)@ + self.words());
    }

    fn parse_at(w: &Vec<u64>, at: usize) -> (res: Option<(Self, usize)>) {
        Some(((), at))
    }
}

impl<A: Words, B: Words> Words for (A, B) {
    open spec fn width() -> nat {
        A::width() + B::width()
    }

    open spec fn words(self) -> Seq<u64> {
        self.0.words() + self.1.words()
    }

    open spec fn parsed(w: Seq<u64>) -> Option<Self> {
        if w.len() == A::width() + B::width() {
            match (A::parsed(w.take(A::width() as int)), B::parsed(w.skip(A::width() as int))) {
                (Some(a), Some(b)) => Some((a, b)),
                _ => None,
            }
        } else {
            None
        }
    }

    proof fn lemma_round_trip(self) {
        self.0.lemma_round_trip();
        self.1.lemma_round_trip();
        let w = self.words();
        assert(w.take(A::width() as int) =~= self.0.words());
        assert(w.skip(A::width() as int) =~= self.1.words());
    }

    proof fn lemma_canonical(w: Seq<u64>) {
        if Self::parsed(w) is Some {
            let n = A::width() as int;
            A::lemma_canonical(w.take(n));
            B::lemma_canonical(w.skip(n));
            assert(w =~= w.take(n) + w.skip(n));
        }
    }

    fn push_words(&self, out: &mut Vec<u64>) {
        self.0.push_words(out);
        self.1.push_words(out);
        assert(out@ =~= old(out)@ + self.words());
    }

    fn parse_at(w: &Vec<u64>, at: usize) -> (res: Option<(Self, usize)>) {
        proof {
            if at + Self::width() <= w@.len() {
                let part = w@.subrange(at as int, at + Self::width());
                assert(part.take(A::width() as int) =~= w@.subrange(at as int, at + A::width()));
                assert(part.skip(A::width() as int) =~= w@.subrange(
                    at + A::width(),
                    at + A::width() + B::width(),
                ));
            }
        }
        match A::parse_at(w, at) {
            Some((a, middle)) => match B::parse_at(w, middle) {
                Some((b, next)) => Some(((a, b), next)),
                None => None,
            },
            None => None,
        }
    }
}

/// A value that is encoded as its parts are.
pub trait Record: Sized {
    type Parts: Words;

    spec fn parts(self) -> Self::Parts;

    /// The value made of the parts, where they make one.
    spec fn assembled(p: Self::Parts) -> Option<Self>;

    proof fn lemma_parts(self)
        ensures
            Self::assembled(self.parts()) == Some(self),
    ;

    proof fn lemma_assembled(p: Self::Parts)
        ensures
            Self::assembled(p) matches Some(x) ==> x.parts() == p,
    ;

    fn to_parts(&self) -> (p: Self::Parts)
        ensures
            p == self.parts(),
    ;

    fn of_parts(p: Self::Parts) -> (res: Option<Self>)
        ensures
            res == Self::assembled(p),
    ;
}

impl<T: Record> Words for T {
    open spec fn width() -> nat {
        T::Parts::width()
    }

    open spec fn words(self) -> Seq<u64> {
        self.parts().words()
    }

    open spec fn parsed(w: Seq<u64>) -> Option<Self> {
        match T::Parts::parsed(w) {
            Some(p) => T::assembled(p),
            None => None,
        }
    }

    proof fn lemma_round_trip(self) {
        self.lemma_parts();
        self.parts().lemma_round_trip();
    }

    proof fn lemma_canonical(w: Seq<u64>) {
        T::Parts::lemma_canonical(w);
        if let Some(p) = T::Parts::parsed(w) {
            T::lemma_assembled(p);
        }
    }

    fn push_words(&self, out: &mut Vec<u64>) {
        self.to_parts().push_words(out);
    }

    fn parse_at(w: &Vec<u64>, at: usize) -> (res: Option<(Self, usize)>) {
        match T::Parts::parse_at(w, at) {
            Some((p, next)) => match T::of_parts(p) {
                Some(x) => Some((x, next)),
                None => None,
            },
            None => None,
        }
    }
}

impl<A: Words + Copy, B: Words + Copy, C: Words + Copy> Record for (A, B, C) {
    type Parts = (A, (B, C));

    open spec fn parts(self) -> (A, (B, C)) {
        (self.0, (self.1, self.2))
    }

    open spec fn assembled(p: (A, (B, C))) -> Option<Self> {
        Some((p.0, p.1.0, p.1.1))
    }

    proof fn lemma_parts(self) {
    }

    proof fn lemma_assembled(p: (A, (B, C))) {
    }

    fn to_parts(&self) -> (p: (A, (B, C))) {
        (self.0, (self.1, self.2))
    }

    fn of_parts(p: (A, (B, C))) -> (res: Option<Self>) {
        Some((p.0, p.1.0, p.1.1))
    }
}

impl<A: Words + Copy, B: Words + Copy, C: Words + Copy, D: Words + Copy> Record for (A, B, C, D) {
    type Parts = (A, (B, (C, D)));

    open spec fn parts(self) -> (A, (B, (C, D))) {
        (self.0, (self.1, (self.2, self.3)))
    }

    open spec fn assembled(p: (A, (B, (C, D)))) -> Option<Self> {
        Some((p.0, p.1.0, p.1.1.0, p.1.1.1))
    }

    proof fn lemma_parts(self) {
    }

    proof fn lemma_assembled(p: (A, (B, (C, D)))) {
    }

    fn to_parts(&self) -> (p: (A, (B, (C, D)))) {
        (self.0, (self.1, (self.2, self.3)))
    }

    fn of_parts(p: (A, (B, (C, D)))) -> (res: Option<Self>) {
        Some((p.0, p.1.0, p.1.1.0, p.1.1.1))
    }
}

/// A type with a value that fills the place of an absent one.
pub trait Blank: Words + Copy {
    spec fn blank() -> Self;

    fn make_blank() -> (x: Self)
        ensures
            x == Self::blank(),
    ;

    fn is_blank(&self) -> (res: bool)
        ensures
            res == (*self == Self::blank()),
    ;
}

impl<T: Blank> Record for Option<T> {
    type Parts = (bool, T);

    open spec fn parts(self) -> (bool, T) {
        match self {
            Some(x) => (true, x),
            None => (false, T::blank()),
        }
    }

    open spec fn assembled(p: (bool, T)) -> Option<Self> {
        if p.0 {
            Some(Some(p.1))
        } else if p.1 == T::blank() {
            Some(None)
        } else {
            None
        }
    }

    proof fn lemma_parts(self) {
    }

    proof fn lemma_assembled(p: (bool, T)) {
    }

    fn to_parts(&self) -> (p: (bool, T)) {
        match self {
            Some(x) => (true, *x),
            None => (false, T::make_blank()),
        }
    }

    fn of_parts(p: (bool, T)) -> (res: Option<Self>) {
        if p.0 {
            Some(Some(p.1))
        } else if p.1.is_blank() {
            Some(None)
        } else {
            None
        }
    }
}

}
