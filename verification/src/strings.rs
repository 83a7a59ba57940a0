//! Text in rows, one character in each word.

use vstd::prelude::*;

verus! {

/// Appends a character by `String::push`: the string ends with it, and what
/// stood before is as it was.
#[verifier::external_body]
fn push_char(s: &mut String, c: char)
    ensures
        final(s)@ == old(s)@.push(c),
{
    s.push(c);
}

/// The code points that characters have.
pub open spec fn is_char_code(code: u64) -> bool {
    code < 0xD800 || 0xE000 <= code <= 0x10FFFF
}

/// The character with a code point, by `char::from_u32`: there is one for
/// every code point except the surrogates and those behind the last.
#[verifier::external_body]
fn char_with_code(code: u32) -> (res: Option<char>)
    ensures
        match res {
            Some(c) => is_char_code(code as u64) && c as u32 == code,
            None => !is_char_code(code as u64),
        },
{
    char::from_u32(code)
}

/// Characters as words.
pub open spec fn words_of_chars(s: Seq<char>) -> Seq<u64> {
    s.map_values(|c: char| c as u64)
}

/// The characters that words hold, where each holds one.
pub open spec fn chars_of_words(w: Seq<u64>) -> Option<Seq<char>> {
    if forall|i: int| 0 <= i < w.len() ==> is_char_code(#[trigger] w[i]) {
        Some(w.map_values(|x: u64| x as char))
    } else {
        None
    }
}

proof fn lemma_char(c: char)
    ensures
        is_char_code(c as u64),
        (c as u64) as char == c,
        c as u32 == c as u64,
{
}

pub proof fn lemma_chars_of_words(s: Seq<char>)
    ensures
        chars_of_words(words_of_chars(s)) == Some(s),
{
    let w = words_of_chars(s);
    assert forall|i: int| 0 <= i < w.len() implies is_char_code(#[trigger] w[i]) by {
        lemma_char(s[i]);
    }
    assert forall|i: int| 0 <= i < s.len() implies w.map_values(|x: u64| x as char)[i] == s[i] by {
        lemma_char(s[i]);
    }
    assert(w.map_values(|x: u64| x as char) =~= s);
}

/// Appends the characters of a text, one in each word.
pub fn push_text(text: &String, out: &mut Vec<u64>)
    ensures
        final(out)@ == old(out)@ + words_of_chars(text@),
{
    assert(out@ =~= old(out)@ + words_of_chars(text@.take(0)));
    for c in it: text.as_str().chars()
        invariant
            out@ == old(out)@ + words_of_chars(text@.take(it.index() as int)),
            it.seq() == text@,
    {
        out.push(c as u64);
        proof {
            assert(out@ =~= old(out)@ + words_of_chars(text@.take(it.index() + 1)));
        }
    }
    assert(text@.take(text@.len() as int) =~= text@);
}

/// Reads the text in the words from `from` to `to`.
pub fn parse_text(w: &Vec<u64>, from: usize, to: usize) -> (res: Option<String>)
    requires
        from <= to <= w@.len(),
    ensures
        match res {
            Some(text) => chars_of_words(w@.subrange(from as int, to as int)) == Some(text@),
            None => chars_of_words(w@.subrange(from as int, to as int)) is None,
        },
{
    let mut text = String::new();
    let mut i: usize = from;
    let ghost part = w@.subrange(from as int, to as int);
    while i < to
        invariant
            from <= i <= to <= w@.len(),
            part == w@.subrange(from as int, to as int),
            text@.len() == i - from,
            forall|j: int| 0 <= j < i - from ==> is_char_code(#[trigger] part[j]) && text@[j] == part[j] as char,
        decreases to - i,
    {
        let word: u64 = w[i];
        assert(part[i - from] == word);
        if word > 0x10FFFF {
            return None;
        }
        match char_with_code(word as u32) {
            Some(c) => {
                proof {
                    lemma_char(c);
                }
                push_char(&mut text, c);
            },
            None => {
                return None;
            },
        }
        i = i + 1;
    }
    assert(part.map_values(|x: u64| x as char) =~= text@);
    Some(text)
}

/// Stands behind a text in a row; no character has this code.
pub const TEXT_END: u64 = 0xFFFF_FFFF_FFFF_FFFF;

/// Where the first end of a text is, or the length where there is none.
pub open spec fn text_end(w: Seq<u64>) -> int
    decreases w.len(),
{
    if w.len() == 0 || w[0] == TEXT_END {
        0
    } else {
        1 + text_end(w.skip(1))
    }
}

/// The text at the start of some words, and the words behind its end.
pub open spec fn split_text(w: Seq<u64>) -> Option<(Seq<char>, Seq<u64>)> {
    let end = text_end(w);
    if end >= w.len() {
        None
    } else {
        match chars_of_words(w.take(end)) {
            Some(text) => Some((text, w.skip(end + 1))),
            None => None,
        }
    }
}

/// A text with its end behind it.
pub open spec fn ended(text: Seq<char>) -> Seq<u64> {
    words_of_chars(text).push(TEXT_END)
}

proof fn lemma_text_end(w: Seq<u64>, end: int)
    requires
        0 <= end <= w.len(),
        forall|i: int| 0 <= i < end ==> #[trigger] w[i] != TEXT_END,
        end < w.len() ==> w[end] == TEXT_END,
    ensures
        text_end(w) == end,
    decreases end,
{
    if end > 0 {
        assert forall|i: int| 0 <= i < end - 1 implies #[trigger] w.skip(1)[i] != TEXT_END by {
            assert(w[i + 1] != TEXT_END);
        }
        lemma_text_end(w.skip(1), end - 1);
    }
}

pub proof fn lemma_split_text(text: Seq<char>, rest: Seq<u64>)
    ensures
        split_text(ended(text) + rest) == Some((text, rest)),
{
    let w = ended(text) + rest;
    let n = text.len() as int;
    assert forall|i: int| 0 <= i < n implies #[trigger] w[i] != TEXT_END by {
        lemma_char(text[i]);
    }
    lemma_text_end(w, n);
    assert(w.take(n) =~= words_of_chars(text));
    lemma_chars_of_words(text);
    assert(w.skip(n + 1) =~= rest);
}

/// Appends a text and its end.
pub fn push_ended(text: &String, out: &mut Vec<u64>)
    ensures
        final(out)@ == old(out)@ + ended(text@),
{
    push_text(text, out);
    out.push(TEXT_END);
    assert(out@ =~= old(out)@ + ended(text@));
}

/// Reads the text that starts at `from`; the result goes with the index of
/// the first word behind its end.
pub fn parse_ended(w: &Vec<u64>, from: usize) -> (res: Option<(String, usize)>)
    requires
        from <= w@.len(),
    ensures
        match res {
            Some((text, next)) => {
                &&& from < next <= w@.len()
                &&& split_text(w@.skip(from as int)) == Some((text@, w@.skip(next as int)))
            },
            None => split_text(w@.skip(from as int)) is None,
        },
{
    let mut end: usize = from;
    let ghost part = w@.skip(from as int);
    while end < w.len() && w[end] != TEXT_END
        invariant
            from <= end <= w@.len(),
            part == w@.skip(from as int),
            forall|i: int| 0 <= i < end - from ==> #[trigger] part[i] != TEXT_END,
        decreases w@.len() - end,
    {
        assert(part[end - from] == w@[end as int]);
        end = end + 1;
    }
    proof {
        if end < w@.len() {
            assert(part[end - from] == w@[end as int]);
        }
        lemma_text_end(part, end - from);
        assert(part.take(end - from) =~= w@.subrange(from as int, end as int));
    }
    if end == w.len() {
        return None;
    }
    assert(part.skip(end - from + 1) =~= w@.skip(end + 1));
    match parse_text(w, from, end) {
        Some(text) => Some((text, end + 1)),
        None => None,
    }
}

}
