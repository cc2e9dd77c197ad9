//! Word-level repetition: a dominant word, a repeated pair of words, or a
//! text that is one word said over and over.

use vstd::prelude::*;
use crate::text::{chars_eq, chars_of, lower_of, lowercase, split_words, views, words};

verus! {

/// How many entries of `ws` equal `w`.
pub open spec fn occurrences(ws: Seq<Seq<char>>, w: Seq<char>) -> nat
    decreases ws.len(),
{
    if ws.len() == 0 {
        0
    } else {
        occurrences(ws.drop_last(), w) + if ws.last() == w {
            1nat
        } else {
            0nat
        }
    }
}

/// The words of a text, each lower-cased.
pub open spec fn lower_words(s: Seq<char>) -> Seq<Seq<char>> {
    words(s).map_values(|w: Seq<char>| lower_of(w))
}

/// Some word makes up more than 40% of the words.
pub open spec fn dominant_word(lw: Seq<Seq<char>>) -> bool {
    exists|i: int| 0 <= i < lw.len() && 5 * occurrences(lw, #[trigger] lw[i]) > 2 * lw.len()
}

/// Some pair of adjacent words is repeated right after itself.
pub open spec fn repeated_bigram(lw: Seq<Seq<char>>) -> bool {
    exists|i: int| 0 <= i && i + 3 < lw.len() && #[trigger] lw[i] == lw[i + 2] && lw[i + 1] == lw[i + 3]
}

/// A text of at least four words, one of which dominates or whose word pairs
/// repeat back to back.
pub open spec fn repetitive(s: Seq<char>) -> bool {
    let lw = lower_words(s);
    lw.len() >= 4 && (dominant_word(lw) || repeated_bigram(lw))
}

fn lower_all(ws: &Vec<Vec<char>>) -> (r: Vec<Vec<char>>)
    ensures
        views(r@) == views(ws@).map_values(|w: Seq<char>| lower_of(w)),
{
    let mut r: Vec<Vec<char>> = Vec::new();
    let mut i: usize = 0;
    while i < ws.len()
        invariant
            i <= ws.len(),
            r@.len() == i,
            forall|k: int| 0 <= k < i ==> (#[trigger] r@[k])@ == lower_of(ws@[k]@),
        decreases ws.len() - i,
    {
        let l = lowercase(&ws[i]);
        r.push(l);
        i += 1;
    }
    assert(views(r@) =~= views(ws@).map_values(|w: Seq<char>| lower_of(w)));
    r
}

/// The lower-cased words of a text.
pub fn lower_words_of(s: &Vec<char>) -> (r: Vec<Vec<char>>)
    ensures
        views(r@) == lower_words(s@),
{
    let ws = split_words(s);
    lower_all(&ws)
}

pub(crate) fn count_word(lw: &Vec<Vec<char>>, w: &Vec<char>) -> (r: usize)
    ensures
        r == occurrences(views(lw@), w@),
        r <= lw@.len(),
{
    let ghost v = views(lw@);
    let mut cnt: usize = 0;
    let mut j: usize = 0;
    while j < lw.len()
        invariant
            v == views(lw@),
            j <= lw.len(),
            cnt <= j,
            cnt == occurrences(v.subrange(0, j as int), w@),
        decreases lw.len() - j,
    {
        assert(v.subrange(0, j + 1).drop_last() =~= v.subrange(0, j as int));
        if chars_eq(&lw[j], w) {
            cnt += 1;
        }
        j += 1;
    }
    assert(v =~= v.subrange(0, lw@.len() as int));
    cnt
}

fn has_dominant_word(lw: &Vec<Vec<char>>) -> (r: bool)
    ensures
        r == dominant_word(views(lw@)),
{
    let ghost v = views(lw@);
    let n = lw.len();
    let mut i: usize = 0;
    while i < n
        invariant
            v == views(lw@),
            n == lw@.len(),
            i <= n,
            forall|k: int| 0 <= k < i ==> !(5 * occurrences(v, #[trigger] v[k]) > 2 * v.len()),
        decreases n - i,
    {
        let c = count_word(lw, &lw[i]);
        if (c as u128) * 5 > (n as u128) * 2 {
            assert(5 * occurrences(v, v[i as int]) > 2 * v.len());
            return true;
        }
        i += 1;
    }
    false
}

fn has_repeated_bigram(lw: &Vec<Vec<char>>) -> (r: bool)
    ensures
        r == repeated_bigram(views(lw@)),
{
    let ghost v = views(lw@);
    let n = lw.len();
    if n < 4 {
        return false;
    }
    let mut i: usize = 0;
    while i + 3 < n
        invariant
            v == views(lw@),
            n == lw@.len(),
            n >= 4,
            i + 3 <= n,
            forall|k: int| 0 <= k < i ==> !(#[trigger] v[k] == v[k + 2] && v[k + 1] == v[k + 3]),
        decreases n - i,
    {
        if chars_eq(&lw[i], &lw[i + 2]) && chars_eq(&lw[i + 1], &lw[i + 3]) {
            assert(v[i as int] == v[i + 2] && v[i + 1] == v[i + 3]);
            return true;
        }
        i += 1;
    }
    false
}

/// The repetition rule on words that are already lower-cased: at least
/// four of them, and one makes up more than 40% or a pair of adjacent words
/// repeats right after itself.
pub fn repetitive_words(lw: &Vec<Vec<char>>) -> (r: bool)
    ensures
        r == (lw@.len() >= 4 && (dominant_word(views(lw@)) || repeated_bigram(views(lw@)))),
{
    if lw.len() < 4 {
        return false;
    }
    has_dominant_word(lw) || has_repeated_bigram(lw)
}

pub(crate) fn repetitive_chars(s: &Vec<char>) -> (r: bool)
    ensures
        r == repetitive(s@),
{
    let lw = lower_words_of(s);
    repetitive_words(&lw)
}

/// Whether the text is repetitive: at least four words, and either one
/// lower-cased word makes up more than 40% of them or two adjacent words
/// are repeated immediately after themselves.
pub fn is_repetitive(text: &str) -> (r: bool)
    ensures
        r == repetitive(text@),
{
    let s = chars_of(text);
    repetitive_chars(&s)
}


/// At least three words, all equal to the first one up to case.
pub open spec fn pure_repetition(t: Seq<char>) -> bool {
    let lw = lower_words(t);
    lw.len() >= 3 && forall|k: int| 0 <= k < lw.len() ==> #[trigger] lw[k] == lw[0]
}

/// The pure-repetition rule on words that are already lower-cased: at
/// least three of them, all equal to the first.
pub fn all_same_words(lw: &Vec<Vec<char>>) -> (r: bool)
    ensures
        r == (lw@.len() >= 3 && forall|k: int|
            0 <= k < lw@.len() ==> #[trigger] views(lw@)[k] == views(lw@)[0]),
{
    let ghost v = views(lw@);
    if lw.len() < 3 {
        return false;
    }
    let mut i: usize = 1;
    while i < lw.len()
        invariant
            v == views(lw@),
            v.len() >= 3,
            1 <= i <= v.len(),
            forall|k: int| 0 <= k < i ==> #[trigger] v[k] == v[0],
        decreases lw.len() - i,
    {
        if !chars_eq(&lw[i], &lw[0]) {
            assert(v[i as int] != v[0]);
            return false;
        }
        i += 1;
    }
    true
}

fn pure_repetition_chars(s: &Vec<char>) -> (r: bool)
    ensures
        r == pure_repetition(s@),
{
    let lw = lower_words_of(s);
    all_same_words(&lw)
}

/// Whether the text has at least three words and every word equals the
/// first one, ignoring case.
pub fn is_pure_repetition(text: &str) -> (r: bool)
    ensures
        r == pure_repetition(text@),
{
    let s = chars_of(text);
    pure_repetition_chars(&s)
}

} // verus!
