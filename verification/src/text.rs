//! Word counting and the rounding rule that turns a word count into minutes.
//!
//! A word is a maximal run of non-whitespace characters; whitespace is the
//! Unicode White_Space set, as `str::split_whitespace` uses it. Minutes are
//! always rounded up (ceiling), so a non-zero word count under one minute
//! still yields one minute.

use vstd::arithmetic::div_mod::{
    lemma_basic_div, lemma_div_is_ordered, lemma_div_nonincreasing, lemma_div_plus_one,
};
use vstd::prelude::*;

verus! {

/// A whitespace character for the purpose of word splitting: the Unicode
/// White_Space set (tab through carriage return, space, next line, no-break
/// space, ogham space mark, the en-quad to hair-space range, the line and
/// paragraph separators, narrow no-break space, medium mathematical space,
/// ideographic space).
pub open spec fn is_space(c: char) -> bool {
    c == ' ' || c == '\t' || c == '\n' || c == '\r' || c == '\u{0b}' || c == '\u{0c}' || c
        == '\u{85}' || c == '\u{a0}' || c == '\u{1680}' || ('\u{2000}' as u32 <= c as u32 && c
        as u32 <= '\u{200a}' as u32) || c == '\u{2028}' || c == '\u{2029}' || c == '\u{202f}' || c
        == '\u{205f}' || c == '\u{3000}'
}

/// Number of words of `s` from position `i` on, given whether position `i`
/// sits inside a word that began earlier.
pub open spec fn word_count_from(s: Seq<char>, i: int, in_word: bool) -> nat
    decreases s.len() - i,
{
    if i < 0 || i >= s.len() {
        0
    } else {
        (if !is_space(s[i]) && !in_word {
            1nat
        } else {
            0nat
        }) + word_count_from(s, i + 1, !is_space(s[i]))
    }
}

/// Number of whitespace-separated words in `s`.
pub open spec fn word_count(s: Seq<char>) -> nat {
    word_count_from(s, 0, false)
}

/// `w / m` rounded towards positive infinity.
pub open spec fn ceil_div(w: int, m: int) -> int
    recommends
        w >= 0,
        m >= 1,
{
    (w + m - 1) / m
}

/// Relies on `str::chars`: it yields the characters of the string in order.
#[verifier::external_body]
pub(crate) fn chars_vec(s: &str) -> (r: Vec<char>)
    ensures
        r@ == s@,
{
    s.chars().collect()
}

/// Relies on the `FromIterator` impl of `String`: collecting characters
/// yields the string of exactly those characters, in order.
#[verifier::external_body]
pub(crate) fn string_from_chars(v: Vec<char>) -> (r: String)
    ensures
        r@ == v@,
{
    v.into_iter().collect()
}

fn space_char(c: char) -> (r: bool)
    ensures
        r == is_space(c),
{
    c == ' ' || c == '\t' || c == '\n' || c == '\r' || c == '\u{0b}' || c == '\u{0c}' || c
        == '\u{85}' || c == '\u{a0}' || c == '\u{1680}' || ('\u{2000}' as u32 <= c as u32 && c
        as u32 <= '\u{200a}' as u32) || c == '\u{2028}' || c == '\u{2029}' || c == '\u{202f}' || c
        == '\u{205f}' || c == '\u{3000}'
}

/// Count the whitespace-separated words of `text`.
pub fn count_words(text: &str) -> (n: usize)
    ensures
        n as nat == word_count(text@),
{
    let chars = chars_vec(text);
    let mut n: usize = 0;
    let mut in_word = false;
    let mut i: usize = 0;
    while i < chars.len()
        invariant
            chars@ == text@,
            i <= chars@.len(),
            n <= i,
            word_count(text@) == n + word_count_from(text@, i as int, in_word),
        decreases chars@.len() - i,
    {
        let c = chars[i];
        let sp = space_char(c);
        if !sp && !in_word {
            n = n + 1;
        }
        in_word = !sp;
        i = i + 1;
    }
    n
}

/// Minutes needed to read `words` words at `wpm` words per minute, rounded up.
pub fn reading_minutes(words: usize, wpm: usize) -> (r: usize)
    requires
        wpm >= 1,
    ensures
        r as int == ceil_div(words as int, wpm as int),
        r <= words,
{
    if words == 0 {
        proof {
            lemma_basic_div(wpm as int - 1, wpm as int);
        }
        0
    } else {
        proof {
            lemma_div_plus_one(words as int - 1, wpm as int);
            lemma_div_nonincreasing(words as int - 1, wpm as int);
        }
        (words - 1) / wpm + 1
    }
}

/// Exactly `m` words at `m` words per minute read in exactly one minute,
/// and one word more in exactly two: the minute count is a ceiling, never
/// rounded down.
pub proof fn lemma_ceil_div_boundary(w: int, m: int)
    requires
        m >= 1,
    ensures
        w == m ==> ceil_div(w, m) == 1,
        w == m + 1 ==> ceil_div(w, m) == 2,
{
    lemma_div_plus_one(m - 1, m);
    lemma_div_plus_one(m, m);
    lemma_basic_div(m - 1, m);
    lemma_basic_div(0, m);
}

/// Monotonicity of the estimate: with the rate held constant, a document with
/// at least as many visible words never takes fewer minutes.
pub proof fn lemma_minutes_monotonic(w1: int, w2: int, m: int)
    requires
        0 <= w1 <= w2,
        m >= 1,
    ensures
        ceil_div(w1, m) <= ceil_div(w2, m),
{
    lemma_div_is_ordered(w1 + m - 1, w2 + m - 1, m);
}

} // verus!
