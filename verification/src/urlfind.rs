//! Finding URL-shaped substrings in free text.
//!
//! The grammar: scheme `http` or `https` followed by `://`, an optional
//! `www.` prefix, a host of 2 to 256 characters drawn from the host class,
//! a literal dot, a TLD of 2 to 4 lowercase letters ending at a word
//! boundary, and an optional run of path/query characters. Matching follows
//! leftmost-first backtracking semantics: quantifiers are greedy and give
//! back only as far as needed, the earliest starting match wins, and
//! successive matches never overlap.
//!
//! The boundary after the TLD is judged over ASCII word characters —
//! letters, digits and the underscore. A Unicode-aware boundary would also
//! treat letters of other scripts as word characters, so the two judgments
//! part ways only on a non-ASCII letter standing right after a candidate
//! TLD; stating the full Unicode set would take tables that nothing here
//! could be held to.

use vstd::prelude::*;

verus! {

pub open spec fn is_ascii_letter(c: char) -> bool {
    ('a' as u32 <= c as u32 && c as u32 <= 'z' as u32) || ('A' as u32 <= c as u32 && c as u32
        <= 'Z' as u32)
}

pub open spec fn is_ascii_digit(c: char) -> bool {
    '0' as u32 <= c as u32 && c as u32 <= '9' as u32
}

/// The characters a host may be made of: `[-a-zA-Z0-9@:%._+~#=]`.
pub open spec fn is_host_char(c: char) -> bool {
    is_ascii_letter(c) || is_ascii_digit(c) || c == '-' || c == '@' || c == ':' || c == '%' || c
        == '.' || c == '_' || c == '+' || c == '~' || c == '#' || c == '='
}

/// The characters a TLD may be made of: `[a-z]`.
pub open spec fn is_tld_char(c: char) -> bool {
    'a' as u32 <= c as u32 && c as u32 <= 'z' as u32
}

/// The characters a path or query may be made of: `[-a-zA-Z0-9@:%_+.~#?&/=]`.
pub open spec fn is_path_char(c: char) -> bool {
    is_ascii_letter(c) || is_ascii_digit(c) || c == '-' || c == '@' || c == ':' || c == '%' || c
        == '_' || c == '+' || c == '.' || c == '~' || c == '#' || c == '?' || c == '&' || c == '/'
        || c == '='
}

pub open spec fn is_word_char(c: char) -> bool {
    is_ascii_letter(c) || is_ascii_digit(c) || c == '_'
}

pub open spec fn host_pred() -> spec_fn(char) -> bool {
    |c: char| is_host_char(c)
}

pub open spec fn tld_pred() -> spec_fn(char) -> bool {
    |c: char| is_tld_char(c)
}

pub open spec fn path_pred() -> spec_fn(char) -> bool {
    |c: char| is_path_char(c)
}

/// Length of the maximal run of `pred`-characters starting at `i`.
pub open spec fn run_len(s: Seq<char>, i: int, pred: spec_fn(char) -> bool) -> int
    decreases s.len() - i,
{
    if i < 0 || i >= s.len() || !pred(s[i]) {
        0
    } else {
        1 + run_len(s, i + 1, pred)
    }
}

pub proof fn lemma_run_len_bounds(s: Seq<char>, i: int, pred: spec_fn(char) -> bool)
    requires
        0 <= i <= s.len(),
    ensures
        0 <= run_len(s, i, pred),
        i + run_len(s, i, pred) <= s.len(),
    decreases s.len() - i,
{
    if i < s.len() && pred(s[i]) {
        lemma_run_len_bounds(s, i + 1, pred);
    }
}

/// A run is exactly `e - i` when the characters of `[i, e)` satisfy `pred`
/// and the run cannot be extended past `e`.
pub proof fn lemma_run_len_exact(s: Seq<char>, i: int, e: int, pred: spec_fn(char) -> bool)
    requires
        0 <= i <= e <= s.len(),
        forall|q: int| i <= q < e ==> pred(s[q]),
        e == s.len() || !pred(s[e]),
    ensures
        run_len(s, i, pred) == e - i,
    decreases e - i,
{
    if i < e {
        lemma_run_len_exact(s, i + 1, e, pred);
    }
}

/// Length of the scheme at `i`: 8 for `https://`, 7 for `http://`, else 0.
pub open spec fn scheme_len_at(s: Seq<char>, i: int) -> int {
    if i >= 0 && i + 8 <= s.len() && s[i] == 'h' && s[i + 1] == 't' && s[i + 2] == 't' && s[i + 3]
        == 'p' && s[i + 4] == 's' && s[i + 5] == ':' && s[i + 6] == '/' && s[i + 7] == '/' {
        8
    } else if i >= 0 && i + 7 <= s.len() && s[i] == 'h' && s[i + 1] == 't' && s[i + 2] == 't' && s[i
        + 3] == 'p' && s[i + 4] == ':' && s[i + 5] == '/' && s[i + 6] == '/' {
        7
    } else {
        0
    }
}

/// Whether the optional `www.` prefix stands at `j`.
pub open spec fn has_www(s: Seq<char>, j: int) -> bool {
    j >= 0 && j + 4 <= s.len() && s[j] == 'w' && s[j + 1] == 'w' && s[j + 2] == 'w' && s[j + 3]
        == '.'
}

/// A word boundary after a word character stands at `q` when `q` is past the
/// end of the text or the character at `q` is not a word character.
pub open spec fn word_boundary(s: Seq<char>, q: int) -> bool {
    q >= s.len() || !is_word_char(s[q])
}

/// End of the best TLD-and-path match starting at `p`, trying a greedy TLD
/// length of `t` letters first and giving back down to 2, or -1.
pub open spec fn tld_end(s: Seq<char>, p: int, t: int) -> int
    decreases t,
{
    if t < 2 {
        -1
    } else if t <= run_len(s, p, tld_pred()) && word_boundary(s, p + t) {
        p + t + run_len(s, p + t, path_pred())
    } else {
        tld_end(s, p, t - 1)
    }
}

/// End of the best host-dot-TLD match with the host starting at `j`, trying a
/// greedy host length of `k` characters first and giving back down to 2.
pub open spec fn host_end_from(s: Seq<char>, j: int, k: int) -> int
    decreases k,
{
    if k < 2 {
        -1
    } else if k <= run_len(s, j, host_pred()) && 0 <= j && j + k < s.len() && s[j + k] == '.'
        && tld_end(s, j + k + 1, 4) >= 0 {
        tld_end(s, j + k + 1, 4)
    } else {
        host_end_from(s, j, k - 1)
    }
}

pub open spec fn host_end(s: Seq<char>, j: int) -> int {
    host_end_from(s, j, 256)
}

/// End of the match of the whole grammar at position `i`, or -1. The `www.`
/// prefix is consumed greedily: only if no match succeeds with it consumed is
/// a match sought with the prefix left to the host.
pub open spec fn match_end_at(s: Seq<char>, i: int) -> int {
    let sl = scheme_len_at(s, i);
    if sl == 0 {
        -1
    } else {
        let j = i + sl;
        if has_www(s, j) && host_end(s, j + 4) >= 0 {
            host_end(s, j + 4)
        } else {
            host_end(s, j)
        }
    }
}

pub proof fn lemma_tld_end_bounds(s: Seq<char>, p: int, t: int)
    requires
        0 <= p <= s.len(),
        t <= 4,
    ensures
        tld_end(s, p, t) == -1 || (p + 2 <= tld_end(s, p, t) && tld_end(s, p, t) <= s.len()),
    decreases t,
{
    if t >= 2 {
        if t <= run_len(s, p, tld_pred()) && word_boundary(s, p + t) {
            lemma_run_len_bounds(s, p, tld_pred());
            lemma_run_len_bounds(s, p + t, path_pred());
        } else {
            lemma_tld_end_bounds(s, p, t - 1);
        }
    }
}

pub proof fn lemma_host_end_bounds(s: Seq<char>, j: int, k: int)
    requires
        0 <= j <= s.len(),
    ensures
        host_end_from(s, j, k) == -1 || (j + 5 <= host_end_from(s, j, k) && host_end_from(s, j, k)
            <= s.len()),
    decreases k,
{
    if k >= 2 {
        if k <= run_len(s, j, host_pred()) && j + k < s.len() && s[j + k] == '.' && tld_end(
            s,
            j + k + 1,
            4,
        ) >= 0 {
            lemma_tld_end_bounds(s, j + k + 1, 4);
        } else {
            lemma_host_end_bounds(s, j, k - 1);
        }
    }
}

pub proof fn lemma_match_end_bounds(s: Seq<char>, i: int)
    requires
        0 <= i <= s.len(),
    ensures
        match_end_at(s, i) == -1 || (i + 12 <= match_end_at(s, i) && match_end_at(s, i) <= s.len()),
{
    let sl = scheme_len_at(s, i);
    if sl != 0 {
        if has_www(s, i + sl) {
            lemma_host_end_bounds(s, i + sl + 4, 256);
        }
        lemma_host_end_bounds(s, i + sl, 256);
    }
}

/// The URL-shaped substrings of `s` from `pos` on, in order: at each step the
/// earliest match at or after `pos` is taken, and the search resumes at its
/// end, so matches never overlap.
pub open spec fn url_matches_from(s: Seq<char>, pos: int) -> Seq<Seq<char>>
    decreases s.len() - pos,
        when pos >= 0
        via url_matches_from_decreases
{
    if pos >= s.len() {
        Seq::empty()
    } else if match_end_at(s, pos) >= 0 {
        seq![s.subrange(pos, match_end_at(s, pos))] + url_matches_from(s, match_end_at(s, pos))
    } else {
        url_matches_from(s, pos + 1)
    }
}

#[via_fn]
proof fn url_matches_from_decreases(s: Seq<char>, pos: int) {
    if 0 <= pos < s.len() {
        lemma_match_end_bounds(s, pos);
    }
}

/// All URL-shaped substrings of `s`, leftmost first, non-overlapping.
pub open spec fn url_matches(s: Seq<char>) -> Seq<Seq<char>> {
    url_matches_from(s, 0)
}

fn letter_char(c: char) -> (r: bool)
    ensures
        r == is_ascii_letter(c),
{
    ('a' as u32 <= c as u32 && c as u32 <= 'z' as u32) || ('A' as u32 <= c as u32 && c as u32
        <= 'Z' as u32)
}

fn digit_char(c: char) -> (r: bool)
    ensures
        r == is_ascii_digit(c),
{
    '0' as u32 <= c as u32 && c as u32 <= '9' as u32
}

fn host_char(c: char) -> (r: bool)
    ensures
        r == is_host_char(c),
{
    letter_char(c) || digit_char(c) || c == '-' || c == '@' || c == ':' || c == '%' || c == '.' || c
        == '_' || c == '+' || c == '~' || c == '#' || c == '='
}

fn tld_char(c: char) -> (r: bool)
    ensures
        r == is_tld_char(c),
{
    'a' as u32 <= c as u32 && c as u32 <= 'z' as u32
}

fn path_char(c: char) -> (r: bool)
    ensures
        r == is_path_char(c),
{
    letter_char(c) || digit_char(c) || c == '-' || c == '@' || c == ':' || c == '%' || c == '_' || c
        == '+' || c == '.' || c == '~' || c == '#' || c == '?' || c == '&' || c == '/' || c == '='
}

fn word_char(c: char) -> (r: bool)
    ensures
        r == is_word_char(c),
{
    letter_char(c) || digit_char(c) || c == '_'
}

fn scan_host(s: &Vec<char>, i: usize) -> (e: usize)
    requires
        i <= s@.len(),
    ensures
        e as int == i + run_len(s@, i as int, host_pred()),
        i <= e <= s@.len(),
{
    proof {
        lemma_run_len_bounds(s@, i as int, host_pred());
    }
    let mut j = i;
    while j < s.len() && host_char(s[j])
        invariant
            i <= j <= s@.len(),
            run_len(s@, i as int, host_pred()) == (j - i) + run_len(s@, j as int, host_pred()),
        decreases s@.len() - j,
    {
        j = j + 1;
    }
    j
}

fn scan_tld(s: &Vec<char>, i: usize) -> (e: usize)
    requires
        i <= s@.len(),
    ensures
        e as int == i + run_len(s@, i as int, tld_pred()),
        i <= e <= s@.len(),
{
    proof {
        lemma_run_len_bounds(s@, i as int, tld_pred());
    }
    let mut j = i;
    while j < s.len() && tld_char(s[j])
        invariant
            i <= j <= s@.len(),
            run_len(s@, i as int, tld_pred()) == (j - i) + run_len(s@, j as int, tld_pred()),
        decreases s@.len() - j,
    {
        j = j + 1;
    }
    j
}

fn scan_path(s: &Vec<char>, i: usize) -> (e: usize)
    requires
        i <= s@.len(),
    ensures
        e as int == i + run_len(s@, i as int, path_pred()),
        i <= e <= s@.len(),
{
    proof {
        lemma_run_len_bounds(s@, i as int, path_pred());
    }
    let mut j = i;
    while j < s.len() && path_char(s[j])
        invariant
            i <= j <= s@.len(),
            run_len(s@, i as int, path_pred()) == (j - i) + run_len(s@, j as int, path_pred()),
        decreases s@.len() - j,
    {
        j = j + 1;
    }
    j
}

fn tld_at(s: &Vec<char>, p: usize) -> (r: Option<usize>)
    requires
        p <= s@.len(),
    ensures
        (r is None) <==> (tld_end(s@, p as int, 4) == -1),
        (r is Some) ==> r.unwrap() as int == tld_end(s@, p as int, 4),
{
    let slen = s.len();
    let e_run = scan_tld(s, p);
    let run = e_run - p;
    let mut t: usize = 4;
    loop
        invariant
            2 <= t <= 4,
            p <= s@.len(),
            run == run_len(s@, p as int, tld_pred()),
            p + run <= s@.len(),
            slen == s@.len(),
            tld_end(s@, p as int, 4) == tld_end(s@, p as int, t as int),
        decreases t,
    {
        if t <= run {
            let q = p + t;
            if q == slen || !word_char(s[q]) {
                let pe = scan_path(s, q);
                return Some(pe);
            }
        }
        if t == 2 {
            proof {
                assert(tld_end(s@, p as int, 1) == -1);
            }
            return None;
        }
        t = t - 1;
    }
}

fn host_at(s: &Vec<char>, j: usize) -> (r: Option<usize>)
    requires
        j <= s@.len(),
    ensures
        (r is None) <==> (host_end(s@, j as int) == -1),
        (r is Some) ==> r.unwrap() as int == host_end(s@, j as int),
{
    let slen = s.len();
    let e_run = scan_host(s, j);
    let run = e_run - j;
    let mut k: usize = 256;
    loop
        invariant
            2 <= k <= 256,
            j <= s@.len(),
            run == run_len(s@, j as int, host_pred()),
            j + run <= s@.len(),
            slen == s@.len(),
            host_end(s@, j as int) == host_end_from(s@, j as int, k as int),
        decreases k,
    {
        if k <= run && j + k < slen && s[j + k] == '.' {
            match tld_at(s, j + k + 1) {
                Some(e) => {
                    return Some(e);
                },
                None => {
                },
            }
        }
        if k == 2 {
            proof {
                assert(host_end_from(s@, j as int, 1) == -1);
            }
            return None;
        }
        k = k - 1;
    }
}

/// End of the grammar match at `i`, if the grammar matches there.
fn match_at(s: &Vec<char>, i: usize) -> (r: Option<usize>)
    requires
        i <= s@.len(),
    ensures
        (r is None) <==> (match_end_at(s@, i as int) == -1),
        (r is Some) ==> r.unwrap() as int == match_end_at(s@, i as int),
{
    let n = s.len();
    let sl: usize = if n >= 8 && i <= n - 8 && s[i] == 'h' && s[i + 1] == 't' && s[i + 2] == 't'
        && s[i + 3] == 'p' && s[i + 4] == 's' && s[i + 5] == ':' && s[i + 6] == '/' && s[i + 7]
        == '/' {
        8
    } else if n >= 7 && i <= n - 7 && s[i] == 'h' && s[i + 1] == 't' && s[i + 2] == 't' && s[i + 3]
        == 'p' && s[i + 4] == ':' && s[i + 5] == '/' && s[i + 6] == '/' {
        7
    } else {
        0
    };
    assert(sl as int == scheme_len_at(s@, i as int));
    if sl == 0 {
        return None;
    }
    let j = i + sl;
    if n >= 4 && j <= n - 4 && s[j] == 'w' && s[j + 1] == 'w' && s[j + 2] == 'w' && s[j + 3] == '.'
    {
        match host_at(s, j + 4) {
            Some(e) => {
                return Some(e);
            },
            None => {
            },
        }
    }
    host_at(s, j)
}

/// The view of each string of a sequence of strings.
pub open spec fn views_of(v: Seq<String>) -> Seq<Seq<char>> {
    v.map_values(|u: String| u@)
}

/// Collect every URL-shaped substring of `text`, leftmost first, resuming
/// after the end of each match so that matches never overlap.
pub fn find_urls(text: &str) -> (r: Vec<String>)
    ensures
        views_of(r@) == url_matches(text@),
{
    let s = crate::text::chars_vec(text);
    let mut out: Vec<String> = Vec::new();
    let mut pos: usize = 0;
    proof {
        assert(views_of(out@) =~= Seq::<Seq<char>>::empty());
        assert(views_of(out@) + url_matches_from(s@, 0) =~= url_matches(text@));
    }
    while pos < s.len()
        invariant
            s@ == text@,
            pos <= s@.len(),
            url_matches(text@) == views_of(out@) + url_matches_from(s@, pos as int),
        decreases s@.len() - pos,
    {
        let m = match_at(&s, pos);
        match m {
            Some(e) => {
                proof {
                    lemma_match_end_bounds(s@, pos as int);
                }
                let ghost old_out = out@;
                let mut piece: Vec<char> = Vec::new();
                let mut q = pos;
                proof {
                    assert(piece@ =~= s@.subrange(pos as int, pos as int));
                }
                while q < e
                    invariant
                        pos <= q <= e,
                        e <= s@.len(),
                        piece@ == s@.subrange(pos as int, q as int),
                    decreases e - q,
                {
                    piece.push(s[q]);
                    proof {
                        assert(s@.subrange(pos as int, q as int).push(s@[q as int]) =~= s@.subrange(
                            pos as int,
                            q + 1,
                        ));
                    }
                    q = q + 1;
                }
                let st = crate::text::string_from_chars(piece);
                out.push(st);
                proof {
                    assert(views_of(out@) =~= views_of(old_out).push(st@));
                    assert(views_of(out@) + url_matches_from(s@, e as int) =~= views_of(old_out)
                        + url_matches_from(s@, pos as int));
                }
                pos = e;
            },
            None => {
                proof {
                    assert(url_matches_from(s@, pos as int) == url_matches_from(s@, pos + 1));
                }
                pos = pos + 1;
            },
        }
    }
    proof {
        assert(views_of(out@) + url_matches_from(s@, pos as int) =~= views_of(out@));
    }
    out
}

} // verus!
