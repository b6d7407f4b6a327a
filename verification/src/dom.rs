//! The tolerant estimation strategy: a visibility-filtered walk of the
//! whole document.
//!
//! The document is scanned permissively into markup groups and text nodes;
//! parsing never fails, so in the worst case the document simply has no
//! visible text. A stack of open element names stands for the ancestry: a
//! text node's immediate parent is the name on top of the stack when the
//! node is met. A text node is dropped when that parent is a head, style,
//! script or title element, or when its content is exactly empty or exactly
//! one space; every other content, other whitespace-only runs included, is
//! kept as it stands. The kept contents, joined by single spaces in document
//! order, are the visible text of the document.
//!
//! Markup is read case-insensitively: a comment `<!--` runs to the first
//! `-->` (or swallows the rest of the document when none follows); other
//! `<!...>` and `<?...>` groups end at the first `>` and change nothing;
//! `</name>` pops open elements until the topmost element of that name has
//! been popped, and is ignored when no such element is open; `<name ...>`
//! pushes its name unless the group ends in `/>`; a `<` that opens no such
//! group is ordinary text. A text node carries no tag name of its own, so
//! the non-renderable self-tag filter (link elements, inline frames)
//! excludes nothing here.

use crate::text::{ceil_div, word_count};
use crate::urlfind::{is_ascii_digit, is_ascii_letter, lemma_run_len_bounds, lemma_run_len_exact, run_len};
use vstd::prelude::*;

verus! {

pub open spec fn is_tagname_char(c: char) -> bool {
    is_ascii_letter(c) || is_ascii_digit(c)
}

pub open spec fn tagname_pred() -> spec_fn(char) -> bool {
    |c: char| is_tagname_char(c)
}

pub open spec fn not_gt_pred() -> spec_fn(char) -> bool {
    |c: char| c != '>'
}

/// A `<` at `i` opens a markup group when what follows could begin a tag, a
/// closing tag, a comment or doctype, or a processing instruction; any
/// other `<` is ordinary text.
pub open spec fn tag_like(s: Seq<char>, i: int) -> bool {
    0 <= i && i + 1 < s.len() && s[i] == '<' && (is_ascii_letter(s[i + 1]) || s[i + 1] == '/' || s[i
        + 1] == '!' || s[i + 1] == '?')
}

/// Index of the `>` that closes the markup group opened at `i`, or -1 when
/// the group runs to the end of the document unterminated.
pub open spec fn gt_at(s: Seq<char>, i: int) -> int {
    if i + run_len(s, i, not_gt_pred()) < s.len() {
        i + run_len(s, i, not_gt_pred())
    } else {
        -1
    }
}

/// A comment group opens at `i`: `<!--`. It runs to the first `-->`, or
/// swallows the rest of the document when none follows.
pub open spec fn comment_like(s: Seq<char>, i: int) -> bool {
    0 <= i && i + 3 < s.len() && s[i] == '<' && s[i + 1] == '!' && s[i + 2] == '-' && s[i + 3]
        == '-'
}

/// Index of the `>` of the first `-->` at or after `q`, or -1.
pub open spec fn comment_end(s: Seq<char>, q: int) -> int
    decreases s.len() - q,
{
    if q + 3 > s.len() {
        -1
    } else if s[q] == '-' && s[q + 1] == '-' && s[q + 2] == '>' {
        q + 2
    } else {
        comment_end(s, q + 1)
    }
}

pub proof fn lemma_comment_end_bounds(s: Seq<char>, q: int)
    requires
        0 <= q <= s.len(),
    ensures
        comment_end(s, q) == -1 || (q + 2 <= comment_end(s, q) && comment_end(s, q) < s.len()),
    decreases s.len() - q,
{
    if q + 3 <= s.len() && !(s[q] == '-' && s[q + 1] == '-' && s[q + 2] == '>') {
        lemma_comment_end_bounds(s, q + 1);
    }
}

/// End of the text node whose scan stands at `q`: the next markup-opening
/// `<` at or after `q`, or the end of the document.
pub open spec fn text_end(s: Seq<char>, q: int) -> int
    decreases s.len() - q,
{
    if q >= s.len() {
        s.len() as int
    } else if tag_like(s, q) {
        q
    } else {
        text_end(s, q + 1)
    }
}

/// The text scan from `q` ends exactly at `e` when nothing in between
/// opens markup and `e` does, or is the end of the document.
pub proof fn lemma_text_end_value(s: Seq<char>, q: int, e: int)
    requires
        0 <= q <= e <= s.len(),
        forall|m: int| q <= m < e ==> !tag_like(s, m),
        e == s.len() || tag_like(s, e),
    ensures
        text_end(s, q) == e,
    decreases e - q,
{
    if q < e {
        lemma_text_end_value(s, q + 1, e);
    }
}

pub proof fn lemma_text_end_bounds(s: Seq<char>, q: int)
    requires
        0 <= q <= s.len(),
    ensures
        q <= text_end(s, q) <= s.len(),
    decreases s.len() - q,
{
    if q < s.len() && !tag_like(s, q) {
        lemma_text_end_bounds(s, q + 1);
    }
}

/// The two characters are equal, or are the same letter up to ASCII case.
pub open spec fn same_ci(a: char, b: char) -> bool {
    a == b || (is_ascii_letter(a) && is_ascii_letter(b) && (a as u32 + 32 == b as u32 || b as u32
        + 32 == a as u32))
}

/// Case-insensitive equality of tag names.
pub open spec fn eq_ci(a: Seq<char>, b: Seq<char>) -> bool {
    a.len() == b.len() && (forall|i: int| 0 <= i < a.len() ==> same_ci(a[i], b[i]))
}

/// The tag name standing at `i`: the maximal run of letters and digits.
pub open spec fn name_at(s: Seq<char>, i: int) -> Seq<char> {
    s.subrange(i, i + run_len(s, i, tagname_pred()))
}

/// Tag names whose direct text children are never rendered: the head
/// section, style blocks, script blocks and the title element.
pub open spec fn is_invisible_name(n: Seq<char>) -> bool {
    ||| eq_ci(n, seq!['h', 'e', 'a', 'd'])
    ||| eq_ci(n, seq!['s', 't', 'y', 'l', 'e'])
    ||| eq_ci(n, seq!['s', 'c', 'r', 'i', 'p', 't'])
    ||| eq_ci(n, seq!['t', 'i', 't', 'l', 'e'])
}

/// A text node is kept when its parent is not one of the invisible elements
/// and its content is neither exactly empty nor exactly one space. Other
/// whitespace-only contents are deliberately kept: the boundary is exactly
/// these two values.
pub open spec fn keep_text(content: Seq<char>, stack: Seq<Seq<char>>) -> bool {
    &&& (stack.len() == 0 || !is_invisible_name(stack.last()))
    &&& content.len() != 0
    &&& content != seq![' ']
}

/// Effect of a closing tag on the stack of open elements: when some open
/// element bears the name, elements are popped until the topmost such
/// element has been popped; a closing tag that matches nothing is ignored.
pub open spec fn pop_through(stack: Seq<Seq<char>>, name: Seq<char>) -> Seq<Seq<char>>
    decreases stack.len(),
{
    if stack.len() == 0 {
        stack
    } else if eq_ci(stack.last(), name) {
        stack.drop_last()
    } else if exists|q: int| 0 <= q < stack.len() && eq_ci(stack[q], name) {
        pop_through(stack.drop_last(), name)
    } else {
        stack
    }
}

/// Effect of the markup group `[i, g]` on the stack of open elements.
/// Comment, doctype and processing-instruction groups change nothing; a
/// closing tag pops; an opening tag pushes its name unless the group ends
/// in `/>`; a group with an empty name changes nothing.
pub open spec fn stack_after_tag(s: Seq<char>, i: int, g: int, stack: Seq<Seq<char>>) -> Seq<
    Seq<char>,
> {
    let c1 = s[i + 1];
    if c1 == '!' || c1 == '?' {
        stack
    } else if c1 == '/' {
        let name = name_at(s, i + 2);
        if name.len() == 0 {
            stack
        } else {
            pop_through(stack, name)
        }
    } else {
        let name = name_at(s, i + 1);
        if name.len() == 0 {
            stack
        } else if g - 1 > i && s[g - 1] == '/' {
            stack
        } else {
            stack.push(name)
        }
    }
}

/// The contents of the visible text nodes of `s` from `pos` on, given the
/// stack of open element names, in document order.
pub open spec fn visible_nodes(s: Seq<char>, pos: int, stack: Seq<Seq<char>>) -> Seq<Seq<char>>
    decreases s.len() - pos,
        when 0 <= pos
        via visible_nodes_decreases
{
    if pos >= s.len() {
        Seq::empty()
    } else if comment_like(s, pos) {
        let m = comment_end(s, pos + 4);
        if m < 0 {
            Seq::empty()
        } else {
            visible_nodes(s, m + 1, stack)
        }
    } else if tag_like(s, pos) {
        let g = gt_at(s, pos);
        if g < 0 {
            let content = s.subrange(pos, s.len() as int);
            if keep_text(content, stack) {
                seq![content]
            } else {
                Seq::empty()
            }
        } else {
            visible_nodes(s, g + 1, stack_after_tag(s, pos, g, stack))
        }
    } else {
        let e = text_end(s, pos + 1);
        let content = s.subrange(pos, e);
        let rest = visible_nodes(s, e, stack);
        if keep_text(content, stack) {
            seq![content] + rest
        } else {
            rest
        }
    }
}

#[via_fn]
proof fn visible_nodes_decreases(s: Seq<char>, pos: int, stack: Seq<Seq<char>>) {
    if 0 <= pos < s.len() {
        if comment_like(s, pos) {
            lemma_comment_end_bounds(s, pos + 4);
        } else if tag_like(s, pos) {
            lemma_run_len_bounds(s, pos, not_gt_pred());
        } else {
            lemma_text_end_bounds(s, pos + 1);
        }
    }
}

/// Texts joined by single spaces, in order.
pub open spec fn join_space(ts: Seq<Seq<char>>) -> Seq<char>
    decreases ts.len(),
{
    if ts.len() == 0 {
        Seq::empty()
    } else if ts.len() == 1 {
        ts[0]
    } else {
        ts[0] + seq![' '] + join_space(ts.drop_first())
    }
}

/// The visible text of the document: the contents of the kept text nodes,
/// joined by single spaces, in document order.
pub open spec fn visible_text(s: Seq<char>) -> Seq<char> {
    join_space(visible_nodes(s, 0, Seq::empty()))
}

pub proof fn lemma_join_space_push(ts: Seq<Seq<char>>, t: Seq<char>)
    ensures
        join_space(ts.push(t)) == if ts.len() == 0 {
            t
        } else {
            join_space(ts) + seq![' '] + t
        },
    decreases ts.len(),
{
    if ts.len() == 0 {
        assert(ts.push(t)[0] == t);
    } else {
        lemma_join_space_push(ts.drop_first(), t);
        assert(ts.push(t).drop_first() =~= ts.drop_first().push(t));
        assert(ts.push(t)[0] == ts[0]);
        if ts.len() == 1 {
            assert(ts.drop_first().len() == 0);
            assert(join_space(ts.push(t)) == ts[0] + seq![' '] + t);
            assert(join_space(ts) == ts[0]);
        } else {
            assert(join_space(ts.push(t)) == ts[0] + seq![' '] + (join_space(ts.drop_first())
                + seq![' '] + t));
            assert(ts[0] + seq![' '] + (join_space(ts.drop_first()) + seq![' '] + t) =~= (ts[0]
                + seq![' '] + join_space(ts.drop_first())) + seq![' '] + t);
        }
    }
}

proof fn lemma_pop_through_found(st: Seq<Seq<char>>, name: Seq<char>, m: int)
    requires
        0 <= m < st.len(),
        eq_ci(st[m], name),
        forall|q: int| m < q < st.len() ==> !eq_ci(st[q], name),
    ensures
        pop_through(st, name) == st.subrange(0, m),
    decreases st.len(),
{
    if m == st.len() - 1 {
        assert(st.drop_last() =~= st.subrange(0, m));
    } else {
        assert(!eq_ci(st.last(), name));
        assert(exists|q: int| 0 <= q < st.len() && eq_ci(st[q], name)) by {
            assert(eq_ci(st[m], name));
        }
        assert(st.drop_last()[m] == st[m]);
        lemma_pop_through_found(st.drop_last(), name, m);
        assert(st.drop_last().subrange(0, m) =~= st.subrange(0, m));
    }
}

proof fn lemma_pop_through_none(st: Seq<Seq<char>>, name: Seq<char>)
    requires
        forall|q: int| 0 <= q < st.len() ==> !eq_ci(st[q], name),
    ensures
        pop_through(st, name) == st,
{
}

/// The views of a run of name buffers.
pub open spec fn name_views(st: Seq<Vec<char>>) -> Seq<Seq<char>> {
    st.map_values(|v: Vec<char>| v@)
}

fn letter_exec(c: char) -> (r: bool)
    ensures
        r == is_ascii_letter(c),
{
    ('a' as u32 <= c as u32 && c as u32 <= 'z' as u32) || ('A' as u32 <= c as u32 && c as u32
        <= 'Z' as u32)
}

fn tagname_char_exec(c: char) -> (r: bool)
    ensures
        r == is_tagname_char(c),
{
    letter_exec(c) || ('0' as u32 <= c as u32 && c as u32 <= '9' as u32)
}

/// Whether a comment group opens at `q`.
fn comment_open_at(s: &Vec<char>, q: usize) -> (r: bool)
    requires
        q < s@.len(),
    ensures
        r == comment_like(s@, q as int),
{
    if s[q] != '<' {
        return false;
    }
    if s.len() < 4 || q > s.len() - 4 {
        return false;
    }
    s[q + 1] == '!' && s[q + 2] == '-' && s[q + 3] == '-'
}

/// Index of the `>` of the first `-->` at or after `q0`, when there is one.
fn scan_comment_end(s: &Vec<char>, q0: usize) -> (r: Option<usize>)
    requires
        q0 <= s@.len(),
    ensures
        (r is None) <==> comment_end(s@, q0 as int) == -1,
        (r is Some) ==> r.unwrap() as int == comment_end(s@, q0 as int) && r.unwrap() < s@.len(),
{
    let slen = s.len();
    let mut q = q0;
    while slen >= 3 && q <= slen - 3
        invariant
            q0 <= q <= slen,
            slen == s@.len(),
            comment_end(s@, q0 as int) == comment_end(s@, q as int),
        decreases slen - q,
    {
        if s[q] == '-' && s[q + 1] == '-' && s[q + 2] == '>' {
            return Some(q + 2);
        }
        q = q + 1;
    }
    None
}

/// Whether a markup group opens at `q`.
fn tag_open_at(s: &Vec<char>, q: usize) -> (r: bool)
    requires
        q < s@.len(),
    ensures
        r == tag_like(s@, q as int),
{
    if s[q] != '<' {
        return false;
    }
    if q >= s.len() - 1 {
        return false;
    }
    let c = s[q + 1];
    letter_exec(c) || c == '/' || c == '!' || c == '?'
}

/// Index of the `>` closing the markup group at `i`, when there is one.
fn scan_gt(s: &Vec<char>, i: usize) -> (r: Option<usize>)
    requires
        i <= s@.len(),
    ensures
        (r is None) <==> gt_at(s@, i as int) == -1,
        (r is Some) ==> r.unwrap() as int == gt_at(s@, i as int) && i <= r.unwrap() < s@.len(),
{
    proof {
        lemma_run_len_bounds(s@, i as int, not_gt_pred());
    }
    let mut j = i;
    while j < s.len() && s[j] != '>'
        invariant
            i <= j <= s@.len(),
            run_len(s@, i as int, not_gt_pred()) == (j - i) + run_len(s@, j as int, not_gt_pred()),
        decreases s@.len() - j,
    {
        j = j + 1;
    }
    if j < s.len() {
        Some(j)
    } else {
        None
    }
}

/// The tag name standing at `i`, collected into a buffer.
fn scan_name(s: &Vec<char>, i: usize) -> (r: Vec<char>)
    requires
        i <= s@.len(),
    ensures
        r@ == name_at(s@, i as int),
{
    proof {
        lemma_run_len_bounds(s@, i as int, tagname_pred());
    }
    let mut j = i;
    let mut buf: Vec<char> = Vec::new();
    proof {
        assert(buf@ =~= s@.subrange(i as int, i as int));
    }
    while j < s.len() && tagname_char_exec(s[j])
        invariant
            i <= j <= s@.len(),
            buf@ == s@.subrange(i as int, j as int),
            run_len(s@, i as int, tagname_pred()) == (j - i) + run_len(s@, j as int, tagname_pred()),
        decreases s@.len() - j,
    {
        buf.push(s[j]);
        proof {
            assert(s@.subrange(i as int, j as int).push(s@[j as int]) =~= s@.subrange(
                i as int,
                j + 1,
            ));
        }
        j = j + 1;
    }
    buf
}

/// Case-insensitive comparison of two name buffers.
fn eq_ci_vec(a: &Vec<char>, b: &Vec<char>) -> (r: bool)
    ensures
        r == eq_ci(a@, b@),
{
    if a.len() != b.len() {
        return false;
    }
    let mut i: usize = 0;
    while i < a.len()
        invariant
            a@.len() == b@.len(),
            i <= a@.len(),
            forall|q: int| 0 <= q < i ==> same_ci(a@[q], b@[q]),
        decreases a@.len() - i,
    {
        let ca = a[i];
        let cb = b[i];
        let same = ca == cb || (letter_exec(ca) && letter_exec(cb) && (ca as u32 + 32 == cb as u32
            || cb as u32 + 32 == ca as u32));
        if !same {
            return false;
        }
        i = i + 1;
    }
    true
}

/// Whether the name is one of the invisible elements.
fn invisible_tag(name: &Vec<char>) -> (r: bool)
    ensures
        r == is_invisible_name(name@),
{
    let mut head: Vec<char> = Vec::new();
    head.push('h');
    head.push('e');
    head.push('a');
    head.push('d');
    let mut style: Vec<char> = Vec::new();
    style.push('s');
    style.push('t');
    style.push('y');
    style.push('l');
    style.push('e');
    let mut script: Vec<char> = Vec::new();
    script.push('s');
    script.push('c');
    script.push('r');
    script.push('i');
    script.push('p');
    script.push('t');
    let mut title: Vec<char> = Vec::new();
    title.push('t');
    title.push('i');
    title.push('t');
    title.push('l');
    title.push('e');
    proof {
        assert(head@ =~= seq!['h', 'e', 'a', 'd']);
        assert(style@ =~= seq!['s', 't', 'y', 'l', 'e']);
        assert(script@ =~= seq!['s', 'c', 'r', 'i', 'p', 't']);
        assert(title@ =~= seq!['t', 'i', 't', 'l', 'e']);
    }
    eq_ci_vec(name, &head) || eq_ci_vec(name, &style) || eq_ci_vec(name, &script) || eq_ci_vec(
        name,
        &title,
    )
}

/// Apply a closing tag to the stack of open element names.
fn pop_stack(stack: &mut Vec<Vec<char>>, name: &Vec<char>)
    ensures
        name_views(final(stack)@) == pop_through(name_views(old(stack)@), name@),
{
    let ghost st0 = name_views(stack@);
    let mut q = stack.len();
    while q > 0
        invariant
            q <= stack@.len(),
            st0 == name_views(stack@),
            st0 == name_views(old(stack)@),
            forall|m: int| q <= m < stack@.len() ==> !eq_ci(name_views(stack@)[m], name@),
        decreases q,
    {
        if eq_ci_vec(&stack[q - 1], name) {
            proof {
                assert(name_views(stack@)[q - 1] == stack@[q - 1]@);
                lemma_pop_through_found(st0, name@, q - 1);
            }
            stack.truncate(q - 1);
            proof {
                assert(name_views(stack@) =~= st0.subrange(0, q - 1));
            }
            return ;
        }
        proof {
            assert(name_views(stack@)[q - 1] == stack@[q - 1]@);
        }
        q = q - 1;
    }
    proof {
        lemma_pop_through_none(st0, name@);
    }
}

fn collect_range(s: &Vec<char>, a: usize, b: usize) -> (r: Vec<char>)
    requires
        a <= b <= s@.len(),
    ensures
        r@ == s@.subrange(a as int, b as int),
{
    let mut buf: Vec<char> = Vec::new();
    let mut q = a;
    proof {
        assert(buf@ =~= s@.subrange(a as int, a as int));
    }
    while q < b
        invariant
            a <= q <= b <= s@.len(),
            buf@ == s@.subrange(a as int, q as int),
        decreases b - q,
    {
        buf.push(s[q]);
        proof {
            assert(s@.subrange(a as int, q as int).push(s@[q as int]) =~= s@.subrange(
                a as int,
                q + 1,
            ));
        }
        q = q + 1;
    }
    buf
}

/// Append a kept node's content to the joined output, with a single space
/// before it when it is not the first kept node.
fn append_node(out: &mut Vec<char>, content: &Vec<char>, any: bool, Ghost(kept): Ghost<
    Seq<Seq<char>>,
>)
    requires
        old(out)@ == join_space(kept),
        any == (kept.len() > 0),
    ensures
        final(out)@ == join_space(kept.push(content@)),
{
    if any {
        out.push(' ');
    }
    let ghost out_mid = out@;
    let mut t: usize = 0;
    while t < content.len()
        invariant
            t <= content@.len(),
            out@ == out_mid + content@.subrange(0, t as int),
        decreases content@.len() - t,
    {
        out.push(content[t]);
        proof {
            assert(content@.subrange(0, t as int).push(content@[t as int]) =~= content@.subrange(
                0,
                t + 1,
            ));
            assert(out_mid + content@.subrange(0, t + 1) =~= (out_mid + content@.subrange(
                0,
                t as int,
            )).push(content@[t as int]));
        }
        t = t + 1;
    }
    proof {
        assert(content@.subrange(0, content@.len() as int) =~= content@);
        lemma_join_space_push(kept, content@);
        if kept.len() == 0 {
            assert(out_mid =~= Seq::<char>::empty());
            assert(out@ =~= content@);
        } else {
            assert(out_mid =~= join_space(kept) + seq![' ']);
            assert(out@ =~= join_space(kept) + seq![' '] + content@);
        }
    }
}

/// Whether a text node with this content under this stack is kept.
fn keep_node(content: &Vec<char>, stack: &Vec<Vec<char>>) -> (r: bool)
    requires
        content@.len() > 0,
    ensures
        r == keep_text(content@, name_views(stack@)),
{
    let parent_hidden = if stack.len() == 0 {
        false
    } else {
        proof {
            assert(name_views(stack@)[stack@.len() - 1] == stack@[stack@.len() - 1]@);
        }
        invisible_tag(&stack[stack.len() - 1])
    };
    let single_space = content.len() == 1 && content[0] == ' ';
    proof {
        if single_space {
            assert(content@ =~= seq![' ']);
        }
        if content@ == seq![' '] {
            assert(content@.len() == 1 && content@[0] == ' ');
        }
    }
    !parent_hidden && !single_space
}

/// Extract the visible text of an HTML document.
///
/// Parsing is permissive and never fails: a document with no visible text
/// nodes simply yields the empty string.
pub fn extract_visible_text(html: &str) -> (r: String)
    ensures
        r@ == visible_text(html@),
{
    let s = crate::text::chars_vec(html);
    let slen = s.len();
    let mut stack: Vec<Vec<char>> = Vec::new();
    let mut out: Vec<char> = Vec::new();
    let mut any: bool = false;
    let ghost mut kept: Seq<Seq<char>> = Seq::empty();
    let mut pos: usize = 0;
    proof {
        assert(name_views(stack@) =~= Seq::<Seq<char>>::empty());
        assert(kept + visible_nodes(s@, 0, Seq::empty()) =~= visible_nodes(s@, 0, Seq::empty()));
    }
    while pos < slen
        invariant
            s@ == html@,
            slen == s@.len(),
            pos <= slen,
            visible_nodes(s@, 0, Seq::empty()) == kept + visible_nodes(
                s@,
                pos as int,
                name_views(stack@),
            ),
            out@ == join_space(kept),
            any == (kept.len() > 0),
        decreases slen - pos,
    {
        let ghost st_before = name_views(stack@);
        if comment_open_at(&s, pos) {
            match scan_comment_end(&s, pos + 4) {
                Some(m) => {
                    proof {
                        lemma_comment_end_bounds(s@, pos + 4);
                        assert(visible_nodes(s@, pos as int, st_before) == visible_nodes(
                            s@,
                            m + 1,
                            name_views(stack@),
                        ));
                    }
                    pos = m + 1;
                },
                None => {
                    proof {
                        assert(visible_nodes(s@, pos as int, st_before)
                            =~= Seq::<Seq<char>>::empty());
                        assert(kept + visible_nodes(s@, slen as int, name_views(stack@)) =~= kept);
                    }
                    pos = slen;
                },
            }
        } else if tag_open_at(&s, pos) {
            match scan_gt(&s, pos) {
                Some(g) => {
                    let c1 = s[pos + 1];
                    if c1 == '!' || c1 == '?' {
                    } else if c1 == '/' {
                        let name = scan_name(&s, pos + 2);
                        if name.len() > 0 {
                            pop_stack(&mut stack, &name);
                        }
                    } else {
                        let name = scan_name(&s, pos + 1);
                        if name.len() == 0 {
                        } else if g > pos + 1 && s[g - 1] == '/' {
                        } else {
                            let ghost nv = name@;
                            stack.push(name);
                            proof {
                                assert(name_views(stack@) =~= st_before.push(nv));
                            }
                        }
                    }
                    proof {
                        assert(name_views(stack@) == stack_after_tag(
                            s@,
                            pos as int,
                            g as int,
                            st_before,
                        ));
                        assert(visible_nodes(s@, pos as int, st_before) == visible_nodes(
                            s@,
                            g + 1,
                            name_views(stack@),
                        ));
                    }
                    pos = g + 1;
                },
                None => {
                    let content = collect_range(&s, pos, slen);
                    let keep = keep_node(&content, &stack);
                    let ghost kept_before = kept;
                    proof {
                        assert(visible_nodes(s@, pos as int, st_before) == if keep_text(
                            content@,
                            st_before,
                        ) {
                            seq![content@]
                        } else {
                            Seq::<Seq<char>>::empty()
                        });
                    }
                    if keep {
                        append_node(&mut out, &content, any, Ghost(kept));
                        proof {
                            kept = kept.push(content@);
                            assert(kept_before + seq![content@] =~= kept);
                        }
                        any = true;
                    }
                    proof {
                        assert(kept_before + visible_nodes(s@, pos as int, st_before) =~= kept
                            + visible_nodes(s@, slen as int, name_views(stack@)));
                    }
                    pos = slen;
                },
            }
        } else {
            let mut q = pos + 1;
            while q < slen && !tag_open_at(&s, q)
                invariant
                    s@ == html@,
                    slen == s@.len(),
                    pos + 1 <= q <= slen,
                    text_end(s@, pos + 1) == text_end(s@, q as int),
                decreases slen - q,
            {
                q = q + 1;
            }
            let e = q;
            proof {
                assert(text_end(s@, pos + 1) == e as int);
            }
            let content = collect_range(&s, pos, e);
            let keep = keep_node(&content, &stack);
            let ghost rest = visible_nodes(s@, e as int, st_before);
            proof {
                assert(visible_nodes(s@, pos as int, st_before) == if keep_text(
                    content@,
                    st_before,
                ) {
                    seq![content@] + rest
                } else {
                    rest
                });
            }
            let ghost kept_before = kept;
            if keep {
                append_node(&mut out, &content, any, Ghost(kept));
                proof {
                    kept = kept.push(content@);
                    assert(kept_before + (seq![content@] + rest) =~= kept + rest);
                }
                any = true;
            }
            pos = e;
        }
    }
    proof {
        assert(kept + visible_nodes(s@, pos as int, name_views(stack@)) =~= kept);
    }
    crate::text::string_from_chars(out)
}

/// Reading time of the visible text of `html`, in whole minutes: the word
/// count of the visible text divided by `wpm`, rounded up. This strategy
/// never fails; a document with no visible text reads in zero minutes.
pub fn estimate_reading_time(html: &str, wpm: usize) -> (r: usize)
    requires
        wpm >= 1,
    ensures
        r as int == ceil_div(word_count(visible_text(html@)) as int, wpm as int),
{
    let text = extract_visible_text(html);
    let words = crate::text::count_words(text.as_str());
    crate::text::reading_minutes(words, wpm)
}

/// A document whose visible text has exactly `wpm` words reads in exactly
/// one minute, and one with a single word more in exactly two: the minute
/// count is the ceiling of the word count over the rate, never rounded
/// down.
pub proof fn lemma_estimate_ceiling_boundary(html: Seq<char>, wpm: int)
    requires
        wpm >= 1,
    ensures
        word_count(visible_text(html)) == wpm ==> ceil_div(
            word_count(visible_text(html)) as int,
            wpm,
        ) == 1,
        word_count(visible_text(html)) == wpm + 1 ==> ceil_div(
            word_count(visible_text(html)) as int,
            wpm,
        ) == 2,
{
    crate::text::lemma_ceil_div_boundary(word_count(visible_text(html)) as int, wpm);
}

/// With the rate held constant, a document with at least as many visible
/// words as another never reads in fewer minutes.
pub proof fn lemma_estimate_monotonic(html1: Seq<char>, html2: Seq<char>, wpm: int)
    requires
        wpm >= 1,
        word_count(visible_text(html1)) <= word_count(visible_text(html2)),
    ensures
        ceil_div(word_count(visible_text(html1)) as int, wpm) <= ceil_div(
            word_count(visible_text(html2)) as int,
            wpm,
        ),
{
    crate::text::lemma_minutes_monotonic(
        word_count(visible_text(html1)) as int,
        word_count(visible_text(html2)) as int,
        wpm,
    );
}

/// A document that is exactly one script block around text free of `<` has
/// no visible text at all: its word count is zero and its reading time is
/// zero minutes at every rate.
pub proof fn lemma_script_only_document(t: Seq<char>, wpm: int)
    requires
        forall|i: int| 0 <= i < t.len() ==> t[i] != '<',
        wpm >= 1,
    ensures
        word_count(
            visible_text(
                seq!['<', 's', 'c', 'r', 'i', 'p', 't', '>'] + t + seq![
                    '<',
                    '/',
                    's',
                    'c',
                    'r',
                    'i',
                    'p',
                    't',
                    '>',
                ],
            ),
        ) == 0,
        ceil_div(0, wpm) == 0,
{
    let a = seq!['<', 's', 'c', 'r', 'i', 'p', 't', '>'];
    let b = seq!['<', '/', 's', 'c', 'r', 'i', 'p', 't', '>'];
    let s = a + t + b;
    let n = t.len() as int;
    let script = seq!['s', 'c', 'r', 'i', 'p', 't'];
    assert(s.len() == n + 17);
    assert(forall|q: int| 0 <= q < 8 ==> s[q] == a[q]);
    assert(forall|q: int| 8 <= q < 8 + n ==> s[q] == t[q - 8]);
    assert(forall|q: int| 8 + n <= q < 17 + n ==> s[q] == b[q - 8 - n]);
    // the opening tag group spans [0, 7]
    assert(tag_like(s, 0));
    lemma_run_len_exact(s, 0, 7, not_gt_pred());
    assert(gt_at(s, 0) == 7);
    lemma_run_len_exact(s, 1, 7, tagname_pred());
    assert(name_at(s, 1) =~= script);
    let st1 = stack_after_tag(s, 0, 7, Seq::<Seq<char>>::empty());
    assert(st1 =~= seq![script]);
    assert(visible_nodes(s, 0, Seq::<Seq<char>>::empty()) == visible_nodes(s, 8, st1));
    // the script text, when there is any, is a dropped text node
    assert(eq_ci(script, script));
    assert(is_invisible_name(script));
    if n > 0 {
        assert(!tag_like(s, 8));
        assert(tag_like(s, 8 + n));
        lemma_text_end_value(s, 9, 8 + n);
        assert(!keep_text(s.subrange(8, 8 + n), st1));
        assert(visible_nodes(s, 8, st1) == visible_nodes(s, 8 + n, st1));
    }
    // the closing tag group spans [8 + n, 16 + n] and pops the element
    assert(tag_like(s, 8 + n));
    lemma_run_len_exact(s, 8 + n, 16 + n, not_gt_pred());
    assert(gt_at(s, 8 + n) == 16 + n);
    lemma_run_len_exact(s, 10 + n, 16 + n, tagname_pred());
    assert(name_at(s, 10 + n) =~= script);
    assert(pop_through(st1, script) =~= Seq::<Seq<char>>::empty());
    assert(stack_after_tag(s, 8 + n, 16 + n, st1) =~= Seq::<Seq<char>>::empty());
    assert(visible_nodes(s, 8 + n, st1) == visible_nodes(
        s,
        17 + n,
        Seq::<Seq<char>>::empty(),
    ));
    assert(visible_nodes(s, 17 + n, Seq::<Seq<char>>::empty()) == Seq::<Seq<char>>::empty());
    assert(visible_text(s) == join_space(Seq::<Seq<char>>::empty()));
    assert(word_count(visible_text(s)) == 0);
    crate::text::lemma_ceil_div_boundary(0, wpm);
    vstd::arithmetic::div_mod::lemma_basic_div(wpm - 1, wpm);
}

} // verus!
