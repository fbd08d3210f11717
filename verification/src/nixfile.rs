//! Minimal helpers on Nix text.
//!
//! This is not a Nix parser. Two narrow things are done here: a `[ ... ]` list or a `{ ... }`
//! set behind some marker text is found, read and replaced; and the outcome of a syntax check
//! by a real Nix tool is judged. A file with anything more exotic is not understood, and what
//! is not understood is not touched.

use vstd::prelude::*;
use vstd::utf8::{encode_scalar, encode_utf8};

use crate::error::{ErrorView, NixlayerError};
use crate::text::{
    alnum, alpha, chars_of, count_until, is_alnum, is_alpha, join, joined, lemma_until,
    lemma_views_push, lines, lines_of, slice, split, trim, trimmed, until, views, words, words_of,
};
use crate::tools::{call, CallView, ToolCall, ToolOutput};

verus! {

// ---------------------------------------------------------------------------
// Blocks between brackets
// ---------------------------------------------------------------------------

/// The position at which `depth` brackets that are open before `i` have all been closed.
pub open spec fn close_from(s: Seq<char>, open: char, close: char, i: int, depth: int) -> Option<int>
    decreases s.len() - i,
{
    if i < 0 || i >= s.len() {
        None
    } else if s[i] == open {
        close_from(s, open, close, i + 1, depth + 1)
    } else if s[i] == close {
        if depth <= 1 {
            Some(i)
        } else {
            close_from(s, open, close, i + 1, depth - 1)
        }
    } else {
        close_from(s, open, close, i + 1, depth)
    }
}

/// The first position, `from` or later, that holds `c`; the length of `s` where none does.
pub open spec fn char_from(s: Seq<char>, c: char, from: int) -> int {
    from + until(s.skip(from), c)
}

/// The positions of the first `open` at `from` or later and of the `close` that matches it.
pub open spec fn block(s: Seq<char>, open: char, close: char, from: int) -> Option<(int, int)> {
    let p = char_from(s, open, from);
    if p >= s.len() {
        None
    } else {
        match close_from(s, open, close, p + 1, 1) {
            Some(q) => Some((p, q)),
            None => None,
        }
    }
}

pub proof fn lemma_close_from(s: Seq<char>, open: char, close: char, i: int, depth: int)
    ensures
        close_from(s, open, close, i, depth) matches Some(q) ==> i <= q < s.len() && s[q] == close,
    decreases s.len() - i,
{
    if 0 <= i < s.len() {
        if s[i] == open {
            lemma_close_from(s, open, close, i + 1, depth + 1);
        } else if s[i] == close {
            if depth > 1 {
                lemma_close_from(s, open, close, i + 1, depth - 1);
            }
        } else {
            lemma_close_from(s, open, close, i + 1, depth);
        }
    }
}

pub proof fn lemma_char_from(s: Seq<char>, c: char, from: int)
    requires
        0 <= from <= s.len(),
    ensures
        from <= char_from(s, c, from) <= s.len(),
        forall|j: int| from <= j < char_from(s, c, from) ==> s[j] != c,
        char_from(s, c, from) < s.len() ==> s[char_from(s, c, from)] == c,
{
    let t = s.skip(from);
    lemma_until(t, c);
    assert forall|j: int| from <= j < char_from(s, c, from) implies s[j] != c by {
        assert(s[j] == t[j - from]);
    }
}

pub proof fn lemma_char_from_is(s: Seq<char>, c: char, from: int, p: int)
    requires
        0 <= from <= p < s.len(),
        s[p] == c,
        forall|j: int| from <= j < p ==> s[j] != c,
    ensures
        char_from(s, c, from) == p,
{
    lemma_char_from(s, c, from);
}

pub proof fn lemma_block(s: Seq<char>, open: char, close: char, from: int)
    requires
        0 <= from <= s.len(),
    ensures
        block(s, open, close, from) matches Some(b) ==> from <= b.0 < b.1 < s.len() && s[b.0] == open
            && s[b.1] == close && b.0 == char_from(s, open, from),
{
    lemma_char_from(s, open, from);
    lemma_close_from(s, open, close, char_from(s, open, from) + 1, 1);
}

/// The positions of the first `open` at `from` or later and of the `close` that matches it.
pub fn find_block(cs: &Vec<char>, open: char, close: char, from: usize) -> (r: Option<(usize, usize)>)
    requires
        from <= cs@.len(),
    ensures
        match r {
            Some(b) => block(cs@, open, close, from as int) == Some((b.0 as int, b.1 as int)) && from
                <= b.0 < b.1 < cs@.len(),
            None => block(cs@, open, close, from as int) is None,
        },
{
    let n: usize = cs.len();
    let p: usize = count_until(cs, from, open);
    if p == n {
        return None;
    }
    let mut i: usize = p + 1;
    let mut depth: usize = 1;
    while i < n
        invariant
            n == cs@.len(),
            p < i <= n,
            1 <= depth <= i,
            close_from(cs@, open, close, p + 1, 1) == close_from(
                cs@,
                open,
                close,
                i as int,
                depth as int,
            ),
            p == char_from(cs@, open, from as int),
            from <= p,
        decreases n - i,
    {
        if cs[i] == open {
            depth = depth + 1;
        } else if cs[i] == close {
            if depth == 1 {
                return Some((p, i));
            }
            depth = depth - 1;
        }
        i = i + 1;
    }
    None
}

// ---------------------------------------------------------------------------
// Byte offsets
// ---------------------------------------------------------------------------

/// The length in bytes of a text in UTF-8.
pub open spec fn byte_len(s: Seq<char>) -> nat {
    encode_utf8(s).len()
}

/// `b` is the byte offset of a character of `s`, or of its end.
pub open spec fn is_boundary(s: Seq<char>, b: int) -> bool {
    exists|i: int| 0 <= i <= s.len() && byte_len(#[trigger] s.take(i)) == b
}

/// How many characters of `s` stand before the byte offset `b`.
pub open spec fn chars_before(s: Seq<char>, b: int) -> int {
    choose|i: int| 0 <= i <= s.len() && byte_len(#[trigger] s.take(i)) == b
}

proof fn lemma_encode_concat(a: Seq<char>, b: Seq<char>)
    ensures
        encode_utf8(a + b) == encode_utf8(a) + encode_utf8(b),
    decreases a.len(),
{
    if a.len() == 0 {
        assert(a + b =~= b);
        assert(encode_utf8(a) + encode_utf8(b) =~= encode_utf8(b));
    } else {
        assert((a + b).drop_first() =~= a.drop_first() + b);
        lemma_encode_concat(a.drop_first(), b);
        assert(encode_utf8(a + b) =~= encode_utf8(a) + encode_utf8(b));
    }
}

proof fn lemma_byte_len_step(s: Seq<char>, i: int)
    requires
        0 <= i < s.len(),
    ensures
        byte_len(s.take(i + 1)) == byte_len(s.take(i)) + encode_scalar(s[i] as u32).len(),
        1 <= encode_scalar(s[i] as u32).len() <= 4,
{
    vstd::utf8::char_is_scalar(s[i]);
    assert(s.take(i + 1) =~= s.take(i) + seq![s[i]]);
    lemma_encode_concat(s.take(i), seq![s[i]]);
    let one = seq![s[i]];
    assert(one.drop_first() =~= Seq::<char>::empty());
    assert(encode_utf8(one.drop_first()) =~= Seq::<u8>::empty());
    assert(encode_utf8(one) =~= encode_scalar(s[i] as u32));
}

proof fn lemma_byte_len_grows(s: Seq<char>, i: int, j: int)
    requires
        0 <= i < j <= s.len(),
    ensures
        byte_len(s.take(i)) < byte_len(s.take(j)),
    decreases j - i,
{
    lemma_byte_len_step(s, j - 1);
    if i < j - 1 {
        lemma_byte_len_grows(s, i, j - 1);
    }
}

/// A character position is found again from its byte offset.
pub proof fn lemma_chars_before(s: Seq<char>, i: int)
    requires
        0 <= i <= s.len(),
    ensures
        is_boundary(s, byte_len(s.take(i)) as int),
        chars_before(s, byte_len(s.take(i)) as int) == i,
{
    let b = byte_len(s.take(i)) as int;
    let j = chars_before(s, b);
    assert(0 <= j <= s.len() && byte_len(s.take(j)) == b);
    if i < j {
        lemma_byte_len_grows(s, i, j);
    }
    if j < i {
        lemma_byte_len_grows(s, j, i);
    }
}

/// How many bytes a character takes in UTF-8.
fn width(c: char) -> (r: usize)
    ensures
        r == encode_scalar(c as u32).len(),
{
    proof {
        vstd::utf8::char_is_scalar(c);
    }
    let v: u32 = c as u32;
    if v <= 0x7f {
        1
    } else if v <= 0x7ff {
        2
    } else if v <= 0xffff {
        3
    } else {
        4
    }
}

/// The byte offset of the character at position `i`.
fn byte_index(text: &str, cs: &Vec<char>, i: usize) -> (r: usize)
    requires
        cs@ == text@,
        i <= cs@.len(),
    ensures
        r == byte_len(text@.take(i as int)),
{
    let total: usize = text.as_bytes().len();
    let mut off: usize = 0;
    assert(text@.take(text@.len() as int) =~= text@);
    assert(text@.take(0) =~= Seq::<char>::empty());
    for k in 0..i
        invariant
            cs@ == text@,
            i <= cs@.len(),
            total == byte_len(text@),
            text@.take(text@.len() as int) == text@,
            off == byte_len(text@.take(k as int)),
    {
        proof {
            lemma_byte_len_step(text@, k as int);
            if k + 1 < text@.len() {
                lemma_byte_len_grows(text@, k + 1, text@.len() as int);
            }
        }
        off = off + width(cs[k]);
    }
    off
}

/// The position of the character at byte offset `b`.
fn char_index(cs: &Vec<char>, b: usize) -> (r: usize)
    requires
        is_boundary(cs@, b as int),
    ensures
        r <= cs@.len(),
        r == chars_before(cs@, b as int),
        byte_len(cs@.take(r as int)) == b,
{
    let ghost k = chars_before(cs@, b as int);
    let n: usize = cs.len();
    let mut off: usize = 0;
    let mut i: usize = 0;
    assert(cs@.take(0) =~= Seq::<char>::empty());
    while off < b
        invariant
            0 <= i <= k <= cs@.len(),
            n == cs@.len(),
            byte_len(cs@.take(k)) == b,
            off == byte_len(cs@.take(i as int)),
            off <= b,
        decreases k - i,
    {
        assert(i < k);
        proof {
            lemma_byte_len_step(cs@, i as int);
            if i + 1 < k {
                lemma_byte_len_grows(cs@, i + 1, k);
            }
        }
        off = off + width(cs[i]);
        i = i + 1;
    }
    proof {
        if i < k {
            lemma_byte_len_grows(cs@, i as int, k);
        }
    }
    i
}

/// A `[...]` block found in a larger text, with the byte offsets of its two brackets and the
/// text between them.
pub struct BracketBlock {
    pub open_idx: usize,
    pub close_idx: usize,
    pub inner: String,
}

/// `b` describes the block of `s` between the character positions of `span`.
pub open spec fn describes(b: BracketBlock, s: Seq<char>, span: (int, int)) -> bool {
    &&& b.open_idx == byte_len(s.take(span.0))
    &&& b.close_idx == byte_len(s.take(span.1))
    &&& b.inner@ == s.subrange(span.0 + 1, span.1)
}

/// The first block between `open` and `close` at the byte offset `search_from` or behind it.
fn find_block_at(text: &str, search_from: usize, open: char, close: char) -> (r: Option<BracketBlock>)
    requires
        is_boundary(text@, search_from as int),
    ensures
        match r {
            Some(b) => block(text@, open, close, chars_before(text@, search_from as int)) is Some
                && describes(
                b,
                text@,
                block(text@, open, close, chars_before(text@, search_from as int))->0,
            ),
            None => block(text@, open, close, chars_before(text@, search_from as int)) is None,
        },
{
    let cs: Vec<char> = chars_of(text);
    let from: usize = char_index(&cs, search_from);
    match find_block(&cs, open, close, from) {
        Some((p, q)) => Some(
            BracketBlock {
                open_idx: byte_index(text, &cs, p),
                close_idx: byte_index(text, &cs, q),
                inner: slice(&cs, p + 1, q),
            },
        ),
        None => None,
    }
}

/// Starting at the byte offset `search_from`, find the first `[` and the `]` that matches it.
/// Nested lists are skipped over.
pub fn find_bracket_block(text: &str, search_from: usize) -> (r: Option<BracketBlock>)
    requires
        is_boundary(text@, search_from as int),
    ensures
        match r {
            Some(b) => block(text@, '[', ']', chars_before(text@, search_from as int)) is Some
                && describes(
                b,
                text@,
                block(text@, '[', ']', chars_before(text@, search_from as int))->0,
            ),
            None => block(text@, '[', ']', chars_before(text@, search_from as int)) is None,
        },
{
    find_block_at(text, search_from, '[', ']')
}

/// Starting at the byte offset `search_from`, find the first `{` and the `}` that matches it.
/// Nested sets are skipped over.
pub fn find_brace_block(text: &str, search_from: usize) -> (r: Option<BracketBlock>)
    requires
        is_boundary(text@, search_from as int),
    ensures
        match r {
            Some(b) => block(text@, '{', '}', chars_before(text@, search_from as int)) is Some
                && describes(
                b,
                text@,
                block(text@, '{', '}', chars_before(text@, search_from as int))->0,
            ),
            None => block(text@, '{', '}', chars_before(text@, search_from as int)) is None,
        },
{
    find_block_at(text, search_from, '{', '}')
}

/// Replace the contents of a block of `text`, and keep everything else as it is.
pub fn replace_bracket_inner(text: &str, block: &BracketBlock, new_inner: &str) -> (r: String)
    requires
        is_boundary(text@, block.open_idx + 1),
        is_boundary(text@, block.close_idx as int),
    ensures
        r@ == text@.take(chars_before(text@, block.open_idx + 1)) + new_inner@ + text@.skip(
            chars_before(text@, block.close_idx as int),
        ),
{
    let cs: Vec<char> = chars_of(text);
    let total: usize = text.as_bytes().len();
    proof {
        let k = chars_before(text@, block.open_idx + 1);
        assert(text@.take(text@.len() as int) =~= text@);
        if k < text@.len() {
            lemma_byte_len_grows(text@, k, text@.len() as int);
        }
        assert(block.open_idx + 1 <= total);
    }
    let a: usize = char_index(&cs, block.open_idx + 1);
    let b: usize = char_index(&cs, block.close_idx);
    let mut out: String = slice(&cs, 0, a);
    out.append(new_inner);
    out.append(&slice(&cs, b, cs.len()));
    assert(text@.subrange(0, a as int) =~= text@.take(a as int));
    assert(text@.subrange(b as int, text@.len() as int) =~= text@.skip(b as int));
    out
}

/// A block that was found can be replaced: its offsets are character boundaries, and they lead
/// back to the brackets.
pub proof fn found_blocks_can_be_replaced(s: Seq<char>, open: char, close: char, from: int, b: BracketBlock)
    requires
        0 <= from <= s.len(),
        open as u32 <= 0x7f,
        block(s, open, close, from) is Some,
        describes(b, s, block(s, open, close, from)->0),
    ensures
        is_boundary(s, b.open_idx + 1),
        is_boundary(s, b.close_idx as int),
        chars_before(s, b.open_idx + 1) == (block(s, open, close, from)->0).0 + 1,
        chars_before(s, b.close_idx as int) == (block(s, open, close, from)->0).1,
{
    let span = block(s, open, close, from)->0;
    lemma_block(s, open, close, from);
    lemma_byte_len_step(s, span.0);
    lemma_chars_before(s, span.0 + 1);
    lemma_chars_before(s, span.1);
}

// ---------------------------------------------------------------------------
// Package lists
// ---------------------------------------------------------------------------

/// A character that may start a segment of an attribute path.
pub open spec fn starts_segment(c: char) -> bool {
    is_alpha(c) || c == '_'
}

/// A character that may stand in a segment of an attribute path.
pub open spec fn in_segment(c: char) -> bool {
    is_alnum(c) || c == '_' || c == '\'' || c == '-'
}

/// A segment of an attribute path: a letter or `_`, then letters, digits, `_`, `'` and `-`.
pub open spec fn is_segment(s: Seq<char>) -> bool {
    &&& s.len() > 0
    &&& starts_segment(s[0])
    &&& forall|i: int| 1 <= i < s.len() ==> in_segment(#[trigger] s[i])
}

/// A plain attribute path, such as `firefox` or `nodePackages.typescript`: segments with dots
/// between them.
pub open spec fn simple_attr_path(s: Seq<char>) -> bool {
    forall|i: int| 0 <= i < split(s, '.').len() ==> is_segment(#[trigger] split(s, '.')[i])
}

/// Whether the characters from `a` up to `b` are a segment.
fn segment(cs: &Vec<char>, a: usize, b: usize) -> (r: bool)
    requires
        a <= b <= cs@.len(),
    ensures
        r == is_segment(cs@.subrange(a as int, b as int)),
{
    let ghost s = cs@.subrange(a as int, b as int);
    if a == b {
        return false;
    }
    assert(s[0] == cs@[a as int]);
    if !(alpha(cs[a]) || cs[a] == '_') {
        return false;
    }
    let mut i: usize = a + 1;
    while i < b
        invariant
            a < i <= b <= cs@.len(),
            s == cs@.subrange(a as int, b as int),
            forall|j: int| 1 <= j < i - a ==> in_segment(#[trigger] s[j]),
        decreases b - i,
    {
        let c: char = cs[i];
        assert(s[i - a] == c);
        if !(alnum(c) || c == '_' || c == '\'' || c == '-') {
            return false;
        }
        i = i + 1;
    }
    true
}

/// Whether a token may stand in a managed package list. Anything else is a sign that the file
/// has contents of its own that must not be touched.
pub fn is_simple_attr_path(tok: &str) -> (r: bool)
    ensures
        r == simple_attr_path(tok@),
{
    let cs: Vec<char> = chars_of(tok);
    let mut a: usize = 0;
    let ghost mut done: int = 0;
    assert(cs@.skip(0) =~= cs@);
    loop
        invariant
            a <= cs@.len(),
            cs@ == tok@,
            0 <= done <= split(tok@, '.').len(),
            split(cs@.skip(a as int), '.') == split(tok@, '.').skip(done),
            forall|i: int| 0 <= i < done ==> is_segment(#[trigger] split(tok@, '.')[i]),
        decreases cs@.len() - a,
    {
        let ghost rest = cs@.skip(a as int);
        let ghost all = split(tok@, '.');
        let b: usize = count_until(&cs, a, '.');
        proof {
            lemma_until(rest, '.');
            assert(rest.take(b - a) =~= cs@.subrange(a as int, b as int));
            assert(split(rest, '.').len() > 0);
            assert(split(rest, '.')[0] == cs@.subrange(a as int, b as int)) by {
                if b == cs@.len() {
                    assert(rest =~= cs@.subrange(a as int, b as int));
                }
            }
            assert(all[done] == all.skip(done)[0]);
        }
        if !segment(&cs, a, b) {
            return false;
        }
        if b == cs.len() {
            proof {
                assert(split(rest, '.').len() == 1);
                assert(all.len() == done + 1);
            }
            return true;
        }
        proof {
            assert(rest.skip(b - a + 1) =~= cs@.skip(b + 1));
            assert(split(rest, '.').skip(1) =~= split(cs@.skip(b + 1), '.'));
            assert(all.skip(done).skip(1) =~= all.skip(done + 1));
            done = done + 1;
        }
        a = b + 1;
    }
}

/// A line up to its `#`, where it has one.
pub open spec fn before_comment(line: Seq<char>) -> Seq<char> {
    line.take(until(line, '#') as int)
}

/// A token without the commas at its end.
pub open spec fn strip_commas(tok: Seq<char>) -> Seq<char>
    decreases tok.len(),
{
    if tok.len() > 0 && tok.last() == ',' {
        strip_commas(tok.drop_last())
    } else {
        tok
    }
}

/// The tokens among `raw`: each without the commas at its end, and none empty.
pub open spec fn clean(raw: Seq<Seq<char>>) -> Seq<Seq<char>>
    decreases raw.len(),
{
    if raw.len() == 0 {
        Seq::empty()
    } else {
        let tok = strip_commas(raw.last());
        if tok.len() == 0 {
            clean(raw.drop_last())
        } else {
            clean(raw.drop_last()).push(tok)
        }
    }
}

/// The tokens of some lines of a package list.
pub open spec fn line_tokens(ls: Seq<Seq<char>>) -> Seq<Seq<char>>
    decreases ls.len(),
{
    if ls.len() == 0 {
        Seq::empty()
    } else {
        line_tokens(ls.drop_last()) + clean(words(before_comment(ls.last())))
    }
}

/// The tokens of a package list: what stands between white space outside of comments.
pub open spec fn tokens(inner: Seq<char>) -> Seq<Seq<char>> {
    line_tokens(lines(inner))
}

/// The tokens that are plain attribute paths, or those that are not.
pub open spec fn chosen(toks: Seq<Seq<char>>, simple: bool) -> Seq<Seq<char>>
    decreases toks.len(),
{
    if toks.len() == 0 {
        Seq::empty()
    } else if simple_attr_path(toks.last()) == simple {
        chosen(toks.drop_last(), simple).push(toks.last())
    } else {
        chosen(toks.drop_last(), simple)
    }
}

/// What reading a package list gives: its tokens, or the tokens that are no plain attribute
/// paths.
pub open spec fn read_list(inner: Seq<char>) -> Result<Seq<Seq<char>>, ErrorView> {
    let bad = chosen(tokens(inner), false);
    if bad.len() > 0 {
        Err(ErrorView::Other(join(bad, ", "@)))
    } else {
        Ok(tokens(inner))
    }
}

proof fn lemma_chosen_all(toks: Seq<Seq<char>>)
    ensures
        chosen(toks, false).len() == 0 ==> chosen(toks, true) == toks,
        chosen(toks, false).len() == 0 <==> forall|i: int|
            0 <= i < toks.len() ==> simple_attr_path(#[trigger] toks[i]),
    decreases toks.len(),
{
    if toks.len() > 0 {
        let t = toks.drop_last();
        lemma_chosen_all(t);
        if chosen(toks, false).len() == 0 {
            assert(chosen(toks, true) =~= toks);
            assert forall|i: int| 0 <= i < toks.len() implies simple_attr_path(#[trigger] toks[i]) by {
                if i < t.len() {
                    assert(t[i] == toks[i]);
                }
            }
        } else if forall|i: int| 0 <= i < toks.len() ==> simple_attr_path(#[trigger] toks[i]) {
            assert(simple_attr_path(toks[toks.len() - 1]));
            assert forall|i: int| 0 <= i < t.len() implies simple_attr_path(#[trigger] t[i]) by {
                assert(t[i] == toks[i]);
            }
        }
    } else {
        assert(chosen(toks, true) =~= toks);
    }
}

/// A list is read exactly where every token of it is a plain attribute path, and then all of its
/// tokens are handed out, in order.
pub proof fn read_list_accepts_exactly_plain_lists(inner: Seq<char>)
    ensures
        read_list(inner) is Ok <==> forall|i: int|
            0 <= i < tokens(inner).len() ==> simple_attr_path(#[trigger] tokens(inner)[i]),
        read_list(inner) is Ok ==> read_list(inner) == Ok::<Seq<Seq<char>>, ErrorView>(tokens(inner)),
{
    lemma_chosen_all(tokens(inner));
}

fn without_comment(line: &str) -> (r: String)
    ensures
        r@ == before_comment(line@),
{
    let cs: Vec<char> = chars_of(line);
    let k: usize = count_until(&cs, 0, '#');
    assert(cs@.skip(0) =~= cs@);
    assert(cs@.subrange(0, k as int) =~= cs@.take(k as int));
    slice(&cs, 0, k)
}

fn without_commas(tok: &str) -> (r: String)
    ensures
        r@ == strip_commas(tok@),
{
    let cs: Vec<char> = chars_of(tok);
    let mut b: usize = cs.len();
    assert(cs@.subrange(0, cs@.len() as int) =~= cs@);
    while b > 0 && cs[b - 1] == ','
        invariant
            b <= cs@.len(),
            strip_commas(cs@) == strip_commas(cs@.subrange(0, b as int)),
        decreases b,
    {
        assert(cs@.subrange(0, b as int).drop_last() =~= cs@.subrange(0, b - 1));
        b = b - 1;
    }
    slice(&cs, 0, b)
}

proof fn lemma_chosen_push(toks: Seq<Seq<char>>, t: Seq<char>, simple: bool)
    ensures
        chosen(toks.push(t), simple) == if simple_attr_path(t) == simple {
            chosen(toks, simple).push(t)
        } else {
            chosen(toks, simple)
        },
{
    assert(toks.push(t).drop_last() =~= toks);
}

/// The tokens of a package list. Where one of them is no plain attribute path, the error names
/// all such tokens.
pub fn tokenize_package_list(inner: &str) -> (r: Result<Vec<String>, NixlayerError>)
    ensures
        match r {
            Ok(toks) => read_list(inner@) == Ok::<Seq<Seq<char>>, ErrorView>(views(toks@)),
            Err(e) => read_list(inner@) == Err::<Seq<Seq<char>>, ErrorView>(e@),
        },
{
    let ls: Vec<String> = lines_of(inner);
    let mut good: Vec<String> = Vec::new();
    let mut bad: Vec<String> = Vec::new();
    let ghost w = views(ls@);
    assert(views(good@) =~= chosen(line_tokens(w.take(0)), true));
    assert(views(bad@) =~= chosen(line_tokens(w.take(0)), false));
    for i in 0..ls.len()
        invariant
            w == views(ls@),
            w == lines(inner@),
            views(good@) == chosen(line_tokens(w.take(i as int)), true),
            views(bad@) == chosen(line_tokens(w.take(i as int)), false),
    {
        let ws: Vec<String> = words_of(&without_comment(&ls[i]));
        let ghost before = line_tokens(w.take(i as int));
        let ghost u = views(ws@);
        assert(clean(u.take(0)) =~= Seq::<Seq<char>>::empty());
        assert(before + clean(u.take(0)) =~= before);
        for k in 0..ws.len()
            invariant
                u == views(ws@),
                views(good@) == chosen(before + clean(u.take(k as int)), true),
                views(bad@) == chosen(before + clean(u.take(k as int)), false),
        {
            let tok: String = without_commas(&ws[k]);
            proof {
                assert(u.take(k + 1).drop_last() =~= u.take(k as int));
                assert(u.take(k + 1).last() == ws@[k as int]@);
                let c = clean(u.take(k as int));
                assert(before + c.push(tok@) =~= (before + c).push(tok@));
                lemma_chosen_push(before + c, tok@, true);
                lemma_chosen_push(before + c, tok@, false);
            }
            if !tok.as_str().is_empty() {
                if is_simple_attr_path(&tok) {
                    proof {
                        lemma_views_push(good@, tok);
                    }
                    good.push(tok);
                } else {
                    proof {
                        lemma_views_push(bad@, tok);
                    }
                    bad.push(tok);
                }
            }
        }
        proof {
            assert(u.take(u.len() as int) =~= u);
            assert(w.take(i + 1).drop_last() =~= w.take(i as int));
            assert(w.take(i + 1).last() == ls@[i as int]@);
        }
    }
    proof {
        assert(w.take(w.len() as int) =~= w);
        lemma_chosen_all(tokens(inner@));
    }
    if bad.len() > 0 {
        return Err(NixlayerError::Other(joined(&bad, ", ")));
    }
    Ok(good)
}

// ---------------------------------------------------------------------------
// Syntax
// ---------------------------------------------------------------------------

/// What Nix itself says of the syntax of a file.
#[derive(Debug)]
pub enum SyntaxCheck {
    Valid,
    /// The text is what Nix said.
    Invalid(String),
    /// No tool that could tell was found.
    Skipped,
}

/// A [`SyntaxCheck`] with its text as a character sequence.
pub enum CheckView {
    Valid,
    Invalid(Seq<char>),
    Skipped,
}

impl View for SyntaxCheck {
    type V = CheckView;

    open spec fn view(&self) -> CheckView {
        match *self {
            SyntaxCheck::Valid => CheckView::Valid,
            SyntaxCheck::Invalid(m) => CheckView::Invalid(m@),
            SyntaxCheck::Skipped => CheckView::Skipped,
        }
    }
}

/// The next thing to do in checking the syntax of a file.
#[derive(Debug)]
pub enum SyntaxStep {
    /// Run this, where the program can be found.
    Run(ToolCall),
    Finished(SyntaxCheck),
}

/// A [`SyntaxStep`] with its texts as character sequences.
pub enum SyntaxStepView {
    Run(CallView),
    Finished(CheckView),
}

impl View for SyntaxStep {
    type V = SyntaxStepView;

    open spec fn view(&self) -> SyntaxStepView {
        match *self {
            SyntaxStep::Run(c) => SyntaxStepView::Run(c@),
            SyntaxStep::Finished(c) => SyntaxStepView::Finished(c@),
        }
    }
}

/// What a parser said of a file.
pub open spec fn verdict(out: ToolOutput) -> CheckView {
    if out.success {
        CheckView::Valid
    } else {
        CheckView::Invalid(trim(out.stderr@))
    }
}

/// The parser of Nix on a file.
pub open spec fn instantiate_call(path: Seq<char>) -> CallView {
    CallView {
        program: "nix-instantiate"@,
        args: Seq::empty().push("--parse"@).push(path),
    }
}

/// An evaluation that forces a file to be parsed and looks at nothing in it.
pub open spec fn eval_call(path: Seq<char>) -> CallView {
    CallView {
        program: "nix"@,
        args: Seq::empty().push("--extra-experimental-features"@).push("nix-command"@).push(
            "eval"@,
        ).push("--file"@).push(path).push("--apply"@).push("x: null"@).push("--json"@),
    }
}

/// The first tool that could be run decides; where none could, nothing is known.
pub open spec fn syntax_step(path: Seq<char>, tried: Seq<Option<ToolOutput>>) -> SyntaxStepView {
    if tried.len() == 0 {
        SyntaxStepView::Run(instantiate_call(path))
    } else if tried[0] is Some {
        SyntaxStepView::Finished(verdict(tried[0]->0))
    } else if tried.len() == 1 {
        SyntaxStepView::Run(eval_call(path))
    } else if tried[1] is Some {
        SyntaxStepView::Finished(verdict(tried[1]->0))
    } else {
        SyntaxStepView::Finished(CheckView::Skipped)
    }
}

fn read_verdict(out: &ToolOutput) -> (r: SyntaxCheck)
    ensures
        r@ == verdict(*out),
{
    if out.success {
        SyntaxCheck::Valid
    } else {
        SyntaxCheck::Invalid(trimmed(&out.stderr))
    }
}

/// Check the syntax of a file with Nix itself. `tried` holds what came of the steps so far, in
/// order: nothing where the program was not found or could not be launched.
pub fn validate_syntax(path: &str, tried: &Vec<Option<ToolOutput>>) -> (r: SyntaxStep)
    ensures
        r@ == syntax_step(path@, tried@),
{
    if tried.len() == 0 {
        return SyntaxStep::Run(call("nix-instantiate").arg("--parse").arg(path));
    }
    match &tried[0] {
        Some(out) => {
            return SyntaxStep::Finished(read_verdict(out));
        },
        None => {},
    }
    if tried.len() == 1 {
        return SyntaxStep::Run(
            call("nix").arg("--extra-experimental-features").arg("nix-command").arg("eval").arg(
                "--file",
            ).arg(path).arg("--apply").arg("x: null").arg("--json"),
        );
    }
    match &tried[1] {
        Some(out) => SyntaxStep::Finished(read_verdict(out)),
        None => SyntaxStep::Finished(SyntaxCheck::Skipped),
    }
}

/// After two tries the check is finished, and one tool that could be run is enough.
pub proof fn syntax_check_ends(path: Seq<char>, tried: Seq<Option<ToolOutput>>)
    ensures
        tried.len() >= 2 ==> syntax_step(path, tried) is Finished,
        tried.len() > 0 && tried[0] is Some ==> syntax_step(path, tried) is Finished,
        syntax_step(path, tried) == SyntaxStepView::Finished(CheckView::Skipped) <==> tried.len() >= 2
            && tried[0] is None && tried[1] is None,
{
}

// ---------------------------------------------------------------------------
// Shortening
// ---------------------------------------------------------------------------

/// The start of `s` that takes up at most `n` bytes: as many whole characters as fit.
pub open spec fn shorten(s: Seq<char>, n: int) -> Seq<char>
    decreases s.len(),
{
    if s.len() == 0 || encode_scalar(s[0] as u32).len() > n {
        Seq::empty()
    } else {
        seq![s[0]] + shorten(s.drop_first(), n - encode_scalar(s[0] as u32).len())
    }
}

/// The start of a text that takes up at most `n` bytes.
pub fn shortened(s: &str, n: usize) -> (r: String)
    ensures
        r@ == shorten(s@, n as int),
{
    let cs: Vec<char> = chars_of(s);
    let mut i: usize = 0;
    let mut left: usize = n;
    assert(cs@.skip(0) =~= cs@);
    assert(cs@.take(0) + shorten(cs@, n as int) =~= shorten(cs@, n as int));
    while i < cs.len() && width(cs[i]) <= left
        invariant
            i <= cs@.len(),
            shorten(cs@, n as int) == cs@.take(i as int) + shorten(cs@.skip(i as int), left as int),
        decreases cs@.len() - i,
    {
        let w: usize = width(cs[i]);
        let ghost t = cs@.skip(i as int);
        assert(t[0] == cs@[i as int]);
        assert(t.drop_first() =~= cs@.skip(i + 1));
        left = left - w;
        assert(cs@.take(i as int) + (seq![t[0]] + shorten(t.drop_first(), left as int)) =~= cs@.take(
            i + 1,
        ) + shorten(cs@.skip(i + 1), left as int));
        i = i + 1;
    }
    assert(shorten(cs@.skip(i as int), left as int) =~= Seq::<char>::empty());
    assert(cs@.take(i as int) + Seq::<char>::empty() =~= cs@.take(i as int));
    let r: String = slice(&cs, 0, i);
    assert(r@ =~= cs@.take(i as int));
    r
}

/// A text of ASCII characters is shortened to its first `n` characters.
pub proof fn ascii_is_shortened_by_characters(s: Seq<char>, n: nat)
    requires
        forall|i: int| 0 <= i < s.len() ==> (#[trigger] s[i]) as u32 <= 0x7f,
    ensures
        shorten(s, n as int) == if s.len() <= n {
            s
        } else {
            s.take(n as int)
        },
    decreases s.len(),
{
    if s.len() > 0 {
        assert(encode_scalar(s[0] as u32).len() == 1);
        if n > 0 {
            let t = s.drop_first();
            assert forall|i: int| 0 <= i < t.len() implies (#[trigger] t[i]) as u32 <= 0x7f by {
                assert(t[i] == s[i + 1]);
            }
            ascii_is_shortened_by_characters(t, (n - 1) as nat);
            if s.len() <= n {
                assert(seq![s[0]] + t =~= s);
            } else {
                assert(seq![s[0]] + t.take(n - 1) =~= s.take(n as int));
            }
        } else {
            assert(s.take(0) =~= Seq::<char>::empty());
        }
    }
}

} // verus!
