//! Laws of the texts that everything else is made of: numbers, lists, columns, answers and order.

use vstd::prelude::*;

use crate::nixfile::{
    before_comment, clean, in_segment, is_segment, line_tokens, simple_attr_path, strip_commas,
    tokens,
};
use crate::order::le;
use crate::text::{
    after_last, contains, decimal, digits_value, is_space, join, last_at, lemma_contains_inside,
    lemma_contains_through, lemma_until, lemma_until_is, lines, number, pad_right, split, strip_cr,
    trim, trim_end, trim_start, until, words,
};
use crate::ui::{agrees, lower, picked, same_letters, says_yes};

verus! {

// ---------------------------------------------------------------------------
// Numbers
// ---------------------------------------------------------------------------

/// A number is written in decimal digits, the last of which is its remainder by ten, without
/// leading zeros, and it is read back.
pub proof fn numbers_are_written_in_decimal(n: nat)
    ensures
        decimal(n).len() > 0,
        forall|i: int| 0 <= i < decimal(n).len() ==> '0' <= #[trigger] decimal(n)[i] <= '9',
        decimal(n).last() as nat == 48 + n % 10,
        n >= 10 ==> decimal(n).drop_last() == decimal(n / 10),
        n < 10 ==> decimal(n).len() == 1,
        n > 0 ==> decimal(n)[0] != '0',
        digits_value(decimal(n)) == n,
        number(decimal(n)) == Some(n),
    decreases n,
{
    let d = decimal(n);
    if n >= 10 {
        numbers_are_written_in_decimal(n / 10);
        let t = decimal(n / 10);
        assert(d.drop_last() =~= t);
        assert forall|i: int| 0 <= i < d.len() implies '0' <= #[trigger] d[i] <= '9' by {
            if i < t.len() {
                assert(d[i] == t[i]);
            }
        }
        assert(d[0] == t[0]);
    } else {
        assert(d.drop_last() =~= Seq::empty());
        assert(digits_value(d.drop_last()) == 0);
    }
}

// ---------------------------------------------------------------------------
// White space
// ---------------------------------------------------------------------------

proof fn lemma_trim_start_of(a: Seq<char>, s: Seq<char>)
    requires
        forall|i: int| 0 <= i < a.len() ==> is_space(#[trigger] a[i]),
        s.len() > 0 ==> !is_space(s[0]),
    ensures
        trim_start(a + s) == s,
    decreases a.len(),
{
    if a.len() == 0 {
        assert(a + s =~= s);
    } else {
        let t = a.drop_first();
        assert forall|i: int| 0 <= i < t.len() implies is_space(#[trigger] t[i]) by {
            assert(t[i] == a[i + 1]);
        }
        assert((a + s)[0] == a[0]);
        assert((a + s).drop_first() =~= t + s);
        lemma_trim_start_of(t, s);
    }
}

proof fn lemma_trim_end_of(s: Seq<char>, b: Seq<char>)
    requires
        forall|i: int| 0 <= i < b.len() ==> is_space(#[trigger] b[i]),
        s.len() > 0 ==> !is_space(s.last()),
    ensures
        trim_end(s + b) == s,
    decreases b.len(),
{
    if b.len() == 0 {
        assert(s + b =~= s);
    } else {
        let t = b.drop_last();
        assert((s + b).last() == b.last());
        assert((s + b).drop_last() =~= s + t);
        lemma_trim_end_of(s, t);
    }
}

/// Trimming takes white space from the two ends of a text, and nothing else.
pub proof fn trimming_takes_white_space(before: Seq<char>, s: Seq<char>, after: Seq<char>)
    requires
        forall|i: int| 0 <= i < before.len() ==> is_space(#[trigger] before[i]),
        forall|i: int| 0 <= i < after.len() ==> is_space(#[trigger] after[i]),
        s.len() > 0,
        !is_space(s[0]),
        !is_space(s.last()),
    ensures
        trim(before + s + after) == s,
{
    assert(before + s + after =~= before + (s + after));
    assert((s + after)[0] == s[0]);
    lemma_trim_start_of(before, s + after);
    lemma_trim_end_of(s, after);
}

// ---------------------------------------------------------------------------
// Answers
// ---------------------------------------------------------------------------

/// An answer that writes a number, with white space around it, picks the option of that number,
/// where there is one; the options are counted from one.
pub proof fn answers_pick_by_number(before: Seq<char>, k: nat, after: Seq<char>, max: nat)
    requires
        forall|i: int| 0 <= i < before.len() ==> is_space(#[trigger] before[i]),
        forall|i: int| 0 <= i < after.len() ==> is_space(#[trigger] after[i]),
    ensures
        picked(before + decimal(k) + after, max) == if 1 <= k <= max {
            Some((k - 1) as nat)
        } else {
            None
        },
{
    let d = decimal(k);
    numbers_are_written_in_decimal(k);
    assert('0' <= d[0] <= '9');
    assert('0' <= d[d.len() - 1] <= '9');
    trimming_takes_white_space(before, d, after);
}

/// Only `y` and `yes` mean yes, in any case and with white space around them.
pub proof fn only_yes_means_yes(answer: Seq<char>)
    ensures
        says_yes(answer) <==> {
            let t = trim(answer);
            ||| t.len() == 1 && (t[0] == 'y' || t[0] == 'Y')
            ||| t.len() == 3 && (t[0] == 'y' || t[0] == 'Y') && (t[1] == 'e' || t[1] == 'E') && (t[2]
                == 's' || t[2] == 'S')
        },
        agrees(Some(answer)) <==> says_yes(answer),
        !agrees(None),
{
    reveal_strlit("y");
    reveal_strlit("yes");
    let t = trim(answer);
    if t.len() == 3 && (t[0] == 'y' || t[0] == 'Y') && (t[1] == 'e' || t[1] == 'E') && (t[2] == 's'
        || t[2] == 'S') {
        assert(same_letters(t, "yes"@));
    }
    if t.len() == 1 && (t[0] == 'y' || t[0] == 'Y') {
        assert(same_letters(t, "y"@));
    }
    if same_letters(t, "yes"@) {
        assert(lower(t[0]) == 'y');
        assert(lower(t[1]) == 'e');
        assert(lower(t[2]) == 's');
    }
    if same_letters(t, "y"@) {
        assert(lower(t[0]) == 'y');
    }
}

// ---------------------------------------------------------------------------
// Lists and columns
// ---------------------------------------------------------------------------

/// Texts are joined in their order with the separator between every two of them.
pub proof fn joining_keeps_every_text(a: Seq<Seq<char>>, b: Seq<Seq<char>>, sep: Seq<char>)
    requires
        a.len() > 0,
        b.len() > 0,
    ensures
        join(a + b, sep) == join(a, sep) + sep + join(b, sep),
        a.len() == 1 ==> join(a, sep) == a[0],
    decreases b.len(),
{
    if b.len() == 1 {
        assert((a + b).drop_last() =~= a);
    } else {
        let t = b.drop_last();
        assert((a + b).drop_last() =~= a + t);
        joining_keeps_every_text(a, t, sep);
        assert(join(a + b, sep) =~= join(a, sep) + sep + join(b, sep));
    }
}

/// Each of some texts stands in the text that they are joined to.
pub proof fn joined_texts_are_there(v: Seq<Seq<char>>, sep: Seq<char>, i: int)
    requires
        0 <= i < v.len(),
    ensures
        contains(join(v, sep), v[i]),
    decreases v.len(),
{
    let none = Seq::<char>::empty();
    if v.len() == 1 {
        lemma_contains_inside(none, v[0], none);
        assert(none + v[0] + none =~= v[0]);
    } else {
        let front = join(v.drop_last(), sep);
        if i == v.len() - 1 {
            lemma_contains_inside(front + sep, v[i], none);
            assert(front + sep + v[i] + none =~= join(v, sep));
        } else {
            joined_texts_are_there(v.drop_last(), sep, i);
            lemma_contains_inside(none, front, sep + v.last());
            assert(none + front + (sep + v.last()) =~= join(v, sep));
            lemma_contains_through(join(v, sep), front, v[i]);
        }
    }
}

/// A column holds its text, whole, and is filled up with spaces to its width.
pub proof fn columns_hold_their_text(s: Seq<char>, width: nat)
    ensures
        pad_right(s, width).take(s.len() as int) == s,
        pad_right(s, width).len() == if s.len() < width {
            width
        } else {
            s.len()
        },
        forall|i: int| s.len() <= i < pad_right(s, width).len() ==> #[trigger] pad_right(s, width)[i]
            == ' ',
{
    assert(pad_right(s, width).take(s.len() as int) =~= s);
}

/// A text is cut into lines at its line feeds. A carriage return in front of one goes with it.
pub proof fn lines_end_at_line_feeds(a: Seq<char>, b: Seq<char>)
    requires
        !a.contains('\n'),
    ensures
        lines(a + "\n"@ + b) == seq![strip_cr(a)] + lines(b),
        a.len() > 0 ==> lines(a) == seq![a],
        lines(Seq::empty()) == Seq::<Seq<char>>::empty(),
{
    reveal_strlit("\n");
    let s = a + "\n"@ + b;
    let k = a.len() as int;
    assert forall|j: int| 0 <= j < k implies s[j] != '\n' && a[j] != '\n' by {
        assert(a.contains(a[j]));
    }
    lemma_until_is(s, '\n', k);
    assert(s.take(k) =~= a);
    assert(s.skip(k + 1) =~= b);
    lemma_until(a, '\n');
    if until(a, '\n') < a.len() {
        assert(a[until(a, '\n') as int] == '\n');
    }
}

/// What stands behind the last separator.
pub proof fn the_last_part_is_behind_the_last_separator(a: Seq<char>, c: char, b: Seq<char>)
    requires
        !b.contains(c),
    ensures
        after_last(a + seq![c] + b, c) == Some(b),
        after_last(b, c) is None,
{
    let s = a + seq![c] + b;
    lemma_last_at(a + seq![c], b, c);
    assert((a + seq![c]).last() == c);
    assert(last_at(s, c) == a.len());
    assert(s.skip(a.len() as int + 1) =~= b);
    lemma_last_at(Seq::empty(), b, c);
    assert(Seq::<char>::empty() + b =~= b);
}

proof fn lemma_last_at(a: Seq<char>, b: Seq<char>, c: char)
    requires
        !b.contains(c),
    ensures
        last_at(a + b, c) == last_at(a, c),
    decreases b.len(),
{
    if b.len() == 0 {
        assert(a + b =~= a);
    } else {
        let t = b.drop_last();
        assert(b.contains(b[b.len() - 1]));
        assert forall|x: char| t.contains(x) implies b.contains(x) by {
            let i = choose|i: int| 0 <= i < t.len() && t[i] == x;
            assert(b[i] == x);
        }
        assert((a + b).drop_last() =~= a + t);
        lemma_last_at(a, t, c);
    }
}

// ---------------------------------------------------------------------------
// Order
// ---------------------------------------------------------------------------

/// Texts are ordered by the first character in which they differ; a text comes before those that
/// it starts.
pub proof fn texts_are_ordered_by_their_characters(common: Seq<char>, a: Seq<char>, b: Seq<char>)
    ensures
        le(common, common + a),
        a.len() > 0 ==> !le(common + a, common),
        a.len() > 0 && b.len() > 0 && a[0] != b[0] ==> (le(common + a, common + b) <==> a[0] < b[0]),
    decreases common.len(),
{
    if common.len() == 0 {
        assert(common + a =~= a);
        assert(common + b =~= b);
    } else {
        let t = common.drop_first();
        assert((common + a).drop_first() =~= t + a);
        assert((common + b).drop_first() =~= t + b);
        texts_are_ordered_by_their_characters(t, a, b);
    }
}

// ---------------------------------------------------------------------------
// Attribute paths
// ---------------------------------------------------------------------------

/// A letter or an underscore.
pub open spec fn leads(c: char) -> bool {
    ('a' <= c && c <= 'z') || ('A' <= c && c <= 'Z') || c == '_'
}

/// A character that follows in a name.
pub open spec fn follows(c: char) -> bool {
    leads(c) || ('0' <= c && c <= '9') || c == '\'' || c == '-'
}

/// A plain attribute path is made of names with single dots between them: it starts with a letter
/// or an underscore, so does whatever follows a dot, and it does not end in a dot.
pub proof fn attribute_paths_are_dotted_names(s: Seq<char>)
    ensures
        simple_attr_path(s) <==> {
            &&& s.len() > 0
            &&& leads(s[0])
            &&& s.last() != '.'
            &&& forall|i: int| 0 <= i < s.len() ==> follows(#[trigger] s[i]) || s[i] == '.'
            &&& forall|i: int| 0 < i < s.len() && s[i - 1] == '.' ==> leads(#[trigger] s[i])
        },
    decreases s.len(),
{
    let k = until(s, '.') as int;
    lemma_until(s, '.');
    let parts = split(s, '.');
    if k >= s.len() {
        assert(parts =~= seq![s]);
        assert(parts[0] == s);
    } else {
        let head = s.take(k);
        let rest = s.skip(k + 1);
        let more = split(rest, '.');
        assert(parts =~= seq![head] + more);
        attribute_paths_are_dotted_names(rest);
        if simple_attr_path(s) {
            assert(parts[0] == head);
            assert forall|i: int| 0 <= i < more.len() implies is_segment(
                #[trigger] more[i],
            ) by {
                assert(parts[i + 1] == more[i]);
            }
            assert(simple_attr_path(rest));
            assert(head[0] == s[0]);
            assert(rest[0] == s[k + 1]);
            assert(rest.last() == s.last());
            assert forall|i: int| 0 <= i < s.len() implies follows(#[trigger] s[i]) || s[i] == '.' by {
                if i < k {
                    assert(head[i] == s[i]);
                } else if i > k {
                    assert(rest[i - k - 1] == s[i]);
                }
            }
            assert forall|i: int| 0 < i < s.len() && s[i - 1] == '.' implies leads(#[trigger] s[i]) by {
                if i > k + 1 {
                    assert(rest[i - k - 1] == s[i]);
                    assert(rest[i - k - 2] == s[i - 1]);
                }
            }
        }
        if {
            &&& s.len() > 0
            &&& leads(s[0])
            &&& s.last() != '.'
            &&& forall|i: int| 0 <= i < s.len() ==> follows(#[trigger] s[i]) || s[i] == '.'
            &&& forall|i: int| 0 < i < s.len() && s[i - 1] == '.' ==> leads(#[trigger] s[i])
        } {
            assert(k + 1 < s.len());
            assert(rest[0] == s[k + 1]);
            assert(rest.last() == s.last());
            assert forall|i: int| 0 <= i < rest.len() implies follows(#[trigger] rest[i]) || rest[i]
                == '.' by {
                assert(rest[i] == s[i + k + 1]);
            }
            assert forall|i: int| 0 < i < rest.len() && rest[i - 1] == '.' implies leads(
                #[trigger] rest[i],
            ) by {
                assert(rest[i] == s[i + k + 1]);
                assert(rest[i - 1] == s[i + k]);
            }
            assert(simple_attr_path(rest));
            assert(is_segment(head)) by {
                assert(k > 0);
                assert forall|i: int| 1 <= i < head.len() implies in_segment(
                    #[trigger] head[i],
                ) by {
                    assert(head[i] == s[i]);
                    assert(s[i] != '.');
                }
            }
            assert forall|i: int| 0 <= i < parts.len() implies is_segment(
                #[trigger] parts[i],
            ) by {
                if i > 0 {
                    assert(parts[i] == more[i - 1]);
                }
            }
        }
    }
}

// ---------------------------------------------------------------------------
// Package lists
// ---------------------------------------------------------------------------

proof fn lemma_line_tokens_concat(a: Seq<Seq<char>>, b: Seq<Seq<char>>)
    ensures
        line_tokens(a + b) == line_tokens(a) + line_tokens(b),
    decreases b.len(),
{
    if b.len() == 0 {
        assert(a + b =~= a);
        assert(line_tokens(a) + line_tokens(b) =~= line_tokens(a));
    } else {
        assert((a + b).drop_last() =~= a + b.drop_last());
        lemma_line_tokens_concat(a, b.drop_last());
        assert(line_tokens(a + b) =~= line_tokens(a) + line_tokens(b));
    }
}

/// A package list is read line by line, each without its comment: what stands behind a `#` is
/// not read, and what stands before it is read word by word, without the commas at the end of a
/// word.
pub proof fn package_lists_are_read_line_by_line(
    line: Seq<char>,
    comment: Seq<char>,
    rest: Seq<char>,
)
    requires
        !line.contains('\n'),
        !line.contains('#'),
        !comment.contains('\n'),
        line.len() > 0 ==> line.last() != '\r',
    ensures
        tokens(line + "\n"@ + rest) == tokens(line) + tokens(rest),
        tokens(line + "#"@ + comment + "\n"@ + rest) == tokens(line) + tokens(rest),
        tokens(line) == clean(words(line)),
{
    reveal_strlit("#");
    reveal_strlit("\n");
    lines_end_at_line_feeds(line, rest);
    let long = line + "#"@ + comment;
    assert(!long.contains('\n')) by {
        if long.contains('\n') {
            let i = choose|i: int| 0 <= i < long.len() && long[i] == '\n';
            if i < line.len() {
                assert(line[i] == '\n');
            } else if i > line.len() {
                assert(comment[i - line.len() - 1] == '\n');
            }
        }
    }
    lines_end_at_line_feeds(long, rest);
    let cut = strip_cr(long);
    assert forall|j: int| 0 <= j < line.len() implies line[j] != '#' by {
        assert(line.contains(line[j]));
    }
    lemma_until_is(cut, '#', line.len() as int);
    assert(cut.take(line.len() as int) =~= line);
    lemma_until(line, '#');
    assert(until(line, '#') == line.len());
    assert(line.take(line.len() as int) =~= line);
    let here = clean(words(line));
    let none = Seq::<Seq<char>>::empty();
    assert(seq![cut].drop_last() =~= none);
    assert(seq![line].drop_last() =~= none);
    assert(before_comment(cut) == line);
    assert(before_comment(line) == line);
    assert(seq![cut].last() == cut);
    assert(seq![line].last() == line);
    assert(line_tokens(none) =~= none);
    assert(line_tokens(seq![cut]) == line_tokens(none) + here);
    assert(line_tokens(seq![line]) == line_tokens(none) + here);
    assert(none + here =~= here);
    lemma_line_tokens_concat(seq![cut], lines(rest));
    lemma_line_tokens_concat(seq![line], lines(rest));
    assert(strip_cr(line) == line);
    if line.len() == 0 {
        assert(words(line) =~= none);
        assert(here =~= none);
        assert(tokens(line) =~= none);
    }
}

/// The words of a line are its tokens, each without the commas at its end; a word of nothing but
/// commas is none.
pub proof fn words_lose_their_commas(a: Seq<Seq<char>>, w: Seq<char>, commas: Seq<char>)
    requires
        forall|i: int| 0 <= i < commas.len() ==> #[trigger] commas[i] == ',',
        w.len() > 0 ==> w.last() != ',',
    ensures
        clean(a.push(w + commas)) == if w.len() > 0 {
            clean(a).push(w)
        } else {
            clean(a)
        },
    decreases commas.len(),
{
    lemma_strip(w, commas);
    assert(a.push(w + commas).drop_last() =~= a);
}

proof fn lemma_strip(w: Seq<char>, commas: Seq<char>)
    requires
        forall|i: int| 0 <= i < commas.len() ==> #[trigger] commas[i] == ',',
        w.len() > 0 ==> w.last() != ',',
    ensures
        strip_commas(w + commas) == w,
    decreases commas.len(),
{
    if commas.len() == 0 {
        assert(w + commas =~= w);
    } else {
        assert((w + commas).last() == ',');
        assert((w + commas).drop_last() =~= w + commas.drop_last());
        lemma_strip(w, commas.drop_last());
    }
}

} // verus!
