//! Laws of the one edit that setting up makes in `configuration.nix`: when it is made, where, and
//! what it leaves as it was.

use vstd::prelude::*;

use crate::init::{
    body_len, defines_imports, imports_from, lemma_body_len, lemma_imports_from, lemma_last_at,
    lemma_past_space, patch_of, starts_its_line, PatchView, IMPORT_LINE,
};
use crate::nixfile::{block, char_from, close_from, lemma_char_from_is, lemma_close_from};
use crate::roundtrip::{lemma_close_nested, lemma_level_add, level, nested};
use crate::text::{contains, is_space, last_at, occurs_at, trim_start};

verus! {

// ---------------------------------------------------------------------------
// Lists of imports
// ---------------------------------------------------------------------------

/// Nothing but white space stands in `s` from `a` up to, not including, `b`.
pub open spec fn blank(s: Seq<char>, a: int, b: int) -> bool {
    forall|j: int| a <= j < b ==> is_space(#[trigger] s[j])
}

/// The line of position `m` holds nothing but white space before it.
pub open spec fn first_in_line(s: Seq<char>, m: int) -> bool {
    exists|l: int| 0 <= l <= m && (l == 0 || s[l - 1] == '\n') && #[trigger] blank(s, l, m)
}

/// The word `imports` stands at `m`, first in its line, the equals sign behind it at `e`, and the
/// bracket that opens the list at `b`, with nothing but white space between them.
pub open spec fn opens_list(s: Seq<char>, m: int, e: int, b: int) -> bool {
    &&& 0 <= m && m + 7 <= e < b < s.len()
    &&& s.subrange(m, m + 7) == "imports"@
    &&& first_in_line(s, m)
    &&& blank(s, m + 7, e)
    &&& s[e] == '='
    &&& blank(s, e + 1, b)
    &&& s[b] == '['
}

/// A list of imports is defined at `m`.
pub open spec fn list_defined(s: Seq<char>, m: int) -> bool {
    exists|e: int, b: int| opens_list(s, m, e, b)
}

/// The bracket at `b` is closed by the one at `q`: what stands between them closes all that it
/// opens.
pub open spec fn closed_at(s: Seq<char>, b: int, q: int) -> bool {
    &&& b < q < s.len()
    &&& s[q] == ']'
    &&& nested(s.subrange(b + 1, q), '[', ']')
}

/// The line that imports the managed directory stands somewhere in the text.
pub open spec fn line_is_there(s: Seq<char>) -> bool {
    let line = "./modules/nixlayer/default.nix"@;
    exists|k: int|
        0 <= k && k + line.len() <= s.len() && #[trigger] s.subrange(k, k + line.len()) == line
}

proof fn lemma_line_start(s: Seq<char>, m: int)
    requires
        0 <= m <= s.len(),
    ensures
        starts_its_line(s, m) <==> first_in_line(s, m),
{
    let t = s.take(m);
    let n = last_at(t, '\n');
    lemma_last_at(t, '\n');
    lemma_last_is(t, '\n');
    if starts_its_line(s, m) {
        assert(n >= 0 ==> s[n] == t[n]);
        assert(blank(s, n + 1, m));
    }
    if first_in_line(s, m) {
        let l = choose|l: int|
            0 <= l <= m && (l == 0 || s[l - 1] == '\n') && #[trigger] blank(s, l, m);
        if l > 0 {
            assert(t[l - 1] == '\n');
            assert(n >= l - 1);
        }
    }
}

proof fn lemma_last_is(s: Seq<char>, c: char)
    ensures
        last_at(s, c) >= 0 ==> s[last_at(s, c)] == c,
        forall|j: int| last_at(s, c) < j < s.len() ==> s[j] != c,
    decreases s.len(),
{
    if s.len() > 0 && s.last() != c {
        lemma_last_is(s.drop_last(), c);
        lemma_last_at(s.drop_last(), c);
        assert forall|j: int| last_at(s, c) < j < s.len() implies s[j] != c by {
            if j < s.len() - 1 {
                assert(s[j] == s.drop_last()[j]);
            }
        }
    }
}

proof fn lemma_trim_to(s: Seq<char>, i: int, j: int)
    requires
        0 <= i <= j < s.len(),
        blank(s, i, j),
        !is_space(s[j]),
    ensures
        trim_start(s.skip(i)) == s.skip(j),
    decreases j - i,
{
    assert(s.skip(i)[0] == s[i]);
    if i < j {
        assert(s.skip(i).drop_first() =~= s.skip(i + 1));
        lemma_trim_to(s, i + 1, j);
    }
}

/// The two ways to say where a list of imports is defined agree, and the block behind the word is
/// the list.
proof fn lemma_defined(s: Seq<char>, m: int)
    requires
        0 <= m,
    ensures
        defines_imports(s, m) <==> list_defined(s, m),
        forall|e: int, b: int| #[trigger] opens_list(s, m, e, b) ==> char_from(s, '[', m) == b,
{
    reveal_strlit("imports");
    if defines_imports(s, m) {
        lemma_line_start(s, m);
        let e = lemma_past_space(s, m + 7);
        assert(s.skip(e)[0] == s[e]);
        assert(s.skip(e).skip(1) =~= s.skip(e + 1));
        let b = lemma_past_space(s, e + 1);
        assert(s.skip(b)[0] == s[b]);
        assert(opens_list(s, m, e, b));
    }
    assert forall|e: int, b: int| #[trigger] opens_list(s, m, e, b) implies defines_imports(s, m)
        && char_from(s, '[', m) == b by {
        lemma_line_start(s, m);
        lemma_trim_to(s, m + 7, e);
        assert(s.skip(e)[0] == s[e]);
        assert(s.skip(e).skip(1) =~= s.skip(e + 1));
        lemma_trim_to(s, e + 1, b);
        assert(s.skip(b)[0] == s[b]);
        assert forall|j: int| m <= j < b implies s[j] != '[' by {
            if j < m + 7 {
                assert(s.subrange(m, m + 7)[j - m] == s[j]);
            }
        }
        lemma_char_from_is(s, '[', m, b);
    }
}

/// What is defined behind a closing bracket is defined in the whole text.
proof fn lemma_defined_behind(s: Seq<char>, q: int, n: int)
    requires
        0 <= q < s.len(),
        s[q] == ']',
        0 <= n,
    ensures
        list_defined(s.skip(q), n) <==> n > 0 && list_defined(s, q + n),
{
    reveal_strlit("imports");
    let t = s.skip(q);
    if list_defined(t, n) {
        let (e, b) = choose|e: int, b: int| opens_list(t, n, e, b);
        assert(t.subrange(n, n + 7)[0] == t[n]);
        assert(t[0] == s[q]);
        let l = choose|l: int|
            0 <= l <= n && (l == 0 || t[l - 1] == '\n') && #[trigger] blank(t, l, n);
        assert(l > 0) by {
            if l == 0 {
                assert(is_space(t[0]));
            }
        }
        assert(blank(s, q + l, q + n)) by {
            assert forall|j: int| q + l <= j < q + n implies is_space(#[trigger] s[j]) by {
                assert(t[j - q] == s[j]);
            }
        }
        assert(blank(s, q + n + 7, q + e)) by {
            assert forall|j: int| q + n + 7 <= j < q + e implies is_space(#[trigger] s[j]) by {
                assert(t[j - q] == s[j]);
            }
        }
        assert(blank(s, q + e + 1, q + b)) by {
            assert forall|j: int| q + e + 1 <= j < q + b implies is_space(#[trigger] s[j]) by {
                assert(t[j - q] == s[j]);
            }
        }
        assert(s.subrange(q + n, q + n + 7) =~= t.subrange(n, n + 7));
        assert(opens_list(s, q + n, q + e, q + b));
    }
    if n > 0 && list_defined(s, q + n) {
        let a = q + n;
        let (e, b) = choose|e: int, b: int| opens_list(s, a, e, b);
        let l = choose|l: int|
            0 <= l <= a && (l == 0 || s[l - 1] == '\n') && #[trigger] blank(s, l, a);
        assert(l > q) by {
            if l <= q {
                assert(is_space(s[q]));
            }
        }
        assert(l - 1 > q) by {
            assert(s[l - 1] == '\n');
        }
        assert(t[l - q - 1] == '\n');
        assert(blank(t, l - q, n));
        assert(blank(t, n + 7, e - q));
        assert(blank(t, e - q + 1, b - q));
        assert(t.subrange(n, n + 7) =~= s.subrange(q + n, q + n + 7));
        assert(opens_list(t, n, e - q, b - q));
    }
}

/// What stands before the bracket that closes a block closes all that it opens.
proof fn lemma_closed(s: Seq<char>, i: int, depth: int, n: int)
    requires
        0 <= i,
        depth >= 1,
        close_from(s, '[', ']', i, depth) is Some,
        i <= i + n <= close_from(s, '[', ']', i, depth)->0,
        close_from(s, '[', ']', i, depth)->0 < s.len(),
    ensures
        depth + level(s.subrange(i, i + n), '[', ']') >= 1,
        i + n == close_from(s, '[', ']', i, depth)->0 ==> depth + level(
            s.subrange(i, i + n),
            '[',
            ']',
        ) == 1,
    decreases n,
{
    let q = close_from(s, '[', ']', i, depth)->0;
    assert(level(Seq::<char>::empty(), '[', ']') == 0);
    if n == 0 {
        assert(s.subrange(i, i) =~= Seq::empty());
        lemma_close_from(s, '[', ']', i + 1, depth + 1);
        lemma_close_from(s, '[', ']', i + 1, depth - 1);
        lemma_close_from(s, '[', ']', i + 1, depth);
    } else {
        let one = seq![s[i]];
        let rest = s.subrange(i + 1, i + n);
        let d: int = if s[i] == '[' {
            depth + 1
        } else if s[i] == ']' {
            depth - 1
        } else {
            depth
        };
        assert(s.subrange(i, i + n) =~= one + rest);
        lemma_level_add(one, rest, '[', ']');
        assert(one.drop_last() =~= Seq::empty());
        assert(one.last() == s[i]);
        assert(level(one, '[', ']') == d - depth);
        lemma_closed(s, i + 1, d, n - 1);
    }
}

proof fn lemma_closed_block(s: Seq<char>, b: int)
    requires
        0 <= b < s.len(),
    ensures
        match close_from(s, '[', ']', b + 1, 1) {
            Some(q) => closed_at(s, b, q),
            None => forall|q: int| !closed_at(s, b, q),
        },
{
    lemma_close_from(s, '[', ']', b + 1, 1);
    match close_from(s, '[', ']', b + 1, 1) {
        Some(q) => {
            let g = s.subrange(b + 1, q);
            assert forall|n: int| 0 <= n <= g.len() implies level(#[trigger] g.take(n), '[', ']')
                >= 0 by {
                lemma_closed(s, b + 1, 1, n);
                assert(g.take(n) =~= s.subrange(b + 1, b + 1 + n));
            }
            lemma_closed(s, b + 1, 1, g.len() as int);
        },
        None => {
            assert forall|q: int| !closed_at(s, b, q) by {
                if closed_at(s, b, q) {
                    lemma_close_nested(s, '[', ']', b + 1, s.subrange(b + 1, q));
                }
            }
        },
    }
}

proof fn lemma_body_end(s: Seq<char>)
    ensures
        body_len(s) > 0 ==> s[body_len(s) - 1] != ' ' && s[body_len(s) - 1] != '\t' && s[body_len(s)
            - 1] != '\n',
    decreases s.len(),
{
    if s.len() > 0 && (s.last() == ' ' || s.last() == '\t' || s.last() == '\n') {
        lemma_body_end(s.drop_last());
        lemma_body_len(s.drop_last());
    }
}

// ---------------------------------------------------------------------------
// When a text is edited
// ---------------------------------------------------------------------------

/// Nothing is done exactly where the line that imports the managed directory stands in the text
/// already.
pub proof fn only_the_whole_line_counts(path: Seq<char>, text: Seq<char>)
    ensures
        patch_of(path, text) == PatchView::AlreadyImported <==> line_is_there(text),
{
    let line = "./modules/nixlayer/default.nix"@;
    if line_is_there(text) {
        let k = choose|k: int|
            0 <= k && k + line.len() <= text.len() && #[trigger] text.subrange(k, k + line.len())
                == line;
        assert(occurs_at(text, IMPORT_LINE@, k));
    }
    if contains(text, IMPORT_LINE@) {
        let k = choose|k: int| occurs_at(text, IMPORT_LINE@, k);
        assert(text.subrange(k, k + line.len()) == line);
    }
}

/// The contents of the list between `b` and `q` end at `k`: what follows are blanks, tabs and line
/// feeds, and what stands before is none of these.
pub open spec fn list_ends_at(s: Seq<char>, b: int, k: int, q: int) -> bool {
    &&& b < k <= q
    &&& forall|j: int| k <= j < q ==> #[trigger] s[j] == ' ' || s[j] == '\t' || s[j] == '\n'
    &&& k > b + 1 ==> s[k - 1] != ' ' && s[k - 1] != '\t' && s[k - 1] != '\n'
}

/// A text without that line, in which the first list of imports opens at `b` and closes at `q`, is
/// edited unless another list is defined behind it. The edit adds the line at the end of the list,
/// in a line of its own: the list stays as it is, up to the white space at its end, which goes
/// behind the new line, and so does everything before and behind the list.
pub proof fn the_only_list_gets_the_line(
    path: Seq<char>,
    text: Seq<char>,
    m: int,
    e: int,
    b: int,
    q: int,
)
    requires
        !line_is_there(text),
        opens_list(text, m, e, b),
        closed_at(text, b, q),
        forall|n: int| 0 <= n < m ==> !list_defined(text, n),
    ensures
        (exists|n: int| n > q && list_defined(text, n)) ==> patch_of(path, text)
            == PatchView::ByHand(
            path
                + " contains more than one `imports = [ ... ];` block, so nixlayer can't tell which one is authoritative. Add this line to the right one yourself:\n\n    "@
                + "./modules/nixlayer/default.nix"@ + "\n"@,
        ),
        !(exists|n: int| n > q && list_defined(text, n)) ==> {
            let line = "./modules/nixlayer/default.nix"@;
            &&& patch_of(path, text) is Edit
            &&& exists|k: int|
                #[trigger] list_ends_at(text, b, k, q) && patch_of(path, text)->Edit_0 == text.take(k)
                    + ((if k > b + 1 {
                    "\n"@
                } else {
                    ""@
                }) + "    "@ + line + (if k < q {
                    text.subrange(k, q)
                } else {
                    "\n"@
                })) + text.skip(q)
        },
{
    only_the_whole_line_counts(path, text);
    lemma_defined(text, m);
    lemma_imports_from(text, 0);
    assert forall|n: int| 0 <= n < m implies !defines_imports(text, n) by {
        lemma_defined(text, n);
    }
    assert(imports_from(text, 0) == Some(m));
    lemma_close_nested(text, '[', ']', b + 1, text.subrange(b + 1, q));
    assert(block(text, '[', ']', m) == Some((b, q)));
    let t = text.skip(q);
    lemma_imports_from(t, 0);
    if exists|n: int| n > q && list_defined(text, n) {
        let n = choose|n: int| n > q && list_defined(text, n);
        lemma_defined_behind(text, q, n - q);
        lemma_defined(t, n - q);
        assert(imports_from(t, 0) is Some);
    } else {
        if imports_from(t, 0) is Some {
            let n = imports_from(t, 0)->0;
            lemma_defined(t, n);
            lemma_defined_behind(text, q, n);
            assert(q + n > q && list_defined(text, q + n));
        }
        let line = "./modules/nixlayer/default.nix"@;
        let inner = text.subrange(b + 1, q);
        lemma_body_len(inner);
        let k = b + 1 + body_len(inner);
        reveal_strlit("\n");
        reveal_strlit("    ");
        reveal_strlit("");
        lemma_body_end(inner);
        assert forall|j: int| k <= j < q implies #[trigger] text[j] == ' ' || text[j] == '\t' || text[j]
            == '\n' by {
            assert(text[j] == inner[j - b - 1]);
        }
        if k > b + 1 {
            assert(text[k - 1] == inner[k - b - 2]);
        }
        assert(list_ends_at(text, b, k, q));
        assert(inner.skip(body_len(inner)) =~= text.subrange(k, q));
        let gap = (if k > b + 1 {
            "\n"@
        } else {
            ""@
        }) + "    "@;
        let end = if k < q {
            text.subrange(k, q)
        } else {
            "\n"@
        };
        let new_text = patch_of(path, text)->Edit_0;
        assert(new_text =~= text.take(k) + (gap + line + end) + text.skip(q));
    }
}

/// Where no list of imports is defined, or the first one is never closed, the user is told to add
/// the line by hand.
pub proof fn texts_without_a_list_are_left_alone(path: Seq<char>, text: Seq<char>)
    requires
        !line_is_there(text),
        (forall|n: int| 0 <= n ==> !list_defined(text, n)) || (exists|m: int, e: int, b: int|
            {
                &&& #[trigger] opens_list(text, m, e, b)
                &&& forall|q: int| !closed_at(text, b, q)
                &&& forall|n: int| 0 <= n < m ==> !list_defined(text, n)
            }),
    ensures
        patch_of(path, text) == PatchView::ByHand(
            "Could not confidently find an `imports = [ ... ];` list in "@ + path
                + ".\nAdd this line to your imports list by hand:\n\n    "@
                + "./modules/nixlayer/default.nix"@ + "\n"@,
        ),
{
    only_the_whole_line_counts(path, text);
    lemma_imports_from(text, 0);
    if imports_from(text, 0) is Some {
        let i = imports_from(text, 0)->0;
        lemma_defined(text, i);
        let (m, e, b) = choose|m: int, e: int, b: int|
            {
                &&& #[trigger] opens_list(text, m, e, b)
                &&& forall|q: int| !closed_at(text, b, q)
                &&& forall|n: int| 0 <= n < m ==> !list_defined(text, n)
            };
        lemma_defined(text, m);
        assert(i == m);
        lemma_closed_block(text, b);
    }
}

} // verus!
