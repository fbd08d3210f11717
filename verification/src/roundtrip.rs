//! What is written is read back: the laws that tie rendering a category file to reading it.

use vstd::prelude::*;

use crate::category::{
    all_source_lines, by_name, empty_category, github_head, is_name, list_inner, list_span,
    package_lines, plain_head, plain_text, read_category, read_github, rendered, sorted_sources,
    source_lines, with_inner, CategoryView, GH_MARKER, GH_NOTE, GH_SUFFIX, HEAD, MARKER, PLAIN_NOTE,
};
use crate::default_nix::{lemma_module_has_no_marker, module_text};
use crate::edits::orderly;
use crate::error::ErrorView;
use crate::nixfile::{
    before_comment, block, clean, close_from, in_segment, is_segment, lemma_block, lemma_char_from,
    lemma_char_from_is, line_tokens, read_list, read_list_accepts_exactly_plain_lists,
    simple_attr_path, starts_segment, strip_commas, tokens,
};
use crate::order::{
    lemma_sort_ascending, lemma_sort_by_key, lemma_sort_contains, lemma_unique,
    lemma_unique_of_same, unique,
};
use crate::sources::{
    blank, entry_fields, entry_text, filled_without, flake_fields, flake_ref, is_commit, is_entry,
    is_flake, is_output, is_ref, is_word, lemma_entry_fields, lemma_flake_fields, lemma_ref_field,
    prepend, read_sources, ref_field, ref_text, SourceView,
};
use crate::text::{
    contains, find_from, is_hex, is_space, lemma_find_from, lemma_find_is, lemma_until,
    lemma_until_is, lemma_word_len_is, lemma_words_blank, lines, occurs_at, split, strip_cr, trim,
    trim_end, trim_start, until, words,
};

verus! {

// ---------------------------------------------------------------------------
// Package lists
// ---------------------------------------------------------------------------

/// Every text is a plain attribute path.
pub open spec fn all_simple(s: Seq<Seq<char>>) -> bool {
    forall|i: int| 0 <= i < s.len() ==> simple_attr_path(#[trigger] s[i])
}

/// A character of a plain attribute path.
pub open spec fn in_path(c: char) -> bool {
    in_segment(c) || c == '.'
}

/// A plain attribute path is not empty and holds letters, digits, `_`, `'`, `-` and `.` only.
pub proof fn lemma_simple_chars(s: Seq<char>)
    requires
        simple_attr_path(s),
    ensures
        s.len() > 0,
        forall|i: int| 0 <= i < s.len() ==> in_path(#[trigger] s[i]),
    decreases s.len(),
{
    let k = until(s, '.') as int;
    lemma_until(s, '.');
    let parts = split(s, '.');
    assert(is_segment(parts[0]));
    let head = parts[0];
    if k >= s.len() {
        assert(head == s);
        assert forall|i: int| 0 <= i < s.len() implies in_path(#[trigger] s[i]) by {
            if i == 0 {
                assert(starts_segment(s[0]));
            }
        }
    } else {
        let rest = s.skip(k + 1);
        assert(parts == seq![s.take(k)] + split(rest, '.'));
        assert forall|i: int| 0 <= i < split(rest, '.').len() implies is_segment(
            #[trigger] split(rest, '.')[i],
        ) by {
            assert(parts[i + 1] == split(rest, '.')[i]);
        }
        lemma_simple_chars(rest);
        assert forall|i: int| 0 <= i < s.len() implies in_path(#[trigger] s[i]) by {
            if i < k {
                assert(head[i] == s[i]);
                if i == 0 {
                    assert(starts_segment(head[0]));
                }
            } else if i > k {
                assert(s[i] == rest[i - k - 1]);
            }
        }
    }
}

proof fn lemma_package_lines_front(s: Seq<Seq<char>>)
    requires
        s.len() > 0,
    ensures
        package_lines(s) == "    "@ + s[0] + "\n"@ + package_lines(s.drop_first()),
    decreases s.len(),
{
    let t = s.drop_first();
    if s.len() == 1 {
        assert(s.drop_last() =~= Seq::<Seq<char>>::empty());
        assert(package_lines(t) =~= Seq::<char>::empty());
        assert(package_lines(s.drop_last()) =~= Seq::<char>::empty());
        assert(package_lines(s) =~= "    "@ + s[0] + "\n"@ + package_lines(t));
    } else {
        lemma_package_lines_front(s.drop_last());
        assert(s.drop_last().drop_first() =~= t.drop_last());
        assert(t.last() == s.last());
        assert(package_lines(s) =~= "    "@ + s[0] + "\n"@ + package_lines(t));
    }
}

/// The lines of a text that starts with a line.
pub proof fn lemma_lines_front(a: Seq<char>, rest: Seq<char>)
    requires
        forall|i: int| 0 <= i < a.len() ==> a[i] != '\n',
    ensures
        lines(a + "\n"@ + rest) == seq![strip_cr(a)] + lines(rest),
{
    reveal_strlit("\n");
    let s = a + "\n"@ + rest;
    lemma_until_is(s, '\n', a.len() as int);
    assert(s.take(a.len() as int) =~= a);
    assert(s.skip(a.len() as int + 1) =~= rest);
}

proof fn lemma_tokens_front(l: Seq<char>, ls: Seq<Seq<char>>)
    ensures
        line_tokens(seq![l] + ls) == clean(words(before_comment(l))) + line_tokens(ls),
    decreases ls.len(),
{
    let all = seq![l] + ls;
    let here = clean(words(before_comment(l)));
    if ls.len() == 0 {
        assert(all.drop_last() =~= Seq::<Seq<char>>::empty());
        assert(all.last() == l);
        assert(line_tokens(ls) =~= Seq::<Seq<char>>::empty());
        assert(line_tokens(all.drop_last()) =~= Seq::<Seq<char>>::empty());
        assert(line_tokens(all) =~= here + line_tokens(ls));
    } else {
        lemma_tokens_front(l, ls.drop_last());
        assert(all.drop_last() =~= seq![l] + ls.drop_last());
        assert(all.last() == ls.last());
        assert(line_tokens(all) =~= here + line_tokens(ls));
    }
}

/// Four spaces and a package are read as that package.
proof fn lemma_entry_line(p: Seq<char>)
    requires
        simple_attr_path(p),
    ensures
        clean(words(before_comment("    "@ + p))) == seq![p],
{
    reveal_strlit("    ");
    lemma_simple_chars(p);
    let l = "    "@ + p;
    assert forall|i: int| 0 <= i < l.len() implies l[i] != '#' by {
        if i >= 4 {
            assert(in_path(p[i - 4]));
        }
    }
    lemma_until_is(l, '#', l.len() as int);
    assert(before_comment(l) =~= l);
    assert(l.drop_first().drop_first().drop_first().drop_first() =~= p);
    assert(in_path(p[0]));
    assert forall|i: int| 0 <= i < p.len() implies !is_space(p[i]) by {
        assert(in_path(p[i]));
    }
    lemma_word_len_is(p, p.len() as int);
    assert(p.take(p.len() as int) =~= p);
    assert(p.skip(p.len() as int) =~= Seq::<char>::empty());
    assert(words(p.skip(p.len() as int)) =~= Seq::<Seq<char>>::empty());
    assert(words(p) =~= seq![p]);
    assert(words(l) == words(p)) by {
        reveal_with_fuel(words, 5);
    }
    assert(in_path(p[p.len() - 1]));
    let one = seq![p];
    assert(one.drop_last() =~= Seq::<Seq<char>>::empty());
    assert(clean(one.drop_last()) =~= Seq::<Seq<char>>::empty());
    assert(strip_commas(p) == p);
    assert(clean(one) =~= one);
}

proof fn lemma_package_tokens(u: Seq<Seq<char>>)
    requires
        all_simple(u),
    ensures
        line_tokens(lines(package_lines(u) + "  "@)) == u,
    decreases u.len(),
{
    reveal_strlit("  ");
    if u.len() == 0 {
        let s = package_lines(u) + "  "@;
        assert(s =~= "  "@);
        lemma_until_is(s, '\n', 2);
        lemma_until_is(s, '#', 2);
        assert(lines(s) =~= seq![s]);
        assert(before_comment(s) =~= s);
        lemma_words_blank(s);
        lemma_tokens_front(s, Seq::empty());
        assert(seq![s] + Seq::<Seq<char>>::empty() =~= seq![s]);
        assert(line_tokens(lines(s)) =~= u);
    } else {
        let t = u.drop_first();
        assert forall|i: int| 0 <= i < t.len() implies simple_attr_path(#[trigger] t[i]) by {
            assert(t[i] == u[i + 1]);
        }
        lemma_package_tokens(t);
        lemma_package_lines_front(u);
        assert(simple_attr_path(u[0]));
        lemma_simple_chars(u[0]);
        let l = "    "@ + u[0];
        let rest = package_lines(t) + "  "@;
        reveal_strlit("    ");
        assert forall|i: int| 0 <= i < l.len() implies l[i] != '\n' && l[i] != '\r' by {
            if i >= 4 {
                assert(in_path(u[0][i - 4]));
            }
        }
        assert(package_lines(u) + "  "@ =~= l + "\n"@ + rest);
        lemma_lines_front(l, rest);
        assert(l.last() == l[l.len() - 1]);
        assert(strip_cr(l) == l);
        lemma_tokens_front(l, lines(rest));
        lemma_entry_line(u[0]);
        assert(seq![u[0]] + t =~= u);
    }
}

/// A rendered package list is read back as the packages, sorted and without duplicates.
pub proof fn rendered_list_reads_back(pkgs: Seq<Seq<char>>)
    requires
        all_simple(pkgs),
    ensures
        read_list(list_inner(pkgs)) == Ok::<Seq<Seq<char>>, ErrorView>(unique(pkgs)),
{
    let u = unique(pkgs);
    lemma_unique(pkgs);
    assert forall|i: int| 0 <= i < u.len() implies simple_attr_path(#[trigger] u[i]) by {
        assert(u.contains(u[i]));
        assert(pkgs.contains(u[i]));
    }
    let body = package_lines(u) + "  "@;
    let e = Seq::<char>::empty();
    assert(list_inner(pkgs) =~= e + "\n"@ + body);
    lemma_lines_front(e, body);
    assert(strip_cr(e) == e);
    lemma_tokens_front(e, lines(body));
    assert(before_comment(e) =~= e);
    lemma_words_blank(e);
    lemma_package_tokens(u);
    assert(tokens(list_inner(pkgs)) =~= u);
    read_list_accepts_exactly_plain_lists(list_inner(pkgs));
}

// ---------------------------------------------------------------------------
// Finding the list again
// ---------------------------------------------------------------------------

/// `c` stands nowhere in `s`.
pub open spec fn lacks(s: Seq<char>, c: char) -> bool {
    forall|i: int| 0 <= i < s.len() ==> #[trigger] s[i] != c
}

/// No `[` follows a marker: the first `[` behind the first marker of a text that goes on from
/// here is one that is still to come.
pub open spec fn decoy_free(s: Seq<char>) -> bool {
    forall|i: int, j: int|
        #![trigger occurs_at(s, MARKER@, i), s[j]]
        occurs_at(s, MARKER@, i) && i <= j < s.len() ==> s[j] != '['
}

proof fn lemma_marker_chars()
    ensures
        MARKER@.len() == 26,
        lacks(MARKER@, '['),
        lacks(MARKER@, '='),
        MARKER@[0] == 'e',
        MARKER@[24] == 'e',
{
    reveal_strlit("environment.systemPackages");
}

proof fn lemma_opening_chars()
    ensures
        " = with pkgs; ["@.len() == 15,
        forall|i: int| 0 <= i < 14 ==> " = with pkgs; ["@[i] != '[',
        " = with pkgs; ["@[14] == '[',
        forall|i: int| 2 <= i < 15 ==> " = with pkgs; ["@[i] != '=',
        " = with pkgs; ["@[0] == ' ',
{
    reveal_strlit(" = with pkgs; [");
}

proof fn lemma_list_chars(pkgs: Seq<Seq<char>>)
    requires
        all_simple(pkgs),
    ensures
        lacks(list_inner(pkgs), '['),
        lacks(list_inner(pkgs), ']'),
        lacks(list_inner(pkgs), '='),
{
    let u = unique(pkgs);
    lemma_unique(pkgs);
    assert forall|i: int| 0 <= i < u.len() implies simple_attr_path(#[trigger] u[i]) by {
        assert(u.contains(u[i]));
        assert(pkgs.contains(u[i]));
    }
    lemma_package_chars(u);
    reveal_strlit("\n");
    reveal_strlit("  ");
}

proof fn lemma_package_chars(u: Seq<Seq<char>>)
    requires
        all_simple(u),
    ensures
        lacks(package_lines(u), '['),
        lacks(package_lines(u), ']'),
        lacks(package_lines(u), '='),
    decreases u.len(),
{
    if u.len() > 0 {
        let t = u.drop_last();
        assert forall|i: int| 0 <= i < t.len() implies simple_attr_path(#[trigger] t[i]) by {
            assert(t[i] == u[i]);
        }
        lemma_package_chars(t);
        assert(simple_attr_path(u[u.len() - 1]));
        lemma_simple_chars(u.last());
        reveal_strlit("    ");
        reveal_strlit("\n");
        let a = package_lines(t);
        let b = u.last();
        let all = package_lines(u);
        assert forall|i: int| 0 <= i < all.len() implies #[trigger] all[i] != '[' && all[i] != ']'
            && all[i] != '=' by {
            if i < a.len() {
                assert(all[i] == a[i]);
            } else if a.len() + 4 <= i < a.len() + 4 + b.len() {
                assert(all[i] == b[i - a.len() - 4]);
                assert(in_path(b[i - a.len() - 4]));
            }
        }
    }
}

proof fn lemma_close_plain(s: Seq<char>, open: char, close: char, i: int, depth: int, n: int)
    requires
        0 <= i,
        0 <= n,
        i + n <= s.len(),
        forall|j: int| i <= j < i + n ==> s[j] != open && s[j] != close,
    ensures
        close_from(s, open, close, i, depth) == close_from(s, open, close, i + n, depth),
    decreases n,
{
    if n > 0 {
        lemma_close_plain(s, open, close, i + 1, depth, n - 1);
    }
}

proof fn lemma_list_at(t: Seq<char>, n: int, p: int, q: int)
    requires
        0 <= n < p < q < t.len(),
        occurs_at(t, MARKER@, n),
        forall|m: int, j: int|
            #![trigger occurs_at(t, MARKER@, m), t[j]]
            occurs_at(t, MARKER@, m) && m <= j < n ==> t[j] != '[',
        forall|j: int| n <= j < p ==> t[j] != '[',
        t[p] == '[',
        forall|j: int| p < j < q ==> t[j] != '[' && t[j] != ']',
        t[q] == ']',
    ensures
        find_from(t, MARKER@, 0) is Some,
        list_span(t) == Some((p, q)),
{
    lemma_find_from(t, MARKER@, 0);
    let m = find_from(t, MARKER@, 0)->0;
    lemma_char_from_is(t, '[', m, p);
    lemma_close_plain(t, '[', ']', p + 1, 1, q - p - 1);
}

/// A text made of a head without decoys, a marker and a list has that list.
pub proof fn lemma_list_span(head: Seq<char>, inner: Seq<char>, tail: Seq<char>)
    requires
        decoy_free(head),
        lacks(inner, '['),
        lacks(inner, ']'),
        tail.len() > 0,
        tail[0] == ']',
    ensures
        ({
            let t = head + MARKER@ + " = with pkgs; ["@ + inner + tail;
            let p = head.len() as int + 40;
            &&& find_from(t, MARKER@, 0) is Some
            &&& list_span(t) == Some((p, p + 1 + inner.len()))
            &&& t.subrange(p + 1, p + 1 + inner.len()) == inner
        }),
{
    let opening = " = with pkgs; ["@;
    let t = head + MARKER@ + opening + inner + tail;
    let n = head.len() as int;
    let p = n + 40;
    let q = p + 1 + inner.len();
    lemma_marker_chars();
    lemma_opening_chars();
    assert(t.subrange(n, n + 26) =~= MARKER@);
    assert(t.take(n) =~= head);
    assert(t.subrange(n + 26, p + 1) =~= opening);
    assert(t.subrange(p + 1, q) =~= inner);
    assert(t[q] == tail[0]);
    assert(occurs_at(t, MARKER@, n));
    assert forall|m: int, j: int|
        #![trigger occurs_at(t, MARKER@, m), t[j]]
        occurs_at(t, MARKER@, m) && m <= j < n implies t[j] != '[' by {
        if m + 26 <= n {
            assert(head.subrange(m, m + 26) =~= t.subrange(m, m + 26));
            assert(occurs_at(head, MARKER@, m));
            assert(t[j] == head[j]);
        } else {
            assert(t.subrange(m, m + 26)[j - m] == MARKER@[j - m]);
        }
    }
    assert forall|j: int| n <= j < p implies t[j] != '[' by {
        if j >= n + 26 {
            assert(t[j] == t.subrange(n + 26, p + 1)[j - n - 26]);
        } else {
            assert(t[j] == t.subrange(n, n + 26)[j - n]);
        }
    }
    assert(t[p] == t.subrange(n + 26, p + 1)[14]);
    assert forall|j: int| p < j < q implies t[j] != '[' && t[j] != ']' by {
        assert(t[j] == t.subrange(p + 1, q)[j - p - 1]);
    }
    lemma_list_at(t, n, p, q);
}

// ---------------------------------------------------------------------------
// Files without GitHub sources
// ---------------------------------------------------------------------------

/// The category that a file gives whose list was written for the category `c`.
pub open spec fn reread(c: CategoryView, text: Seq<char>) -> CategoryView {
    CategoryView {
        name: c.name,
        path: c.path,
        packages: unique(c.packages),
        github: sorted_sources(c.github),
        raw: text,
    }
}

proof fn lemma_gh_chars()
    ensures
        GH_MARKER@.len() == 9,
        GH_MARKER@ == seq!['g', 'h', 'P', 'k', 'g', 's', ' ', '=', ' '],
{
    reveal_strlit("ghPkgs = ");
    assert(GH_MARKER@ =~= seq!['g', 'h', 'P', 'k', 'g', 's', ' ', '=', ' ']);
}

proof fn lemma_gh_at(s: Seq<char>, j: int)
    requires
        occurs_at(s, GH_MARKER@, j),
    ensures
        j + 9 <= s.len(),
        s[j] == 'g',
        s[j + 1] == 'h',
        s[j + 2] == 'P',
        s[j + 3] == 'k',
        s[j + 4] == 'g',
        s[j + 5] == 's',
        s[j + 6] == ' ',
        s[j + 7] == '=',
        s[j + 8] == ' ',
        forall|i: int| j <= i < j + 9 ==> s[i] != '[' && s[i] != ']',
{
    lemma_gh_chars();
    let w = s.subrange(j, j + 9);
    assert(w == GH_MARKER@);
    assert(w[0] == s[j] && w[1] == s[j + 1] && w[2] == s[j + 2] && w[3] == s[j + 3] && w[4] == s[j
        + 4] && w[5] == s[j + 5] && w[6] == s[j + 6] && w[7] == s[j + 7] && w[8] == s[j + 8]);
    assert forall|i: int| j <= i < j + 9 implies s[i] != '[' && s[i] != ']' by {
        assert(s[i] == w[i - j]);
    }
}

/// Putting a list of packages between the brackets of a file does not make GitHub sources of it.
proof fn lemma_patch_no_sources(raw: Seq<char>, span: (int, int), inner: Seq<char>)
    requires
        !contains(raw, GH_MARKER@),
        0 <= span.0 < span.1 < raw.len(),
        raw[span.0] == '[',
        raw[span.1] == ']',
        lacks(inner, '='),
    ensures
        !contains(with_inner(raw, span, inner), GH_MARKER@),
{
    let t = with_inner(raw, span, inner);
    let (p, q) = span;
    let l = inner.len() as int;
    if contains(t, GH_MARKER@) {
        let j = choose|j: int| occurs_at(t, GH_MARKER@, j);
        lemma_gh_chars();
        lemma_gh_at(t, j);
        assert(t[p] == '[');
        assert(t[p + 1 + l] == raw[q]);
        if j + 9 <= p {
            assert(raw.subrange(j, j + 9) =~= t.subrange(j, j + 9));
            assert(occurs_at(raw, GH_MARKER@, j));
        } else if j > p + 1 + l {
            let k = j - (p + 1 + l) + q;
            assert(raw.subrange(k, k + 9) =~= t.subrange(j, j + 9));
            assert(occurs_at(raw, GH_MARKER@, k));
        } else {
            assert(p < j && j + 9 <= p + 1 + l);
            assert(t[j + 7] == inner[j + 7 - p - 1]);
        }
    }
}

/// Writing a category without GitHub sources keeps every character outside the brackets of its
/// package list.
pub proof fn rendering_keeps_the_rest_of_the_file(c: CategoryView)
    requires
        c.github.len() == 0,
        !contains(c.raw, GH_MARKER@),
        list_span(c.raw) is Some,
    ensures
        ({
            let span = list_span(c.raw)->0;
            let text = rendered(c)->Ok_0;
            &&& rendered(c) is Ok
            &&& 0 <= span.0 < span.1 < c.raw.len()
            &&& text.take(span.0 + 1) == c.raw.take(span.0 + 1)
            &&& text.skip(span.0 + 1 + list_inner(c.packages).len()) == c.raw.skip(span.1)
        }),
{
    let m = find_from(c.raw, MARKER@, 0)->0;
    lemma_find_from(c.raw, MARKER@, 0);
    lemma_block(c.raw, '[', ']', m);
    let span = list_span(c.raw)->0;
    let text = rendered(c)->Ok_0;
    assert(text.take(span.0 + 1) =~= c.raw.take(span.0 + 1));
    assert(text.skip(span.0 + 1 + list_inner(c.packages).len()) =~= c.raw.skip(span.1));
}

/// `inner` stands between the brackets of the package list of `text`.
pub open spec fn lists(text: Seq<char>, inner: Seq<char>) -> bool {
    list_span(text) matches Some(span) && 0 <= span.0 < span.1 < text.len() && text.subrange(
        span.0 + 1,
        span.1,
    ) == inner
}

/// A category without GitHub sources whose file keeps everything but its list is read back as it
/// was, with its packages sorted and without duplicates.
pub proof fn patched_file_reads_back(c: CategoryView)
    requires
        c.github.len() == 0,
        !contains(c.raw, GH_MARKER@),
        list_span(c.raw) is Some,
        all_simple(c.packages),
    ensures
        rendered(c) is Ok,
        read_category(c.name, c.path, rendered(c)->Ok_0) == Ok::<CategoryView, ErrorView>(
            reread(c, rendered(c)->Ok_0),
        ),
        lists(rendered(c)->Ok_0, list_inner(c.packages)),
        !contains(rendered(c)->Ok_0, GH_MARKER@),
{
    let raw = c.raw;
    let inner = list_inner(c.packages);
    let m = find_from(raw, MARKER@, 0)->0;
    lemma_find_from(raw, MARKER@, 0);
    lemma_block(raw, '[', ']', m);
    lemma_char_from(raw, '[', m);
    let (p, q) = list_span(raw)->0;
    let t = rendered(c)->Ok_0;
    let l = inner.len() as int;
    lemma_marker_chars();
    lemma_list_chars(c.packages);
    assert(m + 26 <= p) by {
        if m + 26 > p {
            assert(raw.subrange(m, m + 26)[p - m] == MARKER@[p - m]);
        }
    }
    assert(t.subrange(m, m + 26) =~= raw.subrange(m, m + 26));
    assert forall|j: int| 0 <= j < m implies !occurs_at(t, MARKER@, j) by {
        if occurs_at(t, MARKER@, j) {
            assert(raw.subrange(j, j + 26) =~= t.subrange(j, j + 26));
            assert(occurs_at(raw, MARKER@, j));
        }
    }
    lemma_find_is(t, MARKER@, 0, m);
    assert forall|j: int| m <= j < p implies t[j] != '[' by {
        assert(t[j] == raw[j]);
    }
    lemma_char_from_is(t, '[', m, p);
    assert forall|j: int| p + 1 <= j < p + 1 + l implies t[j] != '[' && t[j] != ']' by {
        assert(t[j] == inner[j - p - 1]);
    }
    lemma_close_plain(t, '[', ']', p + 1, 1, l);
    assert(t[p + 1 + l] == raw[q]);
    assert(t.subrange(p + 1, p + 1 + l) =~= inner);
    rendered_list_reads_back(c.packages);
    lemma_patch_no_sources(raw, (p, q), inner);
    lemma_find_from(t, GH_MARKER@, 0);
    assert(c.github =~= Seq::empty());
    assert(sorted_sources(c.github) =~= Seq::empty());
}

/// A text with a head, a marker and a list declares no GitHub sources where the head declares
/// none.
proof fn lemma_plain_no_sources(head: Seq<char>, inner: Seq<char>)
    requires
        !contains(head, GH_MARKER@),
        lacks(inner, '='),
    ensures
        !contains(head + MARKER@ + " = with pkgs; ["@ + inner + "];\n}\n"@, GH_MARKER@),
{
    let t = head + MARKER@ + " = with pkgs; ["@ + inner + "];\n}\n"@;
    let n = head.len() as int;
    if contains(t, GH_MARKER@) {
        let j = choose|j: int| occurs_at(t, GH_MARKER@, j);
        lemma_gh_at(t, j);
        lemma_gh_chars();
        lemma_marker_chars();
        lemma_opening_chars();
        reveal_strlit("];\n}\n");
        let e = j + 7;
        if j + 9 <= n {
            assert(head.subrange(j, j + 9) =~= t.subrange(j, j + 9));
            assert(occurs_at(head, GH_MARKER@, j));
        } else if e < n {
            assert(t[j + 8] == MARKER@[0]);
        } else if e < n + 26 {
            assert(t[e] == MARKER@[e - n]);
        } else if e < n + 41 {
            assert(t[e] == " = with pkgs; ["@[e - n - 26]);
            assert(e == n + 27);
            assert(t[j + 4] == MARKER@[24]);
        } else if e < n + 41 + inner.len() {
            assert(t[e] == inner[e - n - 41]);
        } else {
            assert(t[e] == "];\n}\n"@[e - n - 41 - inner.len()]);
        }
    }
}

/// The name of a category leaves the head of its file without a decoy and without sources.
pub open spec fn plain_name(name: Seq<char>) -> bool {
    decoy_free(plain_head(name)) && !contains(plain_head(name), GH_MARKER@)
}

/// A file that is made anew without GitHub sources declares the packages, sorted and without
/// duplicates, and no sources.
pub proof fn plain_file_reads_back(name: Seq<char>, path: Seq<char>, pkgs: Seq<Seq<char>>)
    requires
        plain_name(name),
        all_simple(pkgs),
    ensures
        ({
            let t = plain_text(name, list_inner(pkgs));
            &&& !contains(t, GH_MARKER@)
            &&& lists(t, list_inner(pkgs))
            &&& read_category(name, path, t) == Ok::<CategoryView, ErrorView>(
                CategoryView { name, path, packages: unique(pkgs), github: Seq::empty(), raw: t },
            )
        }),
{
    let inner = list_inner(pkgs);
    let t = plain_text(name, inner);
    reveal_strlit("];\n}\n");
    lemma_list_chars(pkgs);
    lemma_list_span(plain_head(name), inner, "];\n}\n"@);
    rendered_list_reads_back(pkgs);
    lemma_plain_no_sources(plain_head(name), inner);
    lemma_find_from(t, GH_MARKER@, 0);
    lemma_find_from(t, MARKER@, 0);
    lemma_block(t, '[', ']', find_from(t, MARKER@, 0)->0);
}

// ---------------------------------------------------------------------------
// The lines of GitHub sources
// ---------------------------------------------------------------------------

/// A source that a line of a category file can declare.
pub open spec fn fits(s: SourceView) -> bool {
    &&& is_segment(s.name)
    &&& filled_without(s.owner, '/')
    &&& filled_without(s.repo, '/')
    &&& lacks(s.owner, '"')
    &&& lacks(s.repo, '"')
    &&& lacks(s.owner, '\n')
    &&& lacks(s.repo, '\n')
    &&& is_commit(s.rev)
    &&& is_output(s.attr)
    &&& s.git_ref matches Some(r) ==> is_word(r)
}

/// Every source can be declared.
pub open spec fn all_fit(v: Seq<SourceView>) -> bool {
    forall|i: int| 0 <= i < v.len() ==> fits(#[trigger] v[i])
}

proof fn lemma_trim_indent(x: Seq<char>)
    requires
        x.len() > 0,
        !is_space(x[0]),
        !is_space(x.last()),
    ensures
        trim("    "@ + x) == x,
{
    reveal_strlit("    ");
    let s = "    "@ + x;
    assert(s.drop_first().drop_first().drop_first().drop_first() =~= x);
    assert(trim_start(s) == x) by {
        reveal_with_fuel(trim_start, 5);
    }
}

/// The declaration itself, without indentation and line end.
spec fn declaration(s: SourceView) -> Seq<char> {
    s.name + " = (builtins.getFlake \""@ + flake_ref(s) + "\").packages.${pkgs.system}."@ + s.attr
        + ";"@
}

proof fn lemma_declaration(s: SourceView)
    requires
        fits(s),
    ensures
        declaration(s).len() > 0,
        !is_space(declaration(s)[0]),
        declaration(s)[0] != '#',
        declaration(s).last() == ';',
        lacks(declaration(s), '\n'),
        entry_fields(declaration(s)) == Some((s.name, flake_ref(s), s.attr)),
        flake_fields(flake_ref(s)) == Some((s.owner, s.repo, s.rev)),
{
    let d = declaration(s);
    let u = flake_ref(s);
    reveal_strlit(" = (builtins.getFlake \"");
    reveal_strlit("\").packages.${pkgs.system}.");
    reveal_strlit(";");
    reveal_strlit("=");
    reveal_strlit(" ");
    reveal_strlit("(builtins.getFlake");
    reveal_strlit("\"");
    reveal_strlit("github:");
    reveal_strlit("/");
    assert(starts_segment(s.name[0]));
    assert(d[0] == s.name[0]);
    assert(u =~= "github:"@ + (s.owner + ("/"@ + (s.repo + ("/"@ + s.rev)))));
    assert(is_flake(u, s.owner, s.repo, s.rev));
    lemma_flake_fields(u, s.owner, s.repo, s.rev);
    assert(lacks(u, '"') && lacks(u, '\n')) by {
        assert forall|i: int| 0 <= i < u.len() implies #[trigger] u[i] != '"' && u[i] != '\n' by {
            let a = 7 + s.owner.len() as int;
            let b = a + 1 + s.repo.len() as int;
            if 7 <= i < a {
                assert(u[i] == s.owner[i - 7]);
            } else if a < i < b {
                assert(u[i] == s.repo[i - a - 1]);
            } else if i > b {
                assert(u[i] == s.rev[i - b - 1]);
                assert(is_hex(s.rev[i - b - 1]));
            }
        }
    }
    assert(filled_without(u, '"'));
    let e = Seq::<char>::empty();
    assert(entry_text(s.name, " "@, " "@, " "@, u, s.attr, e) =~= d);
    assert(is_entry(d, s.name, u, s.attr));
    lemma_entry_fields(d, s.name, u, s.attr);
    assert forall|i: int| 0 <= i < d.len() implies #[trigger] d[i] != '\n' by {
        let a = s.name.len() as int;
        let b = a + " = (builtins.getFlake \""@.len();
        let c = b + u.len();
        let f = c + "\").packages.${pkgs.system}."@.len();
        let g = f + s.attr.len();
        if i < a {
            assert(d[i] == s.name[i]);
            if i > 0 {
                assert(in_segment(s.name[i]));
            }
        } else if b <= i < c {
            assert(d[i] == u[i - b]);
        } else if f <= i < g {
            assert(d[i] == s.attr[i - f]);
            if i > f {
                assert(in_segment(s.attr[i - f]) || s.attr[i - f] == '.');
            }
        }
    }
}

proof fn lemma_no_ref(line: Seq<char>)
    requires
        line.len() > 0,
        line[0] != '#',
    ensures
        ref_field(line) is None,
{
    reveal_strlit("#");
    if exists|r: Seq<char>| is_ref(line, r) {
        let r = choose|r: Seq<char>| is_ref(line, r);
        let (w1, w2) = choose|w1: Seq<char>, w2: Seq<char>|
            #[trigger] ref_text(w1, w2, r) == line && blank(w1) && blank(w2);
        assert(line[0] == '#');
    }
}

/// The line of a declaration, with what was remembered above it, is read as the source.
proof fn lemma_read_declaration(s: SourceView, rest: Seq<char>)
    requires
        fits(s),
    ensures
        read_sources(lines("    "@ + declaration(s) + "\n"@ + rest), s.git_ref) == prepend(
            seq![s],
            read_sources(lines(rest), None),
        ),
{
    reveal_strlit("    ");
    let d = declaration(s);
    lemma_declaration(s);
    let l = "    "@ + d;
    assert forall|i: int| 0 <= i < l.len() implies l[i] != '\n' by {
        if i >= 4 {
            assert(l[i] == d[i - 4]);
        }
    }
    lemma_lines_front(l, rest);
    assert(strip_cr(l) == l);
    lemma_trim_indent(d);
    lemma_no_ref(d);
    let ls = seq![l] + lines(rest);
    assert(ls[0] == l);
    assert(ls.drop_first() =~= lines(rest));
}

/// The lines of a source are read as the source.
proof fn lemma_read_source(s: SourceView, rest: Seq<char>)
    requires
        fits(s),
    ensures
        read_sources(lines(source_lines(s) + rest), None) == prepend(
            seq![s],
            read_sources(lines(rest), None),
        ),
{
    reveal_strlit(";\n");
    reveal_strlit(";");
    reveal_strlit("\n");
    let entry = "    "@ + declaration(s) + "\n"@ + rest;
    lemma_read_declaration(s, rest);
    match s.git_ref {
        None => {
            assert(source_lines(s) + rest =~= entry);
        },
        Some(r) => {
            reveal_strlit("    # nixlayer-source-ref: ");
            reveal_strlit("    ");
            reveal_strlit("#");
            reveal_strlit(" ");
            reveal_strlit("nixlayer-source-ref:");
            let note = ref_text(" "@, " "@, r);
            let l = "    "@ + note;
            assert("    # nixlayer-source-ref: "@ + r =~= l);
            assert(source_lines(s) + rest =~= l + "\n"@ + entry);
            assert(is_ref(note, r));
            lemma_ref_field(note, r);
            assert(note.last() == r.last());
            assert(!is_space(r[r.len() - 1]));
            assert(note[0] == '#');
            lemma_trim_indent(note);
            assert forall|i: int| 0 <= i < l.len() implies l[i] != '\n' by {
                if i >= 27 {
                    assert(l[i] == r[i - 27]);
                    assert(!is_space(r[i - 27]));
                }
            }
            lemma_lines_front(l, entry);
            assert(l.last() == r.last());
            assert(strip_cr(l) == l);
            let ls = seq![l] + lines(entry);
            assert(ls[0] == l);
            assert(ls.drop_first() =~= lines(entry));
        },
    }
}

proof fn lemma_all_source_lines_front(v: Seq<SourceView>)
    requires
        v.len() > 0,
    ensures
        all_source_lines(v) == source_lines(v[0]) + all_source_lines(v.drop_first()),
    decreases v.len(),
{
    let t = v.drop_first();
    if v.len() == 1 {
        assert(v.drop_last() =~= Seq::<SourceView>::empty());
        assert(all_source_lines(t) =~= Seq::<char>::empty());
        assert(all_source_lines(v.drop_last()) =~= Seq::<char>::empty());
        assert(all_source_lines(v) =~= source_lines(v[0]) + all_source_lines(t));
    } else {
        lemma_all_source_lines_front(v.drop_last());
        assert(v.drop_last().drop_first() =~= t.drop_last());
        assert(t.last() == v.last());
        assert(all_source_lines(v) =~= source_lines(v[0]) + all_source_lines(t));
    }
}

proof fn lemma_read_all_sources(v: Seq<SourceView>)
    requires
        all_fit(v),
    ensures
        read_sources(lines(all_source_lines(v) + "  "@), None) == Ok::<Seq<SourceView>, Seq<char>>(v),
    decreases v.len(),
{
    if v.len() == 0 {
        reveal_strlit("  ");
        let s = all_source_lines(v) + "  "@;
        assert(s =~= "  "@);
        lemma_until_is(s, '\n', 2);
        assert(lines(s) =~= seq![s]);
        assert(trim_start(s) =~= Seq::<char>::empty()) by {
            reveal_with_fuel(trim_start, 3);
            assert(s.drop_first().drop_first() =~= Seq::<char>::empty());
        }
        assert(trim(s).len() == 0);
        assert(seq![s].drop_first() =~= Seq::<Seq<char>>::empty());
        assert(v =~= Seq::<SourceView>::empty());
        assert(read_sources(seq![s].drop_first(), None) == Ok::<Seq<SourceView>, Seq<char>>(v));
    } else {
        let t = v.drop_first();
        assert forall|i: int| 0 <= i < t.len() implies fits(#[trigger] t[i]) by {
            assert(t[i] == v[i + 1]);
        }
        lemma_read_all_sources(t);
        lemma_all_source_lines_front(v);
        let rest = all_source_lines(t) + "  "@;
        assert(all_source_lines(v) + "  "@ =~= source_lines(v[0]) + rest);
        assert(fits(v[0]));
        lemma_read_source(v[0], rest);
        assert(seq![v[0]] + t =~= v);
    }
}

/// The lines of some sources are read back as those sources.
pub proof fn rendered_sources_read_back(v: Seq<SourceView>)
    requires
        all_fit(v),
    ensures
        read_sources(lines("\n"@ + all_source_lines(v) + "  "@), None) == Ok::<
            Seq<SourceView>,
            Seq<char>,
        >(v),
{
    let e = Seq::<char>::empty();
    let body = all_source_lines(v) + "  "@;
    assert("\n"@ + all_source_lines(v) + "  "@ =~= e + "\n"@ + body);
    lemma_lines_front(e, body);
    let ls = seq![strip_cr(e)] + lines(body);
    assert(ls[0] == e);
    assert(ls.drop_first() =~= lines(body));
    assert(trim(e).len() == 0);
    lemma_read_all_sources(v);
}

// ---------------------------------------------------------------------------
// Files with GitHub sources
// ---------------------------------------------------------------------------

/// How many more brackets `s` opens than it closes.
pub open spec fn level(s: Seq<char>, open: char, close: char) -> int
    decreases s.len(),
{
    if s.len() == 0 {
        0
    } else if s.last() == open {
        level(s.drop_last(), open, close) + 1
    } else if s.last() == close {
        level(s.drop_last(), open, close) - 1
    } else {
        level(s.drop_last(), open, close)
    }
}

/// Every bracket of `s` is closed in `s`, and none that was not opened there.
pub open spec fn nested(s: Seq<char>, open: char, close: char) -> bool {
    &&& forall|n: int| 0 <= n <= s.len() ==> level(#[trigger] s.take(n), open, close) >= 0
    &&& level(s, open, close) == 0
}

proof fn lemma_close_over(
    t: Seq<char>,
    open: char,
    close: char,
    i: int,
    g: Seq<char>,
    depth: int,
    n: int,
)
    requires
        open != close,
        0 <= i,
        i + g.len() <= t.len(),
        t.subrange(i, i + g.len()) == g,
        0 <= n <= g.len(),
        depth >= 1,
        nested(g, open, close),
    ensures
        close_from(t, open, close, i, depth) == close_from(
            t,
            open,
            close,
            i + n,
            depth + level(g.take(n), open, close),
        ),
    decreases n,
{
    if n == 0 {
        assert(g.take(0).len() == 0);
    } else {
        lemma_close_over(t, open, close, i, g, depth, n - 1);
        assert(g.take(n).drop_last() =~= g.take(n - 1));
        assert(g.take(n).last() == g[n - 1]);
        assert(t[i + n - 1] == g[n - 1]) by {
            assert(t.subrange(i, i + g.len())[n - 1] == t[i + n - 1]);
        }
        assert(level(g.take(n), open, close) >= 0);
        assert(level(g.take(n - 1), open, close) >= 0);
    }
}

/// The brackets around a nested text match.
pub proof fn lemma_close_nested(t: Seq<char>, open: char, close: char, i: int, g: Seq<char>)
    requires
        open != close,
        0 <= i,
        i + g.len() < t.len(),
        t.subrange(i, i + g.len()) == g,
        nested(g, open, close),
        t[i + g.len()] == close,
    ensures
        close_from(t, open, close, i, 1) == Some(i + g.len()),
{
    lemma_close_over(t, open, close, i, g, 1, g.len() as int);
    assert(g.take(g.len() as int) =~= g);
}

/// What the head of a file with GitHub sources needs: the first marker of sources and the first
/// list behind a marker of packages are the ones that belong there, and the lines `gh` of the
/// sources close the braces that they open.
pub open spec fn github_head_clear(name: Seq<char>, gh: Seq<char>) -> bool {
    &&& !contains(HEAD@ + name + GH_NOTE@, GH_MARKER@)
    &&& nested("\n"@ + gh + "  "@, '{', '}')
    &&& decoy_free(github_head(name, gh))
}

/// The marker of sources overlaps itself nowhere.
proof fn lemma_gh_apart(t: Seq<char>, j: int, n: int)
    requires
        occurs_at(t, GH_MARKER@, j),
        occurs_at(t, GH_MARKER@, n),
        j < n,
    ensures
        j + 9 <= n,
{
    lemma_gh_at(t, j);
    lemma_gh_at(t, n);
    if n == j + 4 {
        assert(t[n + 1] == t[j + 5]);
    }
}

proof fn lemma_first_gh(front: Seq<char>, rest: Seq<char>)
    requires
        !contains(front, GH_MARKER@),
    ensures
        find_from(front + GH_MARKER@ + rest, GH_MARKER@, 0) == Some(front.len() as int),
{
    let t = front + GH_MARKER@ + rest;
    let n = front.len() as int;
    assert(GH_MARKER@.len() == 9) by {
        lemma_gh_chars();
    }
    assert(t.subrange(n, n + 9) =~= GH_MARKER@);
    assert(occurs_at(t, GH_MARKER@, n));
    assert forall|j: int| 0 <= j < n implies !occurs_at(t, GH_MARKER@, j) by {
        if occurs_at(t, GH_MARKER@, j) {
            lemma_gh_apart(t, j, n);
            assert(front.subrange(j, j + 9) =~= t.subrange(j, j + 9));
            assert(occurs_at(front, GH_MARKER@, j));
        }
    }
    lemma_find_is(t, GH_MARKER@, 0, n);
}

proof fn lemma_github_block(name: Seq<char>, gh: Seq<char>, after: Seq<char>, path: Seq<char>)
    requires
        !contains(HEAD@ + name + GH_NOTE@, GH_MARKER@),
        nested("\n"@ + gh + "  "@, '{', '}'),
        contains(github_head(name, gh) + after, GH_SUFFIX@),
    ensures
        read_github(path, github_head(name, gh) + after) == match read_sources(
            lines("\n"@ + gh + "  "@),
            None,
        ) {
            Ok(v) => Ok::<Seq<SourceView>, ErrorView>(v),
            Err(m) => Err(ErrorView::UnparseableCategoryFile(path, m)),
        },
{
    let front = HEAD@ + name + GH_NOTE@;
    let g = "\n"@ + gh + "  "@;
    let t = github_head(name, gh) + after;
    let rest = "{\n"@ + gh + "  };\nin\n{\n  "@ + after;
    let n = front.len() as int;
    reveal_strlit("{\n");
    reveal_strlit("\n");
    reveal_strlit("  ");
    reveal_strlit("  };\nin\n{\n  ");
    lemma_gh_chars();
    assert(t =~= front + GH_MARKER@ + rest);
    lemma_first_gh(front, rest);
    assert(t[n + 8] == GH_MARKER@[8]);
    assert(t[n + 9] == '{');
    lemma_char_from_is(t, '{', n + 8, n + 9);
    assert(t.subrange(n + 10, n + 10 + g.len()) =~= g);
    assert(t[n + 10 + g.len()] == '}');
    lemma_close_nested(t, '{', '}', n + 10, g);
}

/// A file with GitHub sources is read back as what it was written for: the packages sorted and
/// without duplicates, the sources sorted by name.
pub proof fn github_file_reads_back(c: CategoryView)
    requires
        c.github.len() > 0,
        all_simple(c.packages),
        all_fit(c.github),
        github_head_clear(c.name, all_source_lines(sorted_sources(c.github))),
    ensures
        rendered(c) is Ok,
        read_category(c.name, c.path, rendered(c)->Ok_0) == Ok::<CategoryView, ErrorView>(
            reread(c, rendered(c)->Ok_0),
        ),
{
    let t = rendered(c)->Ok_0;
    let inner = list_inner(c.packages);
    let sources = sorted_sources(c.github);
    let gh = all_source_lines(sources);
    let head = github_head(c.name, gh);
    let tail = "]"@ + GH_SUFFIX@ + ";\n}\n"@;
    let after = MARKER@ + " = with pkgs; ["@ + inner + tail;
    reveal_strlit("]");
    lemma_sort_by_key(c.github, by_name());
    assert forall|i: int| 0 <= i < sources.len() implies fits(#[trigger] sources[i]) by {
        lemma_sort_contains(c.github, by_name(), sources[i]);
        assert(sources.contains(sources[i]));
        assert(c.github.contains(sources[i]));
    }
    lemma_list_chars(c.packages);
    assert(t =~= head + MARKER@ + " = with pkgs; ["@ + inner + tail);
    lemma_list_span(head, inner, tail);
    rendered_list_reads_back(c.packages);
    assert(t =~= head + after);
    let k = head.len() + MARKER@.len() + " = with pkgs; ["@.len() + inner.len() + 1;
    assert(t.subrange(k as int, (k + GH_SUFFIX@.len()) as int) =~= GH_SUFFIX@);
    assert(occurs_at(t, GH_SUFFIX@, k as int));
    lemma_github_block(c.name, gh, after, c.path);
    rendered_sources_read_back(sources);
}

// ---------------------------------------------------------------------------
// What meets the conditions
// ---------------------------------------------------------------------------

proof fn lemma_head_chars()
    ensures
        lacks(HEAD@, '['),
        lacks(HEAD@, '='),
        lacks(PLAIN_NOTE@, '['),
        lacks(PLAIN_NOTE@, '='),
        lacks(GH_NOTE@, '['),
        lacks(GH_NOTE@, '='),
{
    reveal_strlit("# This file is managed by nixlayer.\n# Category: ");
    reveal_strlit(
        "\n# Do not hand-edit the package list unless you know what you're doing —\n# nixlayer may reorder or rewrite it when you run `nixlayer add/remove/move`.\n# Anything other than the environment.systemPackages list below is left alone.\n\n{ pkgs, ... }:\n\n{\n  ",
    );
    reveal_strlit(
        "\n# This category includes GitHub-sourced packages, pinned to exact commits.\n# nixlayer manages this whole file once GitHub sources are present —\n# avoid hand-editing it; use `nixlayer github` / `nixlayer add|remove|move` instead.\n\n{ pkgs, ... }:\nlet\n  ",
    );
}

proof fn lemma_gh_needs_equals(s: Seq<char>)
    requires
        lacks(s, '='),
    ensures
        !contains(s, GH_MARKER@),
{
    if contains(s, GH_MARKER@) {
        let j = choose|j: int| occurs_at(s, GH_MARKER@, j);
        lemma_gh_at(s, j);
    }
}

/// A name that keeps the head of its file readable.
pub open spec fn tidy_name(name: Seq<char>) -> bool {
    lacks(name, '[') && lacks(name, '=')
}

/// A source whose fields hold no brackets and no braces.
pub open spec fn tidy_source(s: SourceView) -> bool {
    &&& fits(s)
    &&& lacks(s.owner, '[') && lacks(s.owner, '{') && lacks(s.owner, '}')
    &&& lacks(s.repo, '[') && lacks(s.repo, '{') && lacks(s.repo, '}')
    &&& s.git_ref matches Some(r) ==> lacks(r, '[') && lacks(r, '{') && lacks(r, '}')
}

/// Every source is tidy.
pub open spec fn all_tidy(v: Seq<SourceView>) -> bool {
    forall|i: int| 0 <= i < v.len() ==> tidy_source(#[trigger] v[i])
}

/// A name without `[` and `=` keeps the head of a file without sources readable.
pub proof fn lemma_plain_name(name: Seq<char>)
    requires
        tidy_name(name),
    ensures
        plain_name(name),
{
    lemma_head_chars();
    let h = plain_head(name);
    assert forall|i: int| 0 <= i < h.len() implies #[trigger] h[i] != '[' && h[i] != '=' by {
        let a = HEAD@.len() as int;
        let b = a + name.len();
        if i < a {
            assert(h[i] == HEAD@[i]);
        } else if i < b {
            assert(h[i] == name[i - a]);
        } else {
            assert(h[i] == PLAIN_NOTE@[i - b]);
        }
    }
    lemma_gh_needs_equals(h);
}

/// Every valid name of a category keeps the head of its file readable.
pub proof fn valid_names_are_plain(name: Seq<char>)
    requires
        is_name(name),
    ensures
        tidy_name(name),
        plain_name(name),
{
    lemma_plain_name(name);
}

pub proof fn lemma_level_add(a: Seq<char>, b: Seq<char>, open: char, close: char)
    ensures
        level(a + b, open, close) == level(a, open, close) + level(b, open, close),
    decreases b.len(),
{
    if b.len() == 0 {
        assert(a + b =~= a);
    } else {
        lemma_level_add(a, b.drop_last(), open, close);
        assert((a + b).drop_last() =~= a + b.drop_last());
        assert((a + b).last() == b.last());
    }
}

proof fn lemma_nested_add(a: Seq<char>, b: Seq<char>, open: char, close: char)
    requires
        nested(a, open, close),
        nested(b, open, close),
    ensures
        nested(a + b, open, close),
{
    lemma_level_add(a, b, open, close);
    assert forall|n: int| 0 <= n <= (a + b).len() implies level(
        #[trigger] (a + b).take(n),
        open,
        close,
    ) >= 0 by {
        if n <= a.len() {
            assert((a + b).take(n) =~= a.take(n));
        } else {
            let m = n - a.len();
            assert((a + b).take(n) =~= a + b.take(m));
            lemma_level_add(a, b.take(m), open, close);
        }
    }
}

proof fn lemma_level_plain(s: Seq<char>, open: char, close: char)
    requires
        lacks(s, open),
        lacks(s, close),
    ensures
        level(s, open, close) == 0,
    decreases s.len(),
{
    if s.len() > 0 {
        let t = s.drop_last();
        assert(lacks(t, open) && lacks(t, close)) by {
            assert forall|i: int| 0 <= i < t.len() implies #[trigger] t[i] != open && t[i] != close by {
                assert(t[i] == s[i]);
            }
        }
        lemma_level_plain(t, open, close);
        assert(s.last() == s[s.len() - 1]);
    }
}

proof fn lemma_nested_plain(s: Seq<char>, open: char, close: char)
    requires
        lacks(s, open),
        lacks(s, close),
    ensures
        nested(s, open, close),
{
    lemma_level_plain(s, open, close);
    assert forall|n: int| 0 <= n <= s.len() implies level(#[trigger] s.take(n), open, close) >= 0 by {
        let t = s.take(n);
        assert(lacks(t, open) && lacks(t, close)) by {
            assert forall|i: int| 0 <= i < t.len() implies #[trigger] t[i] != open && t[i] != close by {
                assert(t[i] == s[i]);
            }
        }
        lemma_level_plain(t, open, close);
    }
}

proof fn lemma_nested_wrap(s: Seq<char>, open: char, close: char)
    requires
        open != close,
        nested(s, open, close),
    ensures
        nested(seq![open] + s + seq![close], open, close),
{
    let a = seq![open];
    let b = seq![close];
    let t = a + s + b;
    assert(a.drop_last() =~= Seq::<char>::empty());
    assert(b.drop_last() =~= Seq::<char>::empty());
    assert(level(a.drop_last(), open, close) == 0);
    assert(level(b.drop_last(), open, close) == 0);
    lemma_level_add(a, s, open, close);
    lemma_level_add(a + s, b, open, close);
    assert forall|n: int| 0 <= n <= t.len() implies level(#[trigger] t.take(n), open, close) >= 0 by {
        if n == 0 {
            assert(t.take(0) =~= Seq::<char>::empty());
        } else if n <= s.len() + 1 {
            assert(t.take(n) =~= a + s.take(n - 1));
            lemma_level_add(a, s.take(n - 1), open, close);
        } else {
            assert(t.take(n) =~= t);
        }
    }
}

proof fn lemma_source_lines_nested(s: SourceView)
    requires
        tidy_source(s),
    ensures
        nested(source_lines(s), '{', '}'),
        lacks(source_lines(s), '['),
{
    reveal_strlit("    # nixlayer-source-ref: ");
    reveal_strlit("    ");
    reveal_strlit("\n");
    reveal_strlit(";\n");
    reveal_strlit("github:");
    reveal_strlit("/");
    reveal_strlit(" = (builtins.getFlake \"");
    reveal_strlit("\").packages.${pkgs.system}.");
    let remembered = match s.git_ref {
        Some(r) => "    # nixlayer-source-ref: "@ + r + "\n"@,
        None => Seq::empty(),
    };
    let front = "    "@ + s.name + " = (builtins.getFlake \""@;
    let u = flake_ref(s);
    let x = seq!['"', ')', '.', 'p', 'a', 'c', 'k', 'a', 'g', 'e', 's', '.', '$'];
    let y = seq!['p', 'k', 'g', 's', '.', 's', 'y', 's', 't', 'e', 'm'];
    let z = seq!['.'];
    let back = s.attr + ";\n"@;
    let wrapped = seq!['{'] + y + seq!['}'];
    assert("\").packages.${pkgs.system}."@ =~= x + wrapped + z);
    assert forall|i: int| 0 <= i < remembered.len() implies ({
        let c = #[trigger] remembered[i];
        c != '{' && c != '}' && c != '['
    }) by {
        if s.git_ref is Some {
            let r = s.git_ref->0;
            let l = "    # nixlayer-source-ref: "@.len();
            if l <= i < l + r.len() {
                assert(remembered[i] == r[i - l]);
            }
        }
    }
    assert forall|i: int| 0 <= i < front.len() implies ({
        let c = #[trigger] front[i];
        c != '{' && c != '}' && c != '['
    }) by {
        if 4 <= i < 4 + s.name.len() {
            assert(front[i] == s.name[i - 4]);
            if i > 4 {
                assert(in_segment(s.name[i - 4]));
            } else {
                assert(starts_segment(s.name[0]));
            }
        }
    }
    assert forall|i: int| 0 <= i < u.len() implies ({
        let c = #[trigger] u[i];
        c != '{' && c != '}' && c != '['
    }) by {
        let a = 7 + s.owner.len() as int;
        let b = a + 1 + s.repo.len() as int;
        if 7 <= i < a {
            assert(u[i] == s.owner[i - 7]);
        } else if a < i < b {
            assert(u[i] == s.repo[i - a - 1]);
        } else if i > b {
            assert(u[i] == s.rev[i - b - 1]);
            assert(is_hex(s.rev[i - b - 1]));
        }
    }
    assert forall|i: int| 0 <= i < back.len() implies ({
        let c = #[trigger] back[i];
        c != '{' && c != '}' && c != '['
    }) by {
        if i < s.attr.len() {
            assert(back[i] == s.attr[i]);
            if i > 0 {
                assert(in_segment(s.attr[i]) || s.attr[i] == '.');
            } else {
                assert(starts_segment(s.attr[0]));
            }
        }
    }
    let parts = remembered + front + u + x;
    assert(source_lines(s) =~= remembered + front + u + x + wrapped + z + back);
    lemma_nested_plain(remembered, '{', '}');
    lemma_nested_plain(front, '{', '}');
    lemma_nested_plain(u, '{', '}');
    lemma_nested_plain(x, '{', '}');
    lemma_nested_plain(y, '{', '}');
    lemma_nested_plain(z, '{', '}');
    lemma_nested_plain(back, '{', '}');
    lemma_nested_wrap(y, '{', '}');
    lemma_nested_add(remembered, front, '{', '}');
    lemma_nested_add(remembered + front, u, '{', '}');
    lemma_nested_add(remembered + front + u, x, '{', '}');
    lemma_nested_add(parts, wrapped, '{', '}');
    lemma_nested_add(parts + wrapped, z, '{', '}');
    lemma_nested_add(parts + wrapped + z, back, '{', '}');
    let all = source_lines(s);
    assert forall|i: int| 0 <= i < all.len() implies #[trigger] all[i] != '[' by {
        let a = remembered.len() as int;
        let b = a + front.len();
        let c = b + u.len();
        let d = c + x.len();
        let e = d + wrapped.len();
        let f = e + z.len();
        if i < a {
            assert(all[i] == remembered[i]);
        } else if i < b {
            assert(all[i] == front[i - a]);
        } else if i < c {
            assert(all[i] == u[i - b]);
        } else if i < d {
            assert(all[i] == x[i - c]);
        } else if i < e {
            assert(all[i] == wrapped[i - d]);
        } else if i < f {
            assert(all[i] == z[i - e]);
        } else {
            assert(all[i] == back[i - f]);
        }
    }
}

proof fn lemma_all_lines_nested(v: Seq<SourceView>)
    requires
        all_tidy(v),
    ensures
        nested(all_source_lines(v), '{', '}'),
        lacks(all_source_lines(v), '['),
    decreases v.len(),
{
    if v.len() == 0 {
        lemma_nested_plain(all_source_lines(v), '{', '}');
    } else {
        let t = v.drop_last();
        assert forall|i: int| 0 <= i < t.len() implies tidy_source(#[trigger] t[i]) by {
            assert(t[i] == v[i]);
        }
        lemma_all_lines_nested(t);
        assert(tidy_source(v[v.len() - 1]));
        lemma_source_lines_nested(v.last());
        lemma_nested_add(all_source_lines(t), source_lines(v.last()), '{', '}');
        let a = all_source_lines(t);
        let all = all_source_lines(v);
        assert forall|i: int| 0 <= i < all.len() implies #[trigger] all[i] != '[' by {
            if i < a.len() {
                assert(all[i] == a[i]);
            } else {
                assert(all[i] == source_lines(v.last())[i - a.len()]);
            }
        }
    }
}

/// A tidy name and tidy sources keep the head of a file with sources readable.
pub proof fn lemma_github_head_clear(name: Seq<char>, v: Seq<SourceView>)
    requires
        tidy_name(name),
        all_tidy(v),
    ensures
        github_head_clear(name, all_source_lines(v)),
{
    let gh = all_source_lines(v);
    lemma_all_lines_nested(v);
    lemma_head_chars();
    reveal_strlit("\n");
    reveal_strlit("  ");
    reveal_strlit("{\n");
    reveal_strlit("  };\nin\n{\n  ");
    lemma_nested_plain("\n"@, '{', '}');
    lemma_nested_plain("  "@, '{', '}');
    lemma_nested_add("\n"@, gh, '{', '}');
    lemma_nested_add("\n"@ + gh, "  "@, '{', '}');
    let front = HEAD@ + name + GH_NOTE@;
    let a = HEAD@.len() as int;
    let b = a + name.len();
    assert forall|i: int| 0 <= i < front.len() implies #[trigger] front[i] != '[' && front[i] != '=' by {
        if i < a {
            assert(front[i] == HEAD@[i]);
        } else if i < b {
            assert(front[i] == name[i - a]);
        } else {
            assert(front[i] == GH_NOTE@[i - b]);
        }
    }
    lemma_gh_needs_equals(front);
    lemma_gh_chars();
    let h = github_head(name, gh);
    let n = front.len() as int;
    assert(h =~= front + GH_MARKER@ + "{\n"@ + gh + "  };\nin\n{\n  "@);
    assert forall|i: int| 0 <= i < h.len() implies #[trigger] h[i] != '[' by {
        if i < n {
            assert(h[i] == front[i]);
        } else if i < n + 9 {
            assert(h[i] == GH_MARKER@[i - n]);
        } else if i < n + 11 {
            assert(h[i] == "{\n"@[i - n - 9]);
        } else if i < n + 11 + gh.len() {
            assert(h[i] == gh[i - n - 11]);
        } else {
            assert(h[i] == "  };\nin\n{\n  "@[i - n - 11 - gh.len()]);
        }
    }
}

/// The text that is written for a category can be read back.
pub open spec fn writable(c: CategoryView) -> bool {
    &&& all_simple(c.packages)
    &&& if c.github.len() > 0 {
        all_fit(c.github) && github_head_clear(
            c.name,
            all_source_lines(sorted_sources(c.github)),
        )
    } else if contains(c.raw, GH_MARKER@) {
        plain_name(c.name)
    } else {
        list_span(c.raw) is Some
    }
}

/// What is written for a category is read back as that category, with its packages sorted and
/// without duplicates, and its sources sorted by name.
pub proof fn written_category_reads_back(c: CategoryView)
    requires
        writable(c),
    ensures
        rendered(c) is Ok,
        read_category(c.name, c.path, rendered(c)->Ok_0) == Ok::<CategoryView, ErrorView>(
            reread(c, rendered(c)->Ok_0),
        ),
{
    if c.github.len() > 0 {
        github_file_reads_back(c);
    } else {
        assert(c.github =~= Seq::empty());
        assert(sorted_sources(c.github) =~= Seq::empty());
        if contains(c.raw, GH_MARKER@) {
            plain_file_reads_back(c.name, c.path, c.packages);
        } else {
            patched_file_reads_back(c);
        }
    }
}

/// A category with a tidy name, plain packages and tidy sources can be written, whatever its file
/// held before, as long as that has a list.
pub proof fn tidy_categories_are_writable(c: CategoryView)
    requires
        tidy_name(c.name),
        all_simple(c.packages),
        all_tidy(c.github),
        list_span(c.raw) is Some,
    ensures
        writable(c),
{
    let v = sorted_sources(c.github);
    lemma_sort_by_key(c.github, by_name());
    assert forall|i: int| 0 <= i < v.len() implies tidy_source(#[trigger] v[i]) by {
        lemma_sort_contains(c.github, by_name(), v[i]);
        assert(v.contains(v[i]));
        assert(c.github.contains(v[i]));
    }
    lemma_github_head_clear(c.name, v);
    lemma_plain_name(c.name);
}

proof fn lemma_empty_list()
    ensures
        unique(Seq::<Seq<char>>::empty()) == Seq::<Seq<char>>::empty(),
        list_inner(Seq::empty()) == "\n  "@,
{
    let none = Seq::<Seq<char>>::empty();
    lemma_unique(none);
    assert(unique(none) =~= none);
    reveal_strlit("\n  ");
    reveal_strlit("\n");
    reveal_strlit("  ");
    assert(package_lines(none) =~= Seq::<char>::empty());
    assert(list_inner(none) =~= "\n  "@);
}

/// Putting back what stands between two positions changes nothing.
proof fn lemma_put_back(t: Seq<char>, span: (int, int))
    requires
        0 <= span.0 < span.1 <= t.len(),
    ensures
        with_inner(t, span, t.subrange(span.0 + 1, span.1)) == t,
{
    assert(with_inner(t, span, t.subrange(span.0 + 1, span.1)) =~= t);
}

/// A new, empty category file is read as an empty category.
pub proof fn template_reads_as_empty(name: Seq<char>, path: Seq<char>)
    requires
        plain_name(name),
    ensures
        read_category(name, path, plain_text(name, "\n  "@)) == Ok::<CategoryView, ErrorView>(
            empty_category(name, path),
        ),
        rendered(empty_category(name, path)) == Ok::<Seq<char>, ErrorView>(plain_text(name, "\n  "@)),
        writable(empty_category(name, path)),
{
    let none = Seq::<Seq<char>>::empty();
    let t = plain_text(name, "\n  "@);
    lemma_empty_list();
    plain_file_reads_back(name, path, none);
    lemma_list_chars(none);
    assert("];\n}\n"@.len() > 0 && "];\n}\n"@[0] == ']') by {
        reveal_strlit("];\n}\n");
    }
    lemma_list_span(plain_head(name), "\n  "@, "];\n}\n"@);
    let span = list_span(t)->0;
    lemma_find_from(t, MARKER@, 0);
    lemma_block(t, '[', ']', find_from(t, MARKER@, 0)->0);
    lemma_put_back(t, span);
}

/// Writing what was read back gives the same text.
pub proof fn rewriting_changes_nothing(c: CategoryView)
    requires
        writable(c),
    ensures
        rendered(c) is Ok,
        rendered(reread(c, rendered(c)->Ok_0)) == rendered(c),
{
    let t = rendered(c)->Ok_0;
    let d = reread(c, t);
    lemma_unique(c.packages);
    lemma_unique_of_same(unique(c.packages), c.packages);
    lemma_sort_by_key(c.github, by_name());
    if c.github.len() > 0 {
        lemma_sort_ascending(sorted_sources(c.github), by_name());
    } else {
        if contains(c.raw, GH_MARKER@) {
            plain_file_reads_back(c.name, c.path, c.packages);
        } else {
            patched_file_reads_back(c);
        }
        lemma_put_back(t, list_span(t)->0);
    }
}

/// What is read back is orderly, whatever order the packages stood in before.
pub proof fn written_categories_are_orderly(c: CategoryView)
    requires
        writable(c),
    ensures
        read_category(c.name, c.path, rendered(c)->Ok_0) matches Ok(d) && orderly(d),
{
    written_category_reads_back(c);
    lemma_unique(c.packages);
}

/// A block that gets balanced contents is found again where it was, and giving it its old
/// contents back gives the old text back.
pub proof fn balanced_replacements_can_be_undone(
    s: Seq<char>,
    open: char,
    close: char,
    from: int,
    inner: Seq<char>,
)
    requires
        open != close,
        0 <= from <= s.len(),
        block(s, open, close, from) is Some,
        nested(inner, open, close),
    ensures
        ({
            let (p, q) = block(s, open, close, from)->0;
            let t = with_inner(s, (p, q), inner);
            let r = p + 1 + inner.len();
            &&& block(t, open, close, from) == Some((p, r))
            &&& t.subrange(p + 1, r) == inner
            &&& with_inner(t, (p, r), s.subrange(p + 1, q)) == s
        }),
{
    lemma_block(s, open, close, from);
    lemma_char_from(s, open, from);
    let (p, q) = block(s, open, close, from)->0;
    let t = with_inner(s, (p, q), inner);
    let r = p + 1 + inner.len();
    assert(t.subrange(p + 1, r) =~= inner);
    assert(t[r] == s[q]);
    assert forall|j: int| from <= j < p implies t[j] != open by {
        assert(t[j] == s[j]);
    }
    assert(t[p] == s[p]);
    lemma_char_from_is(t, open, from, p);
    lemma_close_nested(t, open, close, p + 1, inner);
    assert(with_inner(t, (p, r), s.subrange(p + 1, q)) =~= s);
}

/// Once the last GitHub source is gone, the file that is written names none: what is read back
/// has no sources, and the marker of sources stands nowhere in it.
pub proof fn no_source_stays_behind(c: CategoryView)
    requires
        writable(c),
        c.github.len() == 0,
    ensures
        rendered(c) is Ok,
        !contains(rendered(c)->Ok_0, GH_MARKER@),
{
    if contains(c.raw, GH_MARKER@) {
        plain_file_reads_back(c.name, c.path, c.packages);
    } else {
        let m = find_from(c.raw, MARKER@, 0)->0;
        lemma_find_from(c.raw, MARKER@, 0);
        lemma_block(c.raw, '[', ']', m);
        lemma_list_chars(c.packages);
        lemma_patch_no_sources(c.raw, list_span(c.raw)->0, list_inner(c.packages));
    }
}

// ---------------------------------------------------------------------------
// What was read can be written
// ---------------------------------------------------------------------------

proof fn lemma_trim_part(s: Seq<char>, c: char)
    requires
        lacks(s, c),
    ensures
        lacks(trim(s), c),
{
    lemma_trim_start_part(s, c);
    lemma_trim_end_part(trim_start(s), c);
}

proof fn lemma_trim_start_part(s: Seq<char>, c: char)
    requires
        lacks(s, c),
    ensures
        lacks(trim_start(s), c),
    decreases s.len(),
{
    if s.len() > 0 && is_space(s[0]) {
        let t = s.drop_first();
        assert forall|i: int| 0 <= i < t.len() implies #[trigger] t[i] != c by {
            assert(t[i] == s[i + 1]);
        }
        lemma_trim_start_part(t, c);
    }
}

proof fn lemma_trim_end_part(s: Seq<char>, c: char)
    requires
        lacks(s, c),
    ensures
        lacks(trim_end(s), c),
    decreases s.len(),
{
    if s.len() > 0 && is_space(s.last()) {
        let t = s.drop_last();
        assert forall|i: int| 0 <= i < t.len() implies #[trigger] t[i] != c by {
            assert(t[i] == s[i]);
        }
        lemma_trim_end_part(t, c);
    }
}

proof fn lemma_lines_no_feed(s: Seq<char>)
    ensures
        forall|i: int| 0 <= i < lines(s).len() ==> lacks(#[trigger] lines(s)[i], '\n'),
    decreases s.len(),
{
    if s.len() > 0 {
        let k = until(s, '\n') as int;
        lemma_until(s, '\n');
        if k < s.len() {
            let a = s.take(k);
            lemma_lines_no_feed(s.skip(k + 1));
            assert forall|i: int| 0 <= i < lines(s).len() implies lacks(
                #[trigger] lines(s)[i],
                '\n',
            ) by {
                if i == 0 {
                    let l = strip_cr(a);
                    assert forall|j: int| 0 <= j < l.len() implies #[trigger] l[j] != '\n' by {
                        assert(l[j] == s[j]);
                    }
                } else {
                    assert(lines(s)[i] == lines(s.skip(k + 1))[i - 1]);
                }
            }
        }
    }
}

/// What stands nowhere in a text stands in no part of it.
proof fn lemma_lacks_parts(a: Seq<char>, b: Seq<char>, c: char)
    requires
        lacks(a + b, c),
    ensures
        lacks(a, c),
        lacks(b, c),
{
    let s = a + b;
    assert forall|i: int| 0 <= i < a.len() implies #[trigger] a[i] != c by {
        assert(a[i] == s[i]);
    }
    assert forall|i: int| 0 <= i < b.len() implies #[trigger] b[i] != c by {
        assert(b[i] == s[a.len() + i]);
    }
}

proof fn lemma_flake_parts(u: Seq<char>, o: Seq<char>, p: Seq<char>, v: Seq<char>, c: char)
    requires
        is_flake(u, o, p, v),
        lacks(u, c),
    ensures
        lacks(o, c),
        lacks(p, c),
{
    lemma_lacks_parts("github:"@, o + ("/"@ + (p + ("/"@ + v))), c);
    lemma_lacks_parts(o, "/"@ + (p + ("/"@ + v)), c);
    lemma_lacks_parts("/"@, p + ("/"@ + v), c);
    lemma_lacks_parts(p, "/"@ + v, c);
}

proof fn lemma_entry_url(line: Seq<char>, n: Seq<char>, u: Seq<char>, a: Seq<char>, c: char)
    requires
        is_entry(line, n, u, a),
        lacks(line, c),
    ensures
        lacks(u, c),
{
    let (w1, w2, w3, w4) = choose|w1: Seq<char>, w2: Seq<char>, w3: Seq<char>, w4: Seq<char>|
        #[trigger] entry_text(n, w1, w2, w3, u, a, w4) == line && blank(w1) && blank(w2) && blank(w3)
            && w3.len() > 0 && blank(w4);
    let r7 = u + ("\").packages.${pkgs.system}."@ + (a + (w4 + ";"@)));
    let r6 = "\""@ + r7;
    let r5 = w3 + r6;
    let r4 = "(builtins.getFlake"@ + r5;
    let r3 = w2 + r4;
    let r2 = "="@ + r3;
    let r1 = w1 + r2;
    lemma_lacks_parts(n, r1, c);
    lemma_lacks_parts(w1, r2, c);
    lemma_lacks_parts("="@, r3, c);
    lemma_lacks_parts(w2, r4, c);
    lemma_lacks_parts("(builtins.getFlake"@, r5, c);
    lemma_lacks_parts(w3, r6, c);
    lemma_lacks_parts("\""@, r7, c);
    lemma_lacks_parts(u, "\").packages.${pkgs.system}."@ + (a + (w4 + ";"@)), c);
}

proof fn lemma_fields_fit(line: Seq<char>, pending: Option<Seq<char>>)
    requires
        lacks(line, '\n'),
        pending matches Some(r) ==> is_word(r),
        entry_fields(line) is Some,
        flake_fields((entry_fields(line)->0).1) is Some,
    ensures
        ({
            let e = entry_fields(line)->0;
            let f = flake_fields(e.1)->0;
            fits(
                SourceView {
                    name: e.0,
                    owner: f.0,
                    repo: f.1,
                    rev: f.2,
                    git_ref: pending,
                    attr: e.2,
                },
            )
        }),
{
    let (n, u, a) = entry_fields(line)->0;
    assert(is_entry(line, n, u, a));
    lemma_entry_url(line, n, u, a, '\n');
    let (o, p, v) = flake_fields(u)->0;
    assert(is_flake(u, o, p, v));
    lemma_flake_parts(u, o, p, v, '\n');
    lemma_flake_parts(u, o, p, v, '"');
}

proof fn lemma_read_sources_fit(ls: Seq<Seq<char>>, pending: Option<Seq<char>>)
    requires
        forall|i: int| 0 <= i < ls.len() ==> lacks(#[trigger] ls[i], '\n'),
        pending matches Some(r) ==> is_word(r),
    ensures
        read_sources(ls, pending) matches Ok(v) ==> all_fit(v),
    decreases ls.len(),
{
    if ls.len() > 0 {
        let line = trim(ls[0]);
        let rest = ls.drop_first();
        assert forall|i: int| 0 <= i < rest.len() implies lacks(#[trigger] rest[i], '\n') by {
            assert(rest[i] == ls[i + 1]);
        }
        assert(lacks(ls[0], '\n'));
        lemma_trim_part(ls[0], '\n');
        if line.len() == 0 {
            lemma_read_sources_fit(rest, pending);
        } else if ref_field(line) is Some {
            let r = ref_field(line)->0;
            assert(is_ref(line, r));
            lemma_read_sources_fit(rest, Some(r));
        } else if entry_fields(line) is Some && flake_fields((entry_fields(line)->0).1) is Some {
            lemma_fields_fit(line, pending);
            lemma_read_sources_fit(rest, None);
        }
    }
}

/// What a category file declares can be declared again: its packages are plain attribute paths,
/// its sources fit into a line, and its list is where it was.
pub proof fn read_category_can_be_written(name: Seq<char>, path: Seq<char>, raw: Seq<char>)
    ensures
        read_category(name, path, raw) matches Ok(c) ==> {
            &&& all_simple(c.packages)
            &&& all_fit(c.github)
            &&& list_span(raw) is Some
            &&& !contains(raw, GH_MARKER@) ==> c.github.len() == 0 && writable(c)
        },
{
    if read_category(name, path, raw) is Ok {
        let span = list_span(raw)->0;
        read_list_accepts_exactly_plain_lists(raw.subrange(span.0 + 1, span.1));
        lemma_find_from(raw, GH_MARKER@, 0);
        match find_from(raw, GH_MARKER@, 0) {
            Some(m) => {
                let b = block(raw, '{', '}', m + GH_MARKER@.len() - 1)->0;
                let inner = raw.subrange(b.0 + 1, b.1);
                lemma_lines_no_feed(inner);
                lemma_read_sources_fit(lines(inner), None);
            },
            None => {},
        }
    }
}

/// The module is never taken for a category.
pub proof fn the_module_is_no_category(name: Seq<char>, path: Seq<char>, allow_unfree: bool)
    ensures
        read_category(name, path, module_text(allow_unfree)) is Err,
{
    let t = module_text(allow_unfree);
    lemma_module_has_no_marker(allow_unfree);
    lemma_gh_chars();
    reveal_strlit("environment.systemPackages");
    assert(MARKER@[18] == 'P');
    assert forall|j: int| !occurs_at(t, GH_MARKER@, j) by {
        if occurs_at(t, GH_MARKER@, j) {
            lemma_gh_at(t, j);
        }
    }
    assert forall|j: int| !occurs_at(t, MARKER@, j) by {
        if occurs_at(t, MARKER@, j) {
            assert(t[j + 18] == t.subrange(j, j + MARKER@.len())[18]);
        }
    }
    lemma_find_from(t, GH_MARKER@, 0);
    lemma_find_from(t, MARKER@, 0);
}

} // verus!
