//! Laws of the text that is written where a category file is made anew.

use vstd::prelude::*;

use crate::category::{
    all_source_lines, by_name, list_inner, package_lines, plain_text, regenerated_text,
    sorted_sources, source_lines, CategoryView, GH_MARKER, GH_NOTE, GH_SUFFIX, HEAD, MARKER,
    PLAIN_NOTE,
};
use crate::order::{
    distinct_keys, lemma_same_items_sort_alike, lemma_sort_by_key, lemma_sort_contains, lemma_unique,
    lemma_unique_of_same, unique,
};
use crate::sources::{flake_ref, SourceView};
use crate::text::{
    contains, lemma_contains_inside, lemma_contains_through, lemma_lacks_both, occurs_at,
};

verus! {

/// A file that is made anew depends on the name of the category, on which packages it declares
/// and on which sources it declares, and on nothing else: neither on the order in which they
/// stand, nor on the text that the category was read from.
pub proof fn made_anew_from_what_is_declared(a: CategoryView, b: CategoryView)
    requires
        a.name == b.name,
        forall|p: Seq<char>| a.packages.contains(p) <==> b.packages.contains(p),
        forall|s: SourceView| a.github.contains(s) <==> b.github.contains(s),
        distinct_keys(a.github, by_name()),
        distinct_keys(b.github, by_name()),
    ensures
        regenerated_text(a) == regenerated_text(b),
{
    lemma_unique_of_same(a.packages, b.packages);
    lemma_same_items_sort_alike(a.github, b.github, by_name());
    lemma_sort_by_key(a.github, by_name());
    lemma_sort_by_key(b.github, by_name());
}

// ---------------------------------------------------------------------------
// The sources that are named
// ---------------------------------------------------------------------------

/// The lines of some sources contain the lines of each.
proof fn lemma_lines_of_each(v: Seq<SourceView>, i: int)
    requires
        0 <= i < v.len(),
    ensures
        contains(all_source_lines(v), source_lines(v[i])),
    decreases v.len(),
{
    let before = all_source_lines(v.drop_last());
    let none = Seq::<char>::empty();
    if i == v.len() - 1 {
        lemma_contains_inside(before, source_lines(v[i]), none);
        assert(before + source_lines(v[i]) + none =~= all_source_lines(v));
    } else {
        lemma_lines_of_each(v.drop_last(), i);
        lemma_contains_inside(none, before, source_lines(v.last()));
        assert(none + before + source_lines(v.last()) =~= all_source_lines(v));
        lemma_contains_through(all_source_lines(v), before, source_lines(v[i]));
    }
}

/// The lines of a source contain its pinned reference.
proof fn lemma_lines_name_the_commit(s: SourceView)
    ensures
        contains(source_lines(s), flake_ref(s)),
{
    let remembered = match s.git_ref {
        Some(r) => "    # nixlayer-source-ref: "@ + r + "\n"@,
        None => Seq::empty(),
    };
    let front = remembered + "    "@ + s.name + " = (builtins.getFlake \""@;
    let back = "\").packages.${pkgs.system}."@ + s.attr + ";\n"@;
    lemma_contains_inside(front, flake_ref(s), back);
    assert(front + flake_ref(s) + back =~= source_lines(s));
}

/// A file that is made anew for a category with GitHub sources holds the marker of sources, hands
/// them to the package list, and names the pinned commit of each.
proof fn lemma_sources_are_named(c: CategoryView, i: int)
    requires
        0 <= i < c.github.len(),
    ensures
        contains(regenerated_text(c), GH_MARKER@),
        contains(regenerated_text(c), GH_SUFFIX@),
        contains(regenerated_text(c), flake_ref(c.github[i])),
{
    let sources = sorted_sources(c.github);
    let gh = all_source_lines(sources);
    let inner = list_inner(c.packages);
    let text = regenerated_text(c);
    let head = HEAD@ + c.name + GH_NOTE@;
    let list = "  };\nin\n{\n  "@ + MARKER@ + " = with pkgs; ["@ + inner + "]"@;
    let s = c.github[i];
    lemma_contains_inside(head, GH_MARKER@, "{\n"@ + gh + list + GH_SUFFIX@ + ";\n}\n"@);
    assert(head + GH_MARKER@ + ("{\n"@ + gh + list + GH_SUFFIX@ + ";\n}\n"@) =~= text);
    lemma_contains_inside(head + GH_MARKER@ + "{\n"@ + gh + list, GH_SUFFIX@, ";\n}\n"@);
    assert(head + GH_MARKER@ + "{\n"@ + gh + list + GH_SUFFIX@ + ";\n}\n"@ =~= text);
    lemma_contains_inside(head + GH_MARKER@ + "{\n"@, gh, list + GH_SUFFIX@ + ";\n}\n"@);
    assert(head + GH_MARKER@ + "{\n"@ + gh + (list + GH_SUFFIX@ + ";\n}\n"@) =~= text);
    assert(c.github.contains(s));
    lemma_sort_contains(c.github, by_name(), s);
    let k = choose|k: int| 0 <= k < sources.len() && sources[k] == s;
    lemma_lines_of_each(sources, k);
    lemma_lines_name_the_commit(s);
    lemma_contains_through(text, gh, source_lines(s));
    lemma_contains_through(text, source_lines(s), flake_ref(s));
}

// ---------------------------------------------------------------------------
// Where no sources are named
// ---------------------------------------------------------------------------

proof fn lemma_word_chars()
    ensures
        "ghPkgs"@ == seq!['g', 'h', 'P', 'k', 'g', 's'],
        contains(GH_MARKER@, "ghPkgs"@),
{
    reveal_strlit("ghPkgs");
    reveal_strlit("ghPkgs = ");
    assert("ghPkgs"@ =~= seq!['g', 'h', 'P', 'k', 'g', 's']);
    assert(GH_MARKER@.subrange(0, 6) =~= "ghPkgs"@);
    assert(occurs_at(GH_MARKER@, "ghPkgs"@, 0));
}

/// The word needs a `P` behind an `h`.
proof fn lemma_no_word(s: Seq<char>)
    requires
        forall|i: int| 0 < i < s.len() && #[trigger] s[i] == 'P' ==> s[i - 1] != 'h',
    ensures
        !contains(s, "ghPkgs"@),
{
    lemma_word_chars();
    if contains(s, "ghPkgs"@) {
        let j = choose|j: int| occurs_at(s, "ghPkgs"@, j);
        let w = s.subrange(j, j + 6);
        assert(w[1] == s[j + 1]);
        assert(w[2] == s[j + 2]);
    }
}

proof fn lemma_fixed_texts()
    ensures
        !contains(HEAD@, "ghPkgs"@),
        HEAD@.len() > 0,
        HEAD@.last() == ' ',
        !contains(PLAIN_NOTE@, "ghPkgs"@),
        PLAIN_NOTE@.len() > 0,
        PLAIN_NOTE@[0] == '\n',
        PLAIN_NOTE@.last() == ' ',
        !contains(MARKER@, "ghPkgs"@),
        !contains(" = with pkgs; ["@, "ghPkgs"@),
        " = with pkgs; ["@.len() > 0,
        " = with pkgs; ["@[0] == ' ',
        " = with pkgs; ["@.last() == '[',
        !contains("];\n}\n"@, "ghPkgs"@),
        "];\n}\n"@.len() > 0,
        "];\n}\n"@[0] == ']',
{
    reveal_strlit("# This file is managed by nixlayer.\n# Category: ");
    reveal_strlit(
        "\n# Do not hand-edit the package list unless you know what you're doing —\n# nixlayer may reorder or rewrite it when you run `nixlayer add/remove/move`.\n# Anything other than the environment.systemPackages list below is left alone.\n\n{ pkgs, ... }:\n\n{\n  ",
    );
    reveal_strlit("environment.systemPackages");
    reveal_strlit(" = with pkgs; [");
    reveal_strlit("];\n}\n");
    lemma_no_word(HEAD@);
    lemma_no_word(PLAIN_NOTE@);
    lemma_no_word(MARKER@);
    lemma_no_word(" = with pkgs; ["@);
    lemma_no_word("];\n}\n"@);
}

proof fn lemma_lines_without_word(u: Seq<Seq<char>>)
    requires
        forall|i: int| 0 <= i < u.len() ==> !contains(#[trigger] u[i], "ghPkgs"@),
    ensures
        !contains(package_lines(u), "ghPkgs"@),
    decreases u.len(),
{
    lemma_word_chars();
    if u.len() == 0 {
        lemma_no_word(package_lines(u));
    } else {
        let t = u.drop_last();
        assert forall|i: int| 0 <= i < t.len() implies !contains(#[trigger] t[i], "ghPkgs"@) by {
            assert(t[i] == u[i]);
        }
        lemma_lines_without_word(t);
        reveal_strlit("    ");
        reveal_strlit("\n");
        lemma_no_word("    "@);
        lemma_no_word("\n"@);
        let a = package_lines(t) + "    "@;
        lemma_lacks_both(package_lines(t), "    "@, "ghPkgs"@);
        assert(a.last() == ' ');
        lemma_lacks_both(a, u.last(), "ghPkgs"@);
        lemma_lacks_both(a + u.last(), "\n"@, "ghPkgs"@);
    }
}

/// A file that is made anew for a category without GitHub sources does not name any.
proof fn lemma_no_sources_are_named(c: CategoryView)
    requires
        c.github.len() == 0,
        !contains(c.name, "ghPkgs"@),
        forall|i: int| 0 <= i < c.packages.len() ==> !contains(#[trigger] c.packages[i], "ghPkgs"@),
    ensures
        !contains(regenerated_text(c), "ghPkgs"@),
{
    let word = "ghPkgs"@;
    let u = unique(c.packages);
    lemma_word_chars();
    lemma_fixed_texts();
    lemma_unique(c.packages);
    assert forall|i: int| 0 <= i < u.len() implies !contains(#[trigger] u[i], word) by {
        assert(u.contains(u[i]));
        assert(c.packages.contains(u[i]));
        let k = choose|k: int| 0 <= k < c.packages.len() && c.packages[k] == u[i];
        assert(!contains(c.packages[k], word));
    }
    lemma_lines_without_word(u);
    reveal_strlit("\n");
    reveal_strlit("  ");
    lemma_no_word("\n"@);
    lemma_no_word("  "@);
    lemma_lacks_both("\n"@, package_lines(u), word);
    lemma_lacks_both("\n"@ + package_lines(u), "  "@, word);
    let inner = list_inner(c.packages);
    lemma_lacks_both(HEAD@, c.name, word);
    lemma_lacks_both(HEAD@ + c.name, PLAIN_NOTE@, word);
    let head = HEAD@ + c.name + PLAIN_NOTE@;
    assert(head.last() == PLAIN_NOTE@.last());
    lemma_lacks_both(head, MARKER@, word);
    lemma_lacks_both(head + MARKER@, " = with pkgs; ["@, word);
    let opened = head + MARKER@ + " = with pkgs; ["@;
    assert(opened.last() == " = with pkgs; ["@.last());
    lemma_lacks_both(opened, inner, word);
    lemma_lacks_both(opened + inner, "];\n}\n"@, word);
    assert(plain_text(c.name, inner) == opened + inner + "];\n}\n"@);
}

/// A file that is made anew speaks of GitHub sources exactly where the category has any, and then
/// it hands them to the package list and names the pinned commit of each. The name and the
/// packages must not speak of sources themselves.
pub proof fn sources_are_named_where_there_are_any(c: CategoryView)
    requires
        !contains(c.name, "ghPkgs"@),
        forall|i: int| 0 <= i < c.packages.len() ==> !contains(#[trigger] c.packages[i], "ghPkgs"@),
    ensures
        contains(regenerated_text(c), "ghPkgs"@) <==> c.github.len() > 0,
        c.github.len() > 0 ==> contains(regenerated_text(c), GH_SUFFIX@),
        forall|i: int|
            0 <= i < c.github.len() ==> contains(
                regenerated_text(c),
                #[trigger] flake_ref(c.github[i]),
            ),
{
    if c.github.len() == 0 {
        lemma_no_sources_are_named(c);
    } else {
        lemma_sources_are_named(c, 0);
        lemma_word_chars();
        lemma_contains_through(regenerated_text(c), GH_MARKER@, "ghPkgs"@);
        assert forall|i: int| 0 <= i < c.github.len() implies contains(
            regenerated_text(c),
            #[trigger] flake_ref(c.github[i]),
        ) by {
            lemma_sources_are_named(c, i);
        }
    }
}

} // verus!
