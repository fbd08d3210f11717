//! Packages that come from GitHub flakes, and the lines in which a category file declares them.

use vstd::prelude::*;

use crate::nixfile::{in_segment, is_segment, starts_segment};
use crate::text::{concat3, is_hex, is_space, lines, trim, trimmed, views};

verus! {

/// A package pulled from a GitHub flake, pinned to an exact commit.
#[derive(Debug, Clone, PartialEq, Eq)]
pub struct GithubSource {
    /// The local name, used as `ghPkgs.<name>` and by every command.
    pub name: String,
    pub owner: String,
    pub repo: String,
    /// The pinned commit: a hexadecimal hash, never the name of a branch.
    pub rev: String,
    /// The branch or tag that was asked for, if any. It is what an update resolves again.
    pub git_ref: Option<String>,
    /// The output attribute of the flake.
    pub attr: String,
}

/// A [`GithubSource`] with its texts as character sequences.
pub struct SourceView {
    pub name: Seq<char>,
    pub owner: Seq<char>,
    pub repo: Seq<char>,
    pub rev: Seq<char>,
    pub git_ref: Option<Seq<char>>,
    pub attr: Seq<char>,
}

/// The view of an optional string.
pub open spec fn opt_view(s: Option<String>) -> Option<Seq<char>> {
    match s {
        Some(t) => Some(t@),
        None => None,
    }
}

impl View for GithubSource {
    type V = SourceView;

    open spec fn view(&self) -> SourceView {
        SourceView {
            name: self.name@,
            owner: self.owner@,
            repo: self.repo@,
            rev: self.rev@,
            git_ref: opt_view(self.git_ref),
            attr: self.attr@,
        }
    }
}

/// The views of a sequence of sources.
pub open spec fn source_views(v: Seq<GithubSource>) -> Seq<SourceView> {
    Seq::new(v.len(), |i: int| v[i]@)
}

pub proof fn lemma_source_views_push(v: Seq<GithubSource>, s: GithubSource)
    ensures
        source_views(v.push(s)) == source_views(v).push(s@),
{
    assert(source_views(v.push(s)) =~= source_views(v).push(s@));
}

/// The reference by which a flake is fetched.
pub open spec fn flake_ref(s: SourceView) -> Seq<char> {
    "github:"@ + s.owner + "/"@ + s.repo + "/"@ + s.rev
}

pub fn clone_opt(s: &Option<String>) -> (r: Option<String>)
    ensures
        opt_view(r) == opt_view(*s),
{
    match s {
        Some(t) => Some(t.clone()),
        None => None,
    }
}

impl GithubSource {
    /// The reference by which the flake is fetched.
    pub fn flake_ref(&self) -> (r: String)
        ensures
            r@ == flake_ref(self@),
    {
        let mut s: String = concat3("github:", &self.owner, "/");
        s.append(&self.repo);
        s.append("/");
        s.append(&self.rev);
        s
    }

    /// A source with the same contents.
    pub fn copy(&self) -> (r: GithubSource)
        ensures
            r@ == self@,
    {
        GithubSource {
            name: self.name.clone(),
            owner: self.owner.clone(),
            repo: self.repo.clone(),
            rev: self.rev.clone(),
            git_ref: clone_opt(&self.git_ref),
            attr: self.attr.clone(),
        }
    }
}

// ---------------------------------------------------------------------------
// The grammar of the lines
// ---------------------------------------------------------------------------

/// A line that declares a source.
pub const ENTRY_PATTERN: &'static str = r#"^([A-Za-z_][A-Za-zA-Z0-9_'-]*)\s*=\s*\(builtins\.getFlake\s+"([^"]+)"\)\.packages\.\$\{pkgs\.system\}\.([A-Za-z_][A-Za-zA-Z0-9_.'-]*)\s*;$"#;

/// A flake reference that is pinned to a commit.
pub const FLAKE_PATTERN: &'static str = r"^github:([^/]+)/([^/]+)/([0-9a-fA-F]{7,40})$";

/// The comment that remembers the branch or tag of the source declared below it.
pub const REF_PATTERN: &'static str = r"^#\s*nixlayer-source-ref:\s*(\S+)$";

/// White space only.
pub open spec fn blank(s: Seq<char>) -> bool {
    forall|i: int| 0 <= i < s.len() ==> is_space(#[trigger] s[i])
}

/// At least one character, and none of them `c`.
pub open spec fn filled_without(s: Seq<char>, c: char) -> bool {
    s.len() > 0 && forall|i: int| 0 <= i < s.len() ==> #[trigger] s[i] != c
}

/// At least one character, and no white space.
pub open spec fn is_word(s: Seq<char>) -> bool {
    s.len() > 0 && forall|i: int| 0 <= i < s.len() ==> !is_space(#[trigger] s[i])
}

/// An output attribute: a letter or `_`, then letters, digits, `_`, `.`, `'` and `-`.
pub open spec fn is_output(s: Seq<char>) -> bool {
    &&& s.len() > 0
    &&& starts_segment(s[0])
    &&& forall|i: int| 1 <= i < s.len() ==> in_segment(#[trigger] s[i]) || s[i] == '.'
}

/// A commit hash, in full or abbreviated.
pub open spec fn is_commit(s: Seq<char>) -> bool {
    7 <= s.len() <= 40 && forall|i: int| 0 <= i < s.len() ==> is_hex(#[trigger] s[i])
}

/// A declaration of the output `a` of the flake `u` under the name `n`, with the given white
/// space between its parts.
pub open spec fn entry_text(
    n: Seq<char>,
    w1: Seq<char>,
    w2: Seq<char>,
    w3: Seq<char>,
    u: Seq<char>,
    a: Seq<char>,
    w4: Seq<char>,
) -> Seq<char> {
    n + (w1 + ("="@ + (w2 + ("(builtins.getFlake"@ + (w3 + ("\""@ + (u + (
    "\").packages.${pkgs.system}."@ + (a + (w4 + ";"@))))))))))
}

/// `line` declares the output `a` of the flake `u` under the name `n`.
pub open spec fn is_entry(line: Seq<char>, n: Seq<char>, u: Seq<char>, a: Seq<char>) -> bool {
    &&& is_segment(n)
    &&& filled_without(u, '"')
    &&& is_output(a)
    &&& exists|w1: Seq<char>, w2: Seq<char>, w3: Seq<char>, w4: Seq<char>|
        #[trigger] entry_text(n, w1, w2, w3, u, a, w4) == line && blank(w1) && blank(w2) && blank(w3)
            && w3.len() > 0 && blank(w4)
}

/// `url` is the flake in the repository `p` of `o` at the commit `v`.
pub open spec fn is_flake(url: Seq<char>, o: Seq<char>, p: Seq<char>, v: Seq<char>) -> bool {
    &&& url == "github:"@ + (o + ("/"@ + (p + ("/"@ + v))))
    &&& filled_without(o, '/')
    &&& filled_without(p, '/')
    &&& is_commit(v)
}

pub open spec fn ref_text(w1: Seq<char>, w2: Seq<char>, r: Seq<char>) -> Seq<char> {
    "#"@ + (w1 + ("nixlayer-source-ref:"@ + (w2 + r)))
}

/// `line` remembers the branch or tag `r`.
pub open spec fn is_ref(line: Seq<char>, r: Seq<char>) -> bool {
    &&& is_word(r)
    &&& exists|w1: Seq<char>, w2: Seq<char>|
        #[trigger] ref_text(w1, w2, r) == line && blank(w1) && blank(w2)
}

/// What a line declares: a name, a flake and an output attribute.
pub open spec fn entry_fields(line: Seq<char>) -> Option<(Seq<char>, Seq<char>, Seq<char>)> {
    if exists|n: Seq<char>, u: Seq<char>, a: Seq<char>| is_entry(line, n, u, a) {
        Some(choose|n: Seq<char>, u: Seq<char>, a: Seq<char>| is_entry(line, n, u, a))
    } else {
        None
    }
}

/// The owner, the repository and the commit of a pinned flake reference.
pub open spec fn flake_fields(url: Seq<char>) -> Option<(Seq<char>, Seq<char>, Seq<char>)> {
    if exists|o: Seq<char>, p: Seq<char>, v: Seq<char>| is_flake(url, o, p, v) {
        Some(choose|o: Seq<char>, p: Seq<char>, v: Seq<char>| is_flake(url, o, p, v))
    } else {
        None
    }
}

/// The branch or tag that a comment remembers.
pub open spec fn ref_field(line: Seq<char>) -> Option<Seq<char>> {
    if exists|r: Seq<char>| is_ref(line, r) {
        Some(choose|r: Seq<char>| is_ref(line, r))
    } else {
        None
    }
}

/// A text has one longest start made of characters with a property.
proof fn lemma_run(
    a: Seq<char>,
    x: Seq<char>,
    b: Seq<char>,
    y: Seq<char>,
    p: spec_fn(char) -> bool,
)
    requires
        a + x == b + y,
        forall|i: int| 0 <= i < a.len() ==> p(#[trigger] a[i]),
        forall|i: int| 0 <= i < b.len() ==> p(#[trigger] b[i]),
        x.len() > 0 && !p(x[0]),
        y.len() > 0 && !p(y[0]),
    ensures
        a == b,
        x == y,
{
    let s = a + x;
    let t = b + y;
    if a.len() < b.len() {
        assert(s[a.len() as int] == x[0]);
        assert(t[a.len() as int] == b[a.len() as int]);
    }
    if b.len() < a.len() {
        assert(t[b.len() as int] == y[0]);
        assert(s[b.len() as int] == a[b.len() as int]);
    }
    lemma_same_start(a, x, b, y);
}

/// Starts of equal length are equal, and so is what follows.
proof fn lemma_same_start(a: Seq<char>, x: Seq<char>, b: Seq<char>, y: Seq<char>)
    requires
        a + x == b + y,
        a.len() == b.len(),
    ensures
        a == b,
        x == y,
{
    assert(a =~= (a + x).take(a.len() as int));
    assert(b =~= (b + y).take(b.len() as int));
    assert(x =~= (a + x).skip(a.len() as int));
    assert(y =~= (b + y).skip(b.len() as int));
}

/// A line declares at most one thing.
proof fn lemma_entry_unique(
    line: Seq<char>,
    n: Seq<char>,
    u: Seq<char>,
    a: Seq<char>,
    n2: Seq<char>,
    u2: Seq<char>,
    a2: Seq<char>,
)
    requires
        is_entry(line, n, u, a),
        is_entry(line, n2, u2, a2),
    ensures
        n == n2,
        u == u2,
        a == a2,
{
    reveal_strlit("=");
    reveal_strlit("(builtins.getFlake");
    reveal_strlit("\"");
    reveal_strlit("\").packages.${pkgs.system}.");
    reveal_strlit(";");
    let (w1, w2, w3, w4) = choose|w1: Seq<char>, w2: Seq<char>, w3: Seq<char>, w4: Seq<char>|
        #[trigger] entry_text(n, w1, w2, w3, u, a, w4) == line && blank(w1) && blank(w2) && blank(w3)
            && w3.len() > 0 && blank(w4);
    let (x1, x2, x3, x4) = choose|w1: Seq<char>, w2: Seq<char>, w3: Seq<char>, w4: Seq<char>|
        #[trigger] entry_text(n2, w1, w2, w3, u2, a2, w4) == line && blank(w1) && blank(w2) && blank(
            w3,
        ) && w3.len() > 0 && blank(w4);
    let sp = |c: char| is_space(c);
    let nq = |c: char| c != '"';
    let seg = |c: char| in_segment(c);
    let out = |c: char| in_segment(c) || c == '.';
    let e8 = w4 + ";"@;
    let f8 = x4 + ";"@;
    let e7 = a + e8;
    let f7 = a2 + f8;
    let e6 = "\").packages.${pkgs.system}."@ + e7;
    let f6 = "\").packages.${pkgs.system}."@ + f7;
    let e5 = u + e6;
    let f5 = u2 + f6;
    let e4 = "\""@ + e5;
    let f4 = "\""@ + f5;
    let e3 = w3 + e4;
    let f3 = x3 + f4;
    let e2 = "(builtins.getFlake"@ + e3;
    let f2 = "(builtins.getFlake"@ + f3;
    let e1 = w2 + e2;
    let f1 = x2 + f2;
    let e0 = "="@ + e1;
    let f0 = "="@ + f1;
    let e = w1 + e0;
    let f = x1 + f0;
    assert(n + e == n2 + f);
    assert(e0[0] == '=' && f0[0] == '=');
    assert(!in_segment(e[0])) by {
        if w1.len() > 0 {
            assert(is_space(w1[0]));
            assert(e[0] == w1[0]);
        } else {
            assert(e[0] == e0[0]);
        }
    }
    assert(!in_segment(f[0])) by {
        if x1.len() > 0 {
            assert(is_space(x1[0]));
            assert(f[0] == x1[0]);
        } else {
            assert(f[0] == f0[0]);
        }
    }
    assert forall|i: int| 0 <= i < n.len() implies seg(#[trigger] n[i]) by {
        if i > 0 {
            assert(in_segment(n[i]));
        }
    }
    assert forall|i: int| 0 <= i < n2.len() implies seg(#[trigger] n2[i]) by {
        if i > 0 {
            assert(in_segment(n2[i]));
        }
    }
    lemma_run(n, e, n2, f, seg);
    lemma_run(w1, e0, x1, f0, sp);
    lemma_same_start("="@, e1, "="@, f1);
    assert(e2[0] == '(' && f2[0] == '(');
    lemma_run(w2, e2, x2, f2, sp);
    lemma_same_start("(builtins.getFlake"@, e3, "(builtins.getFlake"@, f3);
    assert(e4[0] == '"' && f4[0] == '"');
    lemma_run(w3, e4, x3, f4, sp);
    lemma_same_start("\""@, e5, "\""@, f5);
    assert(e6[0] == '"' && f6[0] == '"');
    lemma_run(u, e6, u2, f6, nq);
    lemma_same_start("\").packages.${pkgs.system}."@, e7, "\").packages.${pkgs.system}."@, f7);
    assert(!out(e8[0])) by {
        if w4.len() > 0 {
            assert(is_space(w4[0]));
            assert(e8[0] == w4[0]);
        } else {
            assert(e8[0] == ';');
        }
    }
    assert(!out(f8[0])) by {
        if x4.len() > 0 {
            assert(is_space(x4[0]));
            assert(f8[0] == x4[0]);
        } else {
            assert(f8[0] == ';');
        }
    }
    assert forall|i: int| 0 <= i < a.len() implies out(#[trigger] a[i]) by {
        if i > 0 {
            assert(in_segment(a[i]) || a[i] == '.');
        }
    }
    assert forall|i: int| 0 <= i < a2.len() implies out(#[trigger] a2[i]) by {
        if i > 0 {
            assert(in_segment(a2[i]) || a2[i] == '.');
        }
    }
    lemma_run(a, e8, a2, f8, out);
}

proof fn lemma_flake_unique(
    url: Seq<char>,
    o: Seq<char>,
    p: Seq<char>,
    v: Seq<char>,
    o2: Seq<char>,
    p2: Seq<char>,
    v2: Seq<char>,
)
    requires
        is_flake(url, o, p, v),
        is_flake(url, o2, p2, v2),
    ensures
        o == o2,
        p == p2,
        v == v2,
{
    reveal_strlit("/");
    let ns = |c: char| c != '/';
    let e1 = "/"@ + (p + ("/"@ + v));
    let f1 = "/"@ + (p2 + ("/"@ + v2));
    lemma_same_start("github:"@, o + e1, "github:"@, o2 + f1);
    assert(e1[0] == '/' && f1[0] == '/');
    lemma_run(o, e1, o2, f1, ns);
    lemma_same_start("/"@, p + ("/"@ + v), "/"@, p2 + ("/"@ + v2));
    assert(("/"@ + v)[0] == '/' && ("/"@ + v2)[0] == '/');
    lemma_run(p, "/"@ + v, p2, "/"@ + v2, ns);
    lemma_same_start("/"@, v, "/"@, v2);
}

proof fn lemma_ref_unique(line: Seq<char>, r: Seq<char>, r2: Seq<char>)
    requires
        is_ref(line, r),
        is_ref(line, r2),
    ensures
        r == r2,
{
    reveal_strlit("nixlayer-source-ref:");
    let (w1, w2) = choose|w1: Seq<char>, w2: Seq<char>|
        #[trigger] ref_text(w1, w2, r) == line && blank(w1) && blank(w2);
    let (x1, x2) = choose|w1: Seq<char>, w2: Seq<char>|
        #[trigger] ref_text(w1, w2, r2) == line && blank(w1) && blank(w2);
    let sp = |c: char| is_space(c);
    let e = "nixlayer-source-ref:"@ + (w2 + r);
    let f = "nixlayer-source-ref:"@ + (x2 + r2);
    lemma_same_start("#"@, w1 + e, "#"@, x1 + f);
    assert(e[0] == 'n' && f[0] == 'n');
    lemma_run(w1, e, x1, f, sp);
    lemma_same_start("nixlayer-source-ref:"@, w2 + r, "nixlayer-source-ref:"@, x2 + r2);
    assert(!is_space(r[0]) && !is_space(r2[0]));
    lemma_run(w2, r, x2, r2, sp);
}

/// A declaration is read back as what it declares.
pub proof fn lemma_entry_fields(line: Seq<char>, n: Seq<char>, u: Seq<char>, a: Seq<char>)
    requires
        is_entry(line, n, u, a),
    ensures
        entry_fields(line) == Some((n, u, a)),
{
    let (n2, u2, a2) = choose|n: Seq<char>, u: Seq<char>, a: Seq<char>| is_entry(line, n, u, a);
    lemma_entry_unique(line, n, u, a, n2, u2, a2);
}

/// A pinned flake reference is read back as its parts.
pub proof fn lemma_flake_fields(url: Seq<char>, o: Seq<char>, p: Seq<char>, v: Seq<char>)
    requires
        is_flake(url, o, p, v),
    ensures
        flake_fields(url) == Some((o, p, v)),
{
    let (o2, p2, v2) = choose|o: Seq<char>, p: Seq<char>, v: Seq<char>| is_flake(url, o, p, v);
    lemma_flake_unique(url, o, p, v, o2, p2, v2);
}

/// A comment is read back as the branch or tag that it remembers.
pub proof fn lemma_ref_field(line: Seq<char>, r: Seq<char>)
    requires
        is_ref(line, r),
    ensures
        ref_field(line) == Some(r),
{
    let r2 = choose|r: Seq<char>| is_ref(line, r);
    lemma_ref_unique(line, r, r2);
}

// ---------------------------------------------------------------------------
// Matching
// ---------------------------------------------------------------------------

/// The capture groups of a match, the whole match first.
pub open spec fn group_views(g: Option<Vec<Option<String>>>) -> Option<Seq<Option<Seq<char>>>> {
    match g {
        Some(v) => Some(Seq::new(v@.len(), |i: int| opt_view(v@[i]))),
        None => None,
    }
}

/// The groups are those of a declaration, or there is none and the text is no declaration.
pub open spec fn entry_groups(text: Seq<char>, g: Option<Seq<Option<Seq<char>>>>) -> bool {
    match g {
        Some(v) => v.len() == 4 && v[1] is Some && v[2] is Some && v[3] is Some && is_entry(
            text,
            v[1]->0,
            v[2]->0,
            v[3]->0,
        ),
        None => forall|n: Seq<char>, u: Seq<char>, a: Seq<char>| !is_entry(text, n, u, a),
    }
}

/// The groups are those of a pinned reference, or there is none and the text is no such
/// reference.
pub open spec fn flake_groups(text: Seq<char>, g: Option<Seq<Option<Seq<char>>>>) -> bool {
    match g {
        Some(v) => v.len() == 4 && v[1] is Some && v[2] is Some && v[3] is Some && is_flake(
            text,
            v[1]->0,
            v[2]->0,
            v[3]->0,
        ),
        None => forall|o: Seq<char>, p: Seq<char>, v: Seq<char>| !is_flake(text, o, p, v),
    }
}

/// The groups are those of a remembering comment, or there is none and the text is no such
/// comment.
pub open spec fn ref_groups(text: Seq<char>, g: Option<Seq<Option<Seq<char>>>>) -> bool {
    match g {
        Some(v) => v.len() == 2 && v[1] is Some && is_ref(text, v[1]->0),
        None => forall|r: Seq<char>| !is_ref(text, r),
    }
}

/// Matches `text` against one of the three patterns of this module with `Regex::new` and
/// `Regex::captures` of the `regex` crate. The claim: a pattern matches the texts that its syntax
/// describes, with the parts between parentheses as groups. `\s` stands for the characters with the property `White_Space`, and
/// `^` and `$` stand for the two ends of the text.
#[verifier::external_body]
fn captures(pattern: &str, text: &str) -> (r: Option<Vec<Option<String>>>)
    requires
        pattern@ == ENTRY_PATTERN@ || pattern@ == FLAKE_PATTERN@ || pattern@ == REF_PATTERN@,
    ensures
        pattern@ == ENTRY_PATTERN@ ==> entry_groups(text@, group_views(r)),
        pattern@ == FLAKE_PATTERN@ ==> flake_groups(text@, group_views(r)),
        pattern@ == REF_PATTERN@ ==> ref_groups(text@, group_views(r)),
{
    let re = regex::Regex::new(pattern).ok()?;
    let found = re.captures(text)?;
    Some(found.iter().map(|m| m.map(|g| g.as_str().to_string())).collect())
}

/// The group at `i` of a match in which it took part.
fn group(v: &Vec<Option<String>>, i: usize) -> (r: String)
    requires
        i < v@.len(),
        opt_view(v@[i as int]) is Some,
    ensures
        Some(r@) == opt_view(v@[i as int]),
{
    match &v[i] {
        Some(s) => s.clone(),
        None => String::new(),
    }
}

/// What a line declares.
pub fn match_entry(line: &str) -> (r: Option<(String, String, String)>)
    ensures
        match r {
            Some(t) => entry_fields(line@) == Some((t.0@, t.1@, t.2@)),
            None => entry_fields(line@) is None,
        },
{
    let found: Option<Vec<Option<String>>> = captures(ENTRY_PATTERN, line);
    let ghost g = group_views(found);
    match found {
        Some(v) => {
            assert(g->0[1] == opt_view(v@[1]));
            assert(g->0[2] == opt_view(v@[2]));
            assert(g->0[3] == opt_view(v@[3]));
            let n: String = group(&v, 1);
            let u: String = group(&v, 2);
            let a: String = group(&v, 3);
            proof {
                lemma_entry_fields(line@, n@, u@, a@);
            }
            Some((n, u, a))
        },
        None => None,
    }
}

/// The owner, the repository and the commit of a pinned flake reference.
pub fn match_flake(url: &str) -> (r: Option<(String, String, String)>)
    ensures
        match r {
            Some(t) => flake_fields(url@) == Some((t.0@, t.1@, t.2@)),
            None => flake_fields(url@) is None,
        },
{
    let found: Option<Vec<Option<String>>> = captures(FLAKE_PATTERN, url);
    let ghost g = group_views(found);
    match found {
        Some(v) => {
            assert(g->0[1] == opt_view(v@[1]));
            assert(g->0[2] == opt_view(v@[2]));
            assert(g->0[3] == opt_view(v@[3]));
            let o: String = group(&v, 1);
            let p: String = group(&v, 2);
            let c: String = group(&v, 3);
            proof {
                lemma_flake_fields(url@, o@, p@, c@);
            }
            Some((o, p, c))
        },
        None => None,
    }
}

/// The branch or tag that a comment remembers.
pub fn match_ref(line: &str) -> (r: Option<String>)
    ensures
        match r {
            Some(t) => ref_field(line@) == Some(t@),
            None => ref_field(line@) is None,
        },
{
    let found: Option<Vec<Option<String>>> = captures(REF_PATTERN, line);
    let ghost g = group_views(found);
    match found {
        Some(v) => {
            assert(g->0[1] == opt_view(v@[1]));
            let r: String = group(&v, 1);
            proof {
                lemma_ref_field(line@, r@);
            }
            Some(r)
        },
        None => None,
    }
}

// ---------------------------------------------------------------------------
// Reading the lines
// ---------------------------------------------------------------------------

/// The sources that some lines declare, or what is wrong with the first line that is not
/// understood. `pending` is the branch or tag that was remembered above the lines.
pub open spec fn read_sources(ls: Seq<Seq<char>>, pending: Option<Seq<char>>) -> Result<
    Seq<SourceView>,
    Seq<char>,
>
    decreases ls.len(),
{
    if ls.len() == 0 {
        Ok(Seq::empty())
    } else {
        let line = trim(ls[0]);
        let rest = ls.drop_first();
        if line.len() == 0 {
            read_sources(rest, pending)
        } else {
            match ref_field(line) {
                Some(r) => read_sources(rest, Some(r)),
                None => match entry_fields(line) {
                    None => Err("unrecognized line in ghPkgs block: '"@ + line + "'"@),
                    Some(e) => match flake_fields(e.1) {
                        None => Err(
                            "'"@ + e.1 + "' isn't a pinned github:owner/repo/<commit> reference"@,
                        ),
                        Some(f) => prepend(
                            seq![
                                SourceView {
                                    name: e.0,
                                    owner: f.0,
                                    repo: f.1,
                                    rev: f.2,
                                    git_ref: pending,
                                    attr: e.2,
                                },
                            ],
                            read_sources(rest, None),
                        ),
                    },
                },
            }
        }
    }
}

/// `a` in front of what was read, where it could be read.
pub open spec fn prepend(
    a: Seq<SourceView>,
    r: Result<Seq<SourceView>, Seq<char>>,
) -> Result<Seq<SourceView>, Seq<char>> {
    match r {
        Ok(s) => Ok(a + s),
        Err(m) => Err(m),
    }
}

/// The sources that the lines of a text declare.
pub fn read_source_lines(inner: &str) -> (r: Result<Vec<GithubSource>, String>)
    ensures
        match r {
            Ok(v) => read_sources(lines(inner@), None) == Ok::<Seq<SourceView>, Seq<char>>(
                source_views(v@),
            ),
            Err(m) => read_sources(lines(inner@), None) == Err::<Seq<SourceView>, Seq<char>>(m@),
        },
{
    let ls: Vec<String> = crate::text::lines_of(inner);
    let mut out: Vec<GithubSource> = Vec::new();
    let mut pending: Option<String> = None;
    let ghost w = views(ls@);
    let ghost all = read_sources(w, None);
    proof {
        assert(w.skip(0) =~= w);
        assert(source_views(out@) =~= Seq::<SourceView>::empty());
        if all is Ok {
            assert(source_views(out@) + all->Ok_0 =~= all->Ok_0);
        }
    }
    for i in 0..ls.len()
        invariant
            w == views(ls@),
            w == lines(inner@),
            all == read_sources(w, None),
            all == prepend(source_views(out@), read_sources(w.skip(i as int), opt_view(pending))),
    {
        let ghost rest = w.skip(i as int);
        proof {
            assert(rest.drop_first() =~= w.skip(i + 1));
            assert(rest[0] == ls@[i as int]@);
        }
        let line: String = trimmed(&ls[i]);
        if !line.as_str().is_empty() {
            match match_ref(&line) {
                Some(r) => {
                    pending = Some(r);
                },
                None => {
                    let (name, url, attr): (String, String, String) = match match_entry(&line) {
                        Some(t) => t,
                        None => {
                            return Err(
                                concat3("unrecognized line in ghPkgs block: '", &line, "'"),
                            );
                        },
                    };
                    let (owner, repo, rev): (String, String, String) = match match_flake(&url) {
                        Some(t) => t,
                        None => {
                            return Err(
                                concat3(
                                    "'",
                                    &url,
                                    "' isn't a pinned github:owner/repo/<commit> reference",
                                ),
                            );
                        },
                    };
                    let ghost before = out@;
                    let source: GithubSource = GithubSource {
                        name,
                        owner,
                        repo,
                        rev,
                        git_ref: pending,
                        attr,
                    };
                    pending = None;
                    proof {
                        lemma_source_views_push(before, source);
                        let tail = read_sources(w.skip(i + 1), None);
                        if tail is Ok {
                            assert(source_views(before) + (seq![source@] + tail->Ok_0)
                                =~= source_views(before).push(source@) + tail->Ok_0);
                        }
                    }
                    out.push(source);
                },
            }
        }
    }
    proof {
        assert(w.skip(w.len() as int) =~= Seq::<Seq<char>>::empty());
        assert(source_views(out@) + Seq::<SourceView>::empty() =~= source_views(out@));
    }
    Ok(out)
}

} // verus!
