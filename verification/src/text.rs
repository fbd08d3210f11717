//! Text as sequences of characters: searching, trimming, splitting, joining.
//!
//! Specifications speak of `Seq<char>`, the view of `str` and `String`. Positions are counted
//! in characters; [`crate::nixfile`] turns them into byte offsets where those are wanted.

use vstd::prelude::*;

verus! {

/// `String::push` of the standard library: the character is appended at the end.
pub assume_specification[ String::push ](s: &mut String, c: char)
    ensures
        final(s)@ == old(s)@.push(c),
;

// ---------------------------------------------------------------------------
// Characters
// ---------------------------------------------------------------------------

/// An ASCII letter.
pub open spec fn is_alpha(c: char) -> bool {
    ('a' <= c && c <= 'z') || ('A' <= c && c <= 'Z')
}

/// An ASCII decimal digit.
pub open spec fn is_digit(c: char) -> bool {
    '0' <= c && c <= '9'
}

/// An ASCII letter or digit.
pub open spec fn is_alnum(c: char) -> bool {
    is_alpha(c) || is_digit(c)
}

/// An ASCII hexadecimal digit, of either case.
pub open spec fn is_hex(c: char) -> bool {
    is_digit(c) || ('a' <= c && c <= 'f') || ('A' <= c && c <= 'F')
}

/// A character with the Unicode property `White_Space`.
pub open spec fn is_space(c: char) -> bool {
    ||| ('\u{9}' <= c && c <= '\u{d}')
    ||| c == ' '
    ||| c == '\u{85}'
    ||| c == '\u{a0}'
    ||| c == '\u{1680}'
    ||| ('\u{2000}' <= c && c <= '\u{200a}')
    ||| c == '\u{2028}'
    ||| c == '\u{2029}'
    ||| c == '\u{202f}'
    ||| c == '\u{205f}'
    ||| c == '\u{3000}'
}

pub fn alpha(c: char) -> (r: bool)
    ensures
        r == is_alpha(c),
{
    ('a' <= c && c <= 'z') || ('A' <= c && c <= 'Z')
}

pub fn alnum(c: char) -> (r: bool)
    ensures
        r == is_alnum(c),
{
    alpha(c) || ('0' <= c && c <= '9')
}

pub fn space(c: char) -> (r: bool)
    ensures
        r == is_space(c),
{
    ('\u{9}' <= c && c <= '\u{d}') || c == ' ' || c == '\u{85}' || c == '\u{a0}' || c == '\u{1680}'
        || ('\u{2000}' <= c && c <= '\u{200a}') || c == '\u{2028}' || c == '\u{2029}' || c
        == '\u{202f}' || c == '\u{205f}' || c == '\u{3000}'
}

// ---------------------------------------------------------------------------
// Between strings and character vectors
// ---------------------------------------------------------------------------

/// The views of a sequence of strings.
pub open spec fn views(v: Seq<String>) -> Seq<Seq<char>> {
    Seq::new(v.len(), |i: int| v[i]@)
}

pub proof fn lemma_views_push(v: Seq<String>, s: String)
    ensures
        views(v.push(s)) == views(v).push(s@),
{
    assert(views(v.push(s)) =~= views(v).push(s@));
}

/// The characters of a string.
pub fn chars_of(s: &str) -> (r: Vec<char>)
    ensures
        r@ == s@,
{
    let mut r: Vec<char> = Vec::new();
    for c in it: s.chars()
        invariant
            r@ == s@.take(it.index() as int),
            it.seq() == s@,
    {
        r.push(c);
        assert(s@.take(it.index() + 1) =~= s@.take(it.index() as int).push(s@[it.index() as int]));
    }
    assert(s@.take(s@.len() as int) =~= s@);
    r
}

/// The string made of the given characters.
pub fn string_of(cs: &[char]) -> (r: String)
    ensures
        r@ == cs@,
{
    let mut r: String = String::new();
    for i in 0..cs.len()
        invariant
            r@ == cs@.take(i as int),
    {
        r.push(cs[i]);
        assert(cs@.take(i + 1) =~= cs@.take(i as int).push(cs@[i as int]));
    }
    assert(cs@.take(cs@.len() as int) =~= cs@);
    r
}

/// The characters from position `a` up to, not including, position `b`.
pub fn slice(cs: &Vec<char>, a: usize, b: usize) -> (r: String)
    requires
        a <= b <= cs@.len(),
    ensures
        r@ == cs@.subrange(a as int, b as int),
{
    let mut r: String = String::new();
    for i in a..b
        invariant
            a <= i <= b <= cs@.len(),
            r@ == cs@.subrange(a as int, i as int),
    {
        r.push(cs[i]);
        assert(cs@.subrange(a as int, i + 1) =~= cs@.subrange(a as int, i as int).push(
            cs@[i as int],
        ));
    }
    r
}

/// Whether two strings hold the same characters.
pub fn same(a: &str, b: &str) -> (r: bool)
    ensures
        r == (a@ == b@),
{
    let x: Vec<char> = chars_of(a);
    let y: Vec<char> = chars_of(b);
    if x.len() != y.len() {
        return false;
    }
    for i in 0..x.len()
        invariant
            x@ == a@,
            y@ == b@,
            x@.len() == y@.len(),
            forall|j: int| 0 <= j < i ==> x@[j] == y@[j],
    {
        if x[i] != y[i] {
            return false;
        }
    }
    assert(x@ =~= y@);
    true
}

/// Whether `v` holds a string equal to `s`.
pub fn holds(v: &Vec<String>, s: &str) -> (r: bool)
    ensures
        r == views(v@).contains(s@),
{
    for i in 0..v.len()
        invariant
            forall|j: int| 0 <= j < i ==> views(v@)[j] != s@,
    {
        if same(&v[i], s) {
            assert(views(v@)[i as int] == s@);
            return true;
        }
    }
    false
}

// ---------------------------------------------------------------------------
// Searching
// ---------------------------------------------------------------------------

/// `pat` stands in `s` at position `i`.
pub open spec fn occurs_at(s: Seq<char>, pat: Seq<char>, i: int) -> bool {
    &&& 0 <= i
    &&& i + pat.len() <= s.len()
    &&& s.subrange(i, i + pat.len()) == pat
}

/// `pat` stands somewhere in `s`.
pub open spec fn contains(s: Seq<char>, pat: Seq<char>) -> bool {
    exists|i: int| occurs_at(s, pat, i)
}

/// The first position, `from` or later, at which `pat` stands in `s`.
pub open spec fn find_from(s: Seq<char>, pat: Seq<char>, from: int) -> Option<int>
    decreases s.len() + 1 - from,
{
    if from < 0 || from + pat.len() > s.len() {
        None
    } else if occurs_at(s, pat, from) {
        Some(from)
    } else {
        find_from(s, pat, from + 1)
    }
}

pub proof fn lemma_find_from(s: Seq<char>, pat: Seq<char>, from: int)
    requires
        0 <= from,
    ensures
        match find_from(s, pat, from) {
            Some(i) => from <= i && occurs_at(s, pat, i) && forall|j: int|
                from <= j < i ==> !occurs_at(s, pat, j),
            None => forall|j: int| from <= j ==> !occurs_at(s, pat, j),
        },
    decreases s.len() + 1 - from,
{
    if from + pat.len() > s.len() {
    } else if occurs_at(s, pat, from) {
    } else {
        lemma_find_from(s, pat, from + 1);
    }
}

/// The first occurrence is determined by its two properties.
pub proof fn lemma_find_is(s: Seq<char>, pat: Seq<char>, from: int, i: int)
    requires
        0 <= from <= i,
        occurs_at(s, pat, i),
        forall|j: int| from <= j < i ==> !occurs_at(s, pat, j),
    ensures
        find_from(s, pat, from) == Some(i),
{
    lemma_find_from(s, pat, from);
}

/// A text contains each of the parts that it is made of.
pub proof fn lemma_contains_inside(a: Seq<char>, p: Seq<char>, b: Seq<char>)
    ensures
        contains(a + p + b, p),
{
    let s = a + p + b;
    let n = a.len() as int;
    assert(s.subrange(n, n + p.len()) =~= p);
    assert(occurs_at(s, p, n));
}

/// What a part contains, the whole contains.
pub proof fn lemma_contains_through(s: Seq<char>, part: Seq<char>, pat: Seq<char>)
    requires
        contains(s, part),
        contains(part, pat),
    ensures
        contains(s, pat),
{
    let i = choose|i: int| occurs_at(s, part, i);
    let j = choose|j: int| occurs_at(part, pat, j);
    assert(s.subrange(i + j, i + j + pat.len()) =~= part.subrange(j, j + pat.len())) by {
        assert forall|k: int| j <= k < j + pat.len() implies s[i + k] == part[k] by {
            assert(s.subrange(i, i + part.len())[k] == s[i + k]);
        }
    }
    assert(occurs_at(s, pat, i + j));
}

/// What does not occur in either of two texts does not occur across the place where they meet, if
/// a character that it does not have stands there.
pub proof fn lemma_lacks_both(a: Seq<char>, b: Seq<char>, pat: Seq<char>)
    requires
        pat.len() > 0,
        !contains(a, pat),
        !contains(b, pat),
        a.len() == 0 || b.len() == 0 || !pat.contains(a.last()) || !pat.contains(b[0]),
    ensures
        !contains(a + b, pat),
{
    let s = a + b;
    let n = a.len() as int;
    let m = pat.len() as int;
    if contains(s, pat) {
        let j = choose|j: int| occurs_at(s, pat, j);
        let w = s.subrange(j, j + m);
        if j + m <= n {
            assert(a.subrange(j, j + m) =~= w);
            assert(occurs_at(a, pat, j));
        } else if j >= n {
            assert(b.subrange(j - n, j - n + m) =~= w);
            assert(occurs_at(b, pat, j - n));
        } else {
            assert(w[n - 1 - j] == a.last());
            assert(w[n - j] == b[0]);
            assert(pat.contains(pat[n - 1 - j]));
            assert(pat.contains(pat[n - j]));
        }
    }
}

/// An occurrence, character by character.
pub proof fn lemma_occurs_chars(s: Seq<char>, pat: Seq<char>, i: int)
    requires
        0 <= i,
        i + pat.len() <= s.len(),
    ensures
        occurs_at(s, pat, i) <==> forall|k: int| 0 <= k < pat.len() ==> s[i + k] == #[trigger] pat[k],
{
    let w = s.subrange(i, i + pat.len());
    if forall|k: int| 0 <= k < pat.len() ==> s[i + k] == #[trigger] pat[k] {
        assert(w =~= pat);
    }
    if occurs_at(s, pat, i) {
        assert forall|k: int| 0 <= k < pat.len() implies s[i + k] == #[trigger] pat[k] by {
            assert(w[k] == pat[k]);
        }
    }
}

/// Where `pat` first occurs at or after `from`.
pub fn find(s: &Vec<char>, pat: &Vec<char>, from: usize) -> (r: Option<usize>)
    ensures
        match r {
            Some(i) => find_from(s@, pat@, from as int) == Some(i as int),
            None => find_from(s@, pat@, from as int) is None,
        },
{
    let mut i: usize = from;
    let n: usize = s.len();
    while i <= s.len() && pat.len() <= s.len() - i
        invariant
            n == s@.len(),
            from <= i,
            i <= s@.len() + 1 || i == from,
            find_from(s@, pat@, from as int) == find_from(s@, pat@, i as int),
        decreases s@.len() + 1 - i,
    {
        let mut k: usize = 0;
        let mut ok: bool = true;
        while k < pat.len() && ok
            invariant
                i + pat@.len() <= s@.len() <= usize::MAX,
                k <= pat@.len(),
                ok ==> forall|j: int| 0 <= j < k ==> s@[i + j] == #[trigger] pat@[j],
                !ok ==> exists|j: int| 0 <= j < pat@.len() && s@[i + j] != #[trigger] pat@[j],
            decreases pat@.len() - k,
        {
            if s[i + k] != pat[k] {
                ok = false;
            }
            k = k + 1;
        }
        proof {
            lemma_occurs_chars(s@, pat@, i as int);
        }
        if ok {
            return Some(i);
        }
        if i == s.len() {
            return None;
        }
        i = i + 1;
    }
    None
}

/// The first position of `pat` in `s`.
pub fn find_str(s: &str, pat: &str) -> (r: Option<usize>)
    ensures
        match r {
            Some(i) => find_from(s@, pat@, 0) == Some(i as int),
            None => find_from(s@, pat@, 0) is None,
        },
{
    find(&chars_of(s), &chars_of(pat), 0)
}

/// Whether `pat` stands somewhere in `s`.
pub fn includes(s: &str, pat: &str) -> (r: bool)
    ensures
        r == contains(s@, pat@),
{
    let r: Option<usize> = find_str(s, pat);
    proof {
        lemma_find_from(s@, pat@, 0);
    }
    r.is_some()
}

// ---------------------------------------------------------------------------
// Trimming
// ---------------------------------------------------------------------------

/// `s` without its leading white space.
pub open spec fn trim_start(s: Seq<char>) -> Seq<char>
    decreases s.len(),
{
    if s.len() > 0 && is_space(s[0]) {
        trim_start(s.drop_first())
    } else {
        s
    }
}

/// `s` without its trailing white space.
pub open spec fn trim_end(s: Seq<char>) -> Seq<char>
    decreases s.len(),
{
    if s.len() > 0 && is_space(s.last()) {
        trim_end(s.drop_last())
    } else {
        s
    }
}

/// `s` without white space at either end.
pub open spec fn trim(s: Seq<char>) -> Seq<char> {
    trim_end(trim_start(s))
}

pub fn trimmed_start(s: &str) -> (r: String)
    ensures
        r@ == trim_start(s@),
{
    let cs: Vec<char> = chars_of(s);
    let mut a: usize = 0;
    assert(cs@.subrange(0, cs@.len() as int) =~= cs@);
    while a < cs.len() && space(cs[a])
        invariant
            a <= cs@.len(),
            trim_start(cs@) == trim_start(cs@.subrange(a as int, cs@.len() as int)),
        decreases cs@.len() - a,
    {
        assert(cs@.subrange(a as int, cs@.len() as int).drop_first() =~= cs@.subrange(
            a + 1,
            cs@.len() as int,
        ));
        a = a + 1;
    }
    slice(&cs, a, cs.len())
}

pub fn trimmed_end(s: &str) -> (r: String)
    ensures
        r@ == trim_end(s@),
{
    let cs: Vec<char> = chars_of(s);
    let mut b: usize = cs.len();
    assert(cs@.subrange(0, cs@.len() as int) =~= cs@);
    while b > 0 && space(cs[b - 1])
        invariant
            b <= cs@.len(),
            trim_end(cs@) == trim_end(cs@.subrange(0, b as int)),
        decreases b,
    {
        assert(cs@.subrange(0, b as int).drop_last() =~= cs@.subrange(0, b - 1));
        b = b - 1;
    }
    slice(&cs, 0, b)
}

pub fn trimmed(s: &str) -> (r: String)
    ensures
        r@ == trim(s@),
{
    trimmed_end(&trimmed_start(s))
}

// ---------------------------------------------------------------------------
// Splitting
// ---------------------------------------------------------------------------

/// The number of characters of `s` that stand before the first `c`; all of them where there is
/// no `c`.
pub open spec fn until(s: Seq<char>, c: char) -> nat
    decreases s.len(),
{
    if s.len() == 0 || s[0] == c {
        0
    } else {
        1 + until(s.drop_first(), c)
    }
}

pub proof fn lemma_until(s: Seq<char>, c: char)
    ensures
        until(s, c) <= s.len(),
        forall|j: int| 0 <= j < until(s, c) ==> s[j] != c,
        until(s, c) < s.len() ==> s[until(s, c) as int] == c,
    decreases s.len(),
{
    if s.len() == 0 || s[0] == c {
    } else {
        let t = s.drop_first();
        lemma_until(t, c);
        assert forall|j: int| 0 <= j < until(s, c) implies s[j] != c by {
            if j > 0 {
                assert(s[j] == t[j - 1]);
            }
        }
    }
}

/// The count is determined by its properties.
pub proof fn lemma_until_is(s: Seq<char>, c: char, k: int)
    requires
        0 <= k <= s.len(),
        forall|j: int| 0 <= j < k ==> s[j] != c,
        k < s.len() ==> s[k] == c,
    ensures
        until(s, c) == k,
{
    lemma_until(s, c);
}

pub fn count_until(cs: &Vec<char>, from: usize, c: char) -> (r: usize)
    requires
        from <= cs@.len(),
    ensures
        r == from + until(cs@.skip(from as int), c),
        from <= r <= cs@.len(),
{
    let mut i: usize = from;
    while i < cs.len() && cs[i] != c
        invariant
            from <= i <= cs@.len(),
            forall|j: int| from <= j < i ==> cs@[j] != c,
        decreases cs@.len() - i,
    {
        i = i + 1;
    }
    proof {
        lemma_until_is(cs@.skip(from as int), c, i - from);
    }
    i
}

/// A line without the carriage return before its line feed.
pub open spec fn strip_cr(s: Seq<char>) -> Seq<char> {
    if s.len() > 0 && s.last() == '\r' {
        s.drop_last()
    } else {
        s
    }
}

/// The lines of a text. A line ends with a line feed or with a carriage return and a line feed,
/// neither of which belongs to it; the end of the last line is optional.
pub open spec fn lines(s: Seq<char>) -> Seq<Seq<char>>
    decreases s.len(),
{
    let k = until(s, '\n') as int;
    if s.len() == 0 {
        Seq::empty()
    } else if k >= s.len() {
        seq![s]
    } else {
        seq![strip_cr(s.take(k))] + lines(s.skip(k + 1))
    }
}

pub fn lines_of(s: &str) -> (r: Vec<String>)
    ensures
        views(r@) == lines(s@),
{
    let cs: Vec<char> = chars_of(s);
    let mut out: Vec<String> = Vec::new();
    let mut a: usize = 0;
    assert(cs@.skip(0) =~= cs@);
    assert(views(out@) =~= Seq::<Seq<char>>::empty());
    assert(views(out@) + lines(cs@.skip(0)) =~= lines(cs@));
    while a < cs.len()
        invariant
            a <= cs@.len(),
            cs@ == s@,
            views(out@) + lines(cs@.skip(a as int)) == lines(cs@),
        decreases cs@.len() - a,
    {
        let ghost rest = cs@.skip(a as int);
        let ghost before = out@;
        let b: usize = count_until(&cs, a, '\n');
        if b == cs.len() {
            let line: String = slice(&cs, a, b);
            proof {
                lemma_views_push(before, line);
                assert(line@ =~= rest);
                assert(views(before).push(line@) =~= views(before) + seq![rest]);
            }
            out.push(line);
            return out;
        }
        let e: usize = if b > a && cs[b - 1] == '\r' {
            b - 1
        } else {
            b
        };
        let line: String = slice(&cs, a, e);
        proof {
            let k = b - a;
            lemma_until(rest, '\n');
            assert(rest.take(k) =~= cs@.subrange(a as int, b as int));
            assert(line@ =~= strip_cr(rest.take(k)));
            assert(rest.skip(k + 1) =~= cs@.skip(b + 1));
            lemma_views_push(before, line);
            assert(views(before).push(line@) + lines(cs@.skip(b + 1)) =~= views(before) + (
            seq![line@] + lines(cs@.skip(b + 1))));
        }
        out.push(line);
        a = b + 1;
    }
    assert(cs@.skip(a as int) =~= Seq::<char>::empty());
    assert(lines(cs@.skip(a as int)) =~= Seq::<Seq<char>>::empty());
    assert(views(out@) + Seq::<Seq<char>>::empty() =~= views(out@));
    out
}

/// The number of characters of `s` before the first white space.
pub open spec fn word_len(s: Seq<char>) -> nat
    decreases s.len(),
{
    if s.len() == 0 || is_space(s[0]) {
        0
    } else {
        1 + word_len(s.drop_first())
    }
}

pub proof fn lemma_word_len(s: Seq<char>)
    ensures
        word_len(s) <= s.len(),
        forall|j: int| 0 <= j < word_len(s) ==> !is_space(s[j]),
        word_len(s) < s.len() ==> is_space(s[word_len(s) as int]),
        s.len() > 0 && !is_space(s[0]) ==> word_len(s) >= 1,
    decreases s.len(),
{
    if s.len() == 0 || is_space(s[0]) {
    } else {
        let t = s.drop_first();
        lemma_word_len(t);
        assert forall|j: int| 0 <= j < word_len(s) implies !is_space(s[j]) by {
            if j > 0 {
                assert(s[j] == t[j - 1]);
            }
        }
    }
}

pub proof fn lemma_word_len_is(s: Seq<char>, k: int)
    requires
        0 <= k <= s.len(),
        forall|j: int| 0 <= j < k ==> !is_space(s[j]),
        k < s.len() ==> is_space(s[k]),
    ensures
        word_len(s) == k,
{
    lemma_word_len(s);
}

/// The words of a text: its longest stretches without white space.
pub open spec fn words(s: Seq<char>) -> Seq<Seq<char>>
    decreases s.len(),
{
    if s.len() == 0 {
        Seq::empty()
    } else if is_space(s[0]) {
        words(s.drop_first())
    } else {
        let k = word_len(s);
        if k == 0 || k > s.len() {
            Seq::empty()
        } else {
            seq![s.take(k as int)] + words(s.skip(k as int))
        }
    }
}

pub proof fn lemma_words_blank(s: Seq<char>)
    requires
        forall|i: int| 0 <= i < s.len() ==> is_space(#[trigger] s[i]),
    ensures
        words(s) == Seq::<Seq<char>>::empty(),
    decreases s.len(),
{
    if s.len() > 0 {
        let t = s.drop_first();
        assert forall|i: int| 0 <= i < t.len() implies is_space(#[trigger] t[i]) by {
            assert(t[i] == s[i + 1]);
        }
        lemma_words_blank(t);
    }
}

/// The words of two texts are found one by one, where white space parts them.
pub proof fn lemma_words_concat(a: Seq<char>, b: Seq<char>)
    requires
        a.len() == 0 || is_space(a.last()) || b.len() == 0 || is_space(b[0]),
    ensures
        words(a + b) == words(a) + words(b),
    decreases a.len(),
{
    let s = a + b;
    if a.len() == 0 {
        assert(s =~= b);
        assert(words(a) + words(b) =~= words(b));
    } else if is_space(a[0]) {
        assert(s.drop_first() =~= a.drop_first() + b);
        lemma_words_concat(a.drop_first(), b);
    } else {
        lemma_word_len(a);
        let k = word_len(a) as int;
        assert(k > 0);
        lemma_word_len_is(s, k);
        assert(s.take(k) =~= a.take(k));
        assert(s.skip(k) =~= a.skip(k) + b);
        lemma_words_concat(a.skip(k), b);
        assert(words(s) =~= words(a) + words(b));
    }
}

/// A text without white space is one word.
pub proof fn lemma_one_word(s: Seq<char>)
    requires
        s.len() > 0,
        forall|i: int| 0 <= i < s.len() ==> !is_space(#[trigger] s[i]),
    ensures
        words(s) == seq![s],
{
    lemma_word_len_is(s, s.len() as int);
    assert(s.take(s.len() as int) =~= s);
    assert(words(s.skip(s.len() as int)) =~= Seq::<Seq<char>>::empty());
    assert(words(s) =~= seq![s]);
}

pub fn words_of(s: &str) -> (r: Vec<String>)
    ensures
        views(r@) == words(s@),
{
    let cs: Vec<char> = chars_of(s);
    let mut out: Vec<String> = Vec::new();
    let mut a: usize = 0;
    assert(cs@.skip(0) =~= cs@);
    assert(views(out@) =~= Seq::<Seq<char>>::empty());
    assert(views(out@) + words(cs@.skip(0)) =~= words(cs@));
    while a < cs.len()
        invariant
            a <= cs@.len(),
            cs@ == s@,
            views(out@) + words(cs@.skip(a as int)) == words(cs@),
        decreases cs@.len() - a,
    {
        let ghost rest = cs@.skip(a as int);
        let ghost before = out@;
        if space(cs[a]) {
            assert(rest.drop_first() =~= cs@.skip(a + 1));
            a = a + 1;
        } else {
            let mut b: usize = a;
            while b < cs.len() && !space(cs[b])
                invariant
                    a <= b <= cs@.len(),
                    forall|j: int| a <= j < b ==> !is_space(cs@[j]),
                decreases cs@.len() - b,
            {
                b = b + 1;
            }
            let word: String = slice(&cs, a, b);
            proof {
                lemma_word_len_is(rest, b - a);
                lemma_word_len(rest);
                assert(rest.take(b - a) =~= word@);
                assert(rest.skip(b - a) =~= cs@.skip(b as int));
                lemma_views_push(before, word);
                assert(views(before).push(word@) + words(cs@.skip(b as int)) =~= views(before) + (
                seq![word@] + words(cs@.skip(b as int))));
            }
            out.push(word);
            a = b;
        }
    }
    assert(cs@.skip(a as int) =~= Seq::<char>::empty());
    assert(words(cs@.skip(a as int)) =~= Seq::<Seq<char>>::empty());
    assert(views(out@) + Seq::<Seq<char>>::empty() =~= views(out@));
    out
}

/// The pieces of `s` between its occurrences of `c`. There is one more piece than occurrences.
pub open spec fn split(s: Seq<char>, c: char) -> Seq<Seq<char>>
    decreases s.len(),
{
    let k = until(s, c) as int;
    if k >= s.len() {
        seq![s]
    } else {
        seq![s.take(k)] + split(s.skip(k + 1), c)
    }
}

/// `s` cut at its first `c`, which belongs to neither part.
pub open spec fn split_once(s: Seq<char>, c: char) -> Option<(Seq<char>, Seq<char>)> {
    let k = until(s, c) as int;
    if k >= s.len() {
        None
    } else {
        Some((s.take(k), s.skip(k + 1)))
    }
}

pub fn cut_first(s: &str, c: char) -> (r: Option<(String, String)>)
    ensures
        match r {
            Some(p) => split_once(s@, c) == Some((p.0@, p.1@)),
            None => split_once(s@, c) is None,
        },
{
    let cs: Vec<char> = chars_of(s);
    let k: usize = count_until(&cs, 0, c);
    assert(cs@.skip(0) =~= cs@);
    if k == cs.len() {
        return None;
    }
    let a: String = slice(&cs, 0, k);
    let b: String = slice(&cs, k + 1, cs.len());
    assert(a@ =~= s@.take(k as int));
    assert(b@ =~= s@.skip(k + 1));
    Some((a, b))
}

/// The position of the last `c` in `s`, or -1.
pub open spec fn last_at(s: Seq<char>, c: char) -> int
    decreases s.len(),
{
    if s.len() == 0 {
        -1
    } else if s.last() == c {
        s.len() - 1
    } else {
        last_at(s.drop_last(), c)
    }
}

/// What stands in `s` behind its last `c`, where there is one.
pub open spec fn after_last(s: Seq<char>, c: char) -> Option<Seq<char>> {
    let k = last_at(s, c);
    if k < 0 {
        None
    } else {
        Some(s.skip(k + 1))
    }
}

pub fn behind_last(s: &str, c: char) -> (r: Option<String>)
    ensures
        match r {
            Some(p) => after_last(s@, c) == Some(p@),
            None => after_last(s@, c) is None,
        },
{
    let cs: Vec<char> = chars_of(s);
    let mut b: usize = cs.len();
    assert(cs@.take(cs@.len() as int) =~= cs@);
    while b > 0 && cs[b - 1] != c
        invariant
            b <= cs@.len(),
            last_at(cs@, c) == last_at(cs@.take(b as int), c),
        decreases b,
    {
        assert(cs@.take(b as int).drop_last() =~= cs@.take(b - 1));
        b = b - 1;
    }
    if b == 0 {
        return None;
    }
    let r: String = slice(&cs, b, cs.len());
    assert(r@ =~= s@.skip(b as int));
    Some(r)
}

// ---------------------------------------------------------------------------
// Joining and padding
// ---------------------------------------------------------------------------

/// The texts one after the other, with `sep` between any two neighbours.
pub open spec fn join(v: Seq<Seq<char>>, sep: Seq<char>) -> Seq<char>
    decreases v.len(),
{
    if v.len() == 0 {
        Seq::empty()
    } else if v.len() == 1 {
        v[0]
    } else {
        join(v.drop_last(), sep) + sep + v.last()
    }
}

pub fn joined(v: &Vec<String>, sep: &str) -> (r: String)
    ensures
        r@ == join(views(v@), sep@),
{
    let mut out: String = String::new();
    for i in 0..v.len()
        invariant
            out@ == join(views(v@).take(i as int), sep@),
    {
        if i > 0 {
            out.append(sep);
        }
        out.append(&v[i]);
        proof {
            let t = views(v@).take(i + 1);
            assert(t.drop_last() =~= views(v@).take(i as int));
            assert(t.last() == v@[i as int]@);
            if i == 0 {
                assert(join(views(v@).take(0), sep@) =~= Seq::<char>::empty());
                assert(out@ =~= t[0]);
            }
        }
    }
    assert(views(v@).take(v@.len() as int) =~= views(v@));
    out
}

/// `a`, then `b`.
pub fn concat2(a: &str, b: &str) -> (r: String)
    ensures
        r@ == a@ + b@,
{
    let mut s: String = a.to_string();
    s.append(b);
    s
}

/// `a`, then `b`, then `c`.
pub fn concat3(a: &str, b: &str, c: &str) -> (r: String)
    ensures
        r@ == a@ + b@ + c@,
{
    let mut s: String = a.to_string();
    s.append(b);
    s.append(c);
    s
}

/// `s` with spaces behind it, at least `width` characters in all.
pub open spec fn pad_right(s: Seq<char>, width: nat) -> Seq<char> {
    if s.len() >= width {
        s
    } else {
        s + Seq::new((width - s.len()) as nat, |i: int| ' ')
    }
}

pub fn padded(s: &str, width: usize) -> (r: String)
    ensures
        r@ == pad_right(s@, width as nat),
{
    let mut out: String = s.to_string();
    let mut n: usize = s.unicode_len();
    let ghost len = s@.len();
    assert(out@ =~= s@ + Seq::new(0, |i: int| ' '));
    while n < width
        invariant
            len <= n,
            n <= width || n == len,
            out@ == s@ + Seq::new((n - len) as nat, |i: int| ' '),
        decreases width - n,
    {
        out.push(' ');
        n = n + 1;
        assert(out@ =~= s@ + Seq::new((n - len) as nat, |i: int| ' '));
    }
    out
}

// ---------------------------------------------------------------------------
// Numbers
// ---------------------------------------------------------------------------

/// The decimal digit of value `d`.
pub open spec fn digit(d: int) -> char {
    seq!['0', '1', '2', '3', '4', '5', '6', '7', '8', '9'][d]
}

/// A number written in decimal, without leading zeros.
pub open spec fn decimal(n: nat) -> Seq<char>
    decreases n,
{
    if n < 10 {
        seq![digit(n as int)]
    } else {
        decimal(n / 10).push(digit((n % 10) as int))
    }
}

fn digit_char(d: u128) -> (r: char)
    requires
        d < 10,
    ensures
        r == digit(d as int),
{
    if d == 0 {
        '0'
    } else if d == 1 {
        '1'
    } else if d == 2 {
        '2'
    } else if d == 3 {
        '3'
    } else if d == 4 {
        '4'
    } else if d == 5 {
        '5'
    } else if d == 6 {
        '6'
    } else if d == 7 {
        '7'
    } else if d == 8 {
        '8'
    } else {
        '9'
    }
}

pub fn decimal_of(n: u128) -> (r: String)
    ensures
        r@ == decimal(n as nat),
    decreases n,
{
    if n < 10 {
        let mut s: String = String::new();
        s.push(digit_char(n));
        assert(s@ =~= seq![digit(n as int)]);
        s
    } else {
        let mut s: String = decimal_of(n / 10);
        s.push(digit_char(n % 10));
        s
    }
}

/// A length written in decimal.
pub fn count_text(n: usize) -> (r: String)
    ensures
        r@ == decimal(n as nat),
{
    decimal_of(n as u128)
}

/// The value of a row of decimal digits.
pub open spec fn digits_value(s: Seq<char>) -> nat
    decreases s.len(),
{
    if s.len() == 0 {
        0
    } else {
        10 * digits_value(s.drop_last()) + (s.last() as nat - '0' as nat) as nat
    }
}

/// Decimal digits only.
pub open spec fn all_digits(s: Seq<char>) -> bool {
    forall|i: int| 0 <= i < s.len() ==> is_digit(#[trigger] s[i])
}

/// `s` without the plus sign in front, where it has one.
pub open spec fn without_plus(s: Seq<char>) -> Seq<char> {
    if s.len() > 0 && s[0] == '+' {
        s.drop_first()
    } else {
        s
    }
}

/// The number that a text writes: decimal digits, at least one, behind an optional `+`.
pub open spec fn number(s: Seq<char>) -> Option<nat> {
    let d = without_plus(s);
    if d.len() > 0 && all_digits(d) {
        Some(digits_value(d))
    } else {
        None
    }
}

proof fn lemma_digits_value_grows(s: Seq<char>, k: int)
    requires
        0 <= k <= s.len(),
    ensures
        digits_value(s.take(k)) <= digits_value(s),
    decreases s.len(),
{
    if k == s.len() {
        assert(s.take(k) =~= s);
    } else {
        lemma_digits_value_grows(s.drop_last(), k);
        assert(s.drop_last().take(k) =~= s.take(k));
    }
}

/// The number that a text writes, where it fits in `usize`.
pub fn parse_number(s: &str) -> (r: Option<usize>)
    ensures
        match r {
            Some(n) => number(s@) == Some(n as nat),
            None => number(s@) is None || number(s@)->0 > usize::MAX,
        },
{
    let cs: Vec<char> = chars_of(s);
    let start: usize = if cs.len() > 0 && cs[0] == '+' {
        1
    } else {
        0
    };
    let ghost d = cs@.skip(start as int);
    assert(start == 0 ==> d =~= s@);
    assert(start == 1 ==> d =~= s@.drop_first());
    if start == cs.len() {
        return None;
    }
    let mut v: usize = 0;
    let mut i: usize = start;
    assert(d.take(0) =~= Seq::<char>::empty());
    while i < cs.len()
        invariant
            start <= i <= cs@.len(),
            d == cs@.skip(start as int),
            start <= 1,
            d == without_plus(s@),
            d.len() > 0,
            forall|j: int| 0 <= j < i - start ==> is_digit(#[trigger] d[j]),
            v == digits_value(d.take(i - start)),
        decreases cs@.len() - i,
    {
        let c: char = cs[i];
        assert(d[i - start] == c);
        if !('0' <= c && c <= '9') {
            assert(!is_digit(d[i - start]));
            return None;
        }
        let x: usize = (c as u32 - '0' as u32) as usize;
        proof {
            assert(d.take(i - start + 1).drop_last() =~= d.take(i - start));
            lemma_digits_value_grows(d, i - start + 1);
        }
        if v > (usize::MAX - x) / 10 {
            assert(10 * v + x > usize::MAX);
            return None;
        }
        v = 10 * v + x;
        i = i + 1;
    }
    assert(d.take(d.len() as int) =~= d);
    Some(v)
}

} // verus!
