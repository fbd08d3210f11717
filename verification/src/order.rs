//! The order of texts, and sorting by it.

use vstd::prelude::*;

use crate::text::{chars_of, lemma_views_push, same, views};

verus! {

/// `a` comes before `b` or equals it, character by character.
pub open spec fn le(a: Seq<char>, b: Seq<char>) -> bool
    decreases a.len(),
{
    if a.len() == 0 {
        true
    } else if b.len() == 0 {
        false
    } else if a[0] != b[0] {
        a[0] < b[0]
    } else {
        le(a.drop_first(), b.drop_first())
    }
}

pub proof fn lemma_le_total(a: Seq<char>, b: Seq<char>)
    ensures
        le(a, a),
        le(a, b) || le(b, a),
        le(a, b) && le(b, a) ==> a == b,
    decreases a.len(),
{
    if a.len() == 0 {
        if b.len() == 0 {
            assert(a =~= b);
        }
    } else {
        lemma_le_total(a.drop_first(), b.drop_first());
        if b.len() > 0 && a[0] == b[0] && a.drop_first() == b.drop_first() {
            assert(a =~= seq![a[0]] + a.drop_first());
            assert(b =~= seq![b[0]] + b.drop_first());
        }
    }
}

pub proof fn lemma_le_transitive(a: Seq<char>, b: Seq<char>, c: Seq<char>)
    requires
        le(a, b),
        le(b, c),
    ensures
        le(a, c),
    decreases a.len(),
{
    if a.len() > 0 && a[0] == b[0] && b[0] == c[0] {
        lemma_le_transitive(a.drop_first(), b.drop_first(), c.drop_first());
    }
}

/// Whether `a` comes before `b` or equals it.
pub fn not_after(a: &str, b: &str) -> (r: bool)
    ensures
        r == le(a@, b@),
{
    let x: Vec<char> = chars_of(a);
    let y: Vec<char> = chars_of(b);
    let mut i: usize = 0;
    assert(x@.skip(0) =~= x@);
    assert(y@.skip(0) =~= y@);
    while i < x.len()
        invariant
            i <= x@.len(),
            i <= y@.len(),
            le(a@, b@) == le(x@.skip(i as int), y@.skip(i as int)),
        decreases x@.len() - i,
    {
        if i >= y.len() {
            return false;
        }
        if x[i] != y[i] {
            return x[i] < y[i];
        }
        assert(x@.skip(i as int).drop_first() =~= x@.skip(i + 1));
        assert(y@.skip(i as int).drop_first() =~= y@.skip(i + 1));
        i = i + 1;
    }
    true
}

// ---------------------------------------------------------------------------
// Sorting
// ---------------------------------------------------------------------------

/// The keys never go down.
pub open spec fn ascending<A>(s: Seq<A>, key: spec_fn(A) -> Seq<char>) -> bool {
    forall|i: int, j: int| 0 <= i <= j < s.len() ==> le(#[trigger] key(s[i]), #[trigger] key(s[j]))
}

/// How many leading items of `s` have a key that is not after `k`.
pub open spec fn rank<A>(s: Seq<A>, k: Seq<char>, key: spec_fn(A) -> Seq<char>) -> nat
    decreases s.len(),
{
    if s.len() == 0 || !le(key(s[0]), k) {
        0
    } else {
        1 + rank(s.drop_first(), k, key)
    }
}

pub proof fn lemma_rank<A>(s: Seq<A>, k: Seq<char>, key: spec_fn(A) -> Seq<char>)
    ensures
        rank(s, k, key) <= s.len(),
        forall|j: int| 0 <= j < rank(s, k, key) ==> le(key(#[trigger] s[j]), k),
        rank(s, k, key) < s.len() ==> !le(key(s[rank(s, k, key) as int]), k),
    decreases s.len(),
{
    if s.len() > 0 && le(key(s[0]), k) {
        let t = s.drop_first();
        lemma_rank(t, k, key);
        assert forall|j: int| 0 <= j < rank(s, k, key) implies le(key(#[trigger] s[j]), k) by {
            if j > 0 {
                assert(s[j] == t[j - 1]);
            }
        }
    }
}

/// `s` with `x` put behind the leading items whose key is not after the key of `x`.
pub open spec fn put<A>(s: Seq<A>, x: A, key: spec_fn(A) -> Seq<char>) -> Seq<A> {
    s.insert(rank(s, key(x), key) as int, x)
}

/// The items of `s` in ascending order of their keys; items with equal keys stay in the order
/// in which they stand in `s`.
pub open spec fn sort_by_key<A>(s: Seq<A>, key: spec_fn(A) -> Seq<char>) -> Seq<A>
    decreases s.len(),
{
    if s.len() == 0 {
        s
    } else {
        put(sort_by_key(s.drop_last(), key), s.last(), key)
    }
}

pub proof fn lemma_put<A>(s: Seq<A>, x: A, key: spec_fn(A) -> Seq<char>)
    requires
        ascending(s, key),
    ensures
        ascending(put(s, x, key), key),
        put(s, x, key).len() == s.len() + 1,
        put(s, x, key).to_multiset() == s.to_multiset().insert(x),
{
    let k = key(x);
    let n = rank(s, k, key) as int;
    let t = put(s, x, key);
    lemma_rank(s, k, key);
    s.insert_ensures(n, x);
    vstd::seq_lib::to_multiset_insert(s, n, x);
    assert forall|i: int, j: int| 0 <= i <= j < t.len() implies le(
        #[trigger] key(t[i]),
        #[trigger] key(t[j]),
    ) by {
        let a = if i < n {
            s[i]
        } else if i == n {
            x
        } else {
            s[i - 1]
        };
        let b = if j < n {
            s[j]
        } else if j == n {
            x
        } else {
            s[j - 1]
        };
        assert(t[i] == a && t[j] == b);
        lemma_le_total(k, k);
        if i == n && j > n {
            lemma_le_total(k, key(s[n]));
            assert(le(k, key(s[n])));
            assert(le(key(s[n]), key(s[j - 1])));
            lemma_le_transitive(k, key(s[n]), key(s[j - 1]));
        }
    }
}

/// Sorting loses no item, adds none, and leaves the keys ascending.
pub proof fn lemma_sort_by_key<A>(s: Seq<A>, key: spec_fn(A) -> Seq<char>)
    ensures
        ascending(sort_by_key(s, key), key),
        sort_by_key(s, key).len() == s.len(),
        sort_by_key(s, key).to_multiset() == s.to_multiset(),
    decreases s.len(),
{
    if s.len() > 0 {
        lemma_sort_by_key(s.drop_last(), key);
        lemma_put(sort_by_key(s.drop_last(), key), s.last(), key);
        vstd::seq_lib::to_multiset_build(s.drop_last(), s.last());
        assert(s =~= s.drop_last().push(s.last()));
    }
}

pub proof fn lemma_sort_contains<A>(s: Seq<A>, key: spec_fn(A) -> Seq<char>, x: A)
    ensures
        sort_by_key(s, key).contains(x) <==> s.contains(x),
{
    lemma_sort_by_key(s, key);
    vstd::seq_lib::to_multiset_contains(s, x);
    vstd::seq_lib::to_multiset_contains(sort_by_key(s, key), x);
}

/// Sorting what is sorted changes nothing.
pub proof fn lemma_sort_ascending<A>(s: Seq<A>, key: spec_fn(A) -> Seq<char>)
    requires
        ascending(s, key),
    ensures
        sort_by_key(s, key) == s,
    decreases s.len(),
{
    if s.len() > 0 {
        let t = s.drop_last();
        let x = s.last();
        assert(ascending(t, key)) by {
            assert forall|i: int, j: int| 0 <= i <= j < t.len() implies le(
                #[trigger] key(t[i]),
                #[trigger] key(t[j]),
            ) by {
                assert(le(key(s[i]), key(s[j])));
            }
        }
        lemma_sort_ascending(t, key);
        lemma_rank(t, key(x), key);
        let n = rank(t, key(x), key) as int;
        if n < t.len() {
            assert(t[n] == s[n]);
            assert(le(key(s[n]), key(s[s.len() - 1])));
        }
        assert(put(t, x, key) =~= s);
    }
}

/// No two items have the same key.
pub open spec fn distinct_keys<A>(s: Seq<A>, key: spec_fn(A) -> Seq<char>) -> bool {
    forall|i: int, j: int| 0 <= i < j < s.len() ==> #[trigger] key(s[i]) != #[trigger] key(s[j])
}

/// Sorting keeps the keys apart.
pub proof fn lemma_sort_distinct<A>(s: Seq<A>, key: spec_fn(A) -> Seq<char>)
    requires
        distinct_keys(s, key),
    ensures
        distinct_keys(sort_by_key(s, key), key),
    decreases s.len(),
{
    if s.len() > 0 {
        let t = s.drop_last();
        let x = s.last();
        let u = sort_by_key(t, key);
        assert forall|i: int, j: int| 0 <= i < j < t.len() implies #[trigger] key(t[i])
            != #[trigger] key(t[j]) by {
            assert(key(s[i]) != key(s[j]));
        }
        lemma_sort_distinct(t, key);
        lemma_rank(u, key(x), key);
        let n = rank(u, key(x), key) as int;
        u.insert_ensures(n, x);
        let w = put(u, x, key);
        assert forall|i: int| 0 <= i < u.len() implies #[trigger] key(u[i]) != key(x) by {
            lemma_sort_contains(t, key, u[i]);
            assert(u.contains(u[i]));
            let k = choose|k: int| 0 <= k < t.len() && t[k] == u[i];
            assert(key(s[k]) != key(s[s.len() - 1]));
        }
        assert forall|i: int, j: int| 0 <= i < j < w.len() implies #[trigger] key(w[i])
            != #[trigger] key(w[j]) by {
            let a = if i < n {
                u[i]
            } else if i == n {
                x
            } else {
                u[i - 1]
            };
            let b = if j < n {
                u[j]
            } else if j == n {
                x
            } else {
                u[j - 1]
            };
            assert(w[i] == a && w[j] == b);
        }
    }
}

/// Items with distinct keys are sorted the same way, whatever order they stand in.
pub proof fn lemma_same_items_sort_alike<A>(s: Seq<A>, t: Seq<A>, key: spec_fn(A) -> Seq<char>)
    requires
        distinct_keys(s, key),
        distinct_keys(t, key),
        forall|x: A| s.contains(x) <==> t.contains(x),
    ensures
        sort_by_key(s, key) == sort_by_key(t, key),
{
    let a = sort_by_key(s, key);
    let b = sort_by_key(t, key);
    lemma_sort_by_key(s, key);
    lemma_sort_by_key(t, key);
    lemma_sort_distinct(s, key);
    lemma_sort_distinct(t, key);
    assert forall|x: A| a.contains(x) <==> b.contains(x) by {
        lemma_sort_contains(s, key, x);
        lemma_sort_contains(t, key, x);
    }
    let ka = a.map_values(key);
    let kb = b.map_values(key);
    assert forall|i: int, j: int| 0 <= i < j < ka.len() implies le(
        #[trigger] ka[i],
        #[trigger] ka[j],
    ) && ka[i] != ka[j] by {
        assert(le(key(a[i]), key(a[j])));
    }
    assert forall|i: int, j: int| 0 <= i < j < kb.len() implies le(
        #[trigger] kb[i],
        #[trigger] kb[j],
    ) && kb[i] != kb[j] by {
        assert(le(key(b[i]), key(b[j])));
    }
    assert forall|k: Seq<char>| ka.contains(k) <==> kb.contains(k) by {
        if ka.contains(k) {
            let i = choose|i: int| 0 <= i < ka.len() && ka[i] == k;
            assert(a.contains(a[i]));
            let j = choose|j: int| 0 <= j < b.len() && b[j] == a[i];
            assert(kb[j] == k);
        }
        if kb.contains(k) {
            let i = choose|i: int| 0 <= i < kb.len() && kb[i] == k;
            assert(b.contains(b[i]));
            let j = choose|j: int| 0 <= j < a.len() && a[j] == b[i];
            assert(ka[j] == k);
        }
    }
    lemma_strictly_ascending_unique(ka, kb);
    assert forall|i: int| 0 <= i < a.len() implies a[i] == b[i] by {
        assert(a.contains(a[i]));
        let j = choose|j: int| 0 <= j < b.len() && b[j] == a[i];
        assert(ka[i] == kb[i]);
        assert(kb[j] == key(b[j]) && kb[i] == key(b[i]));
    }
    assert(a.len() == ka.len() && b.len() == kb.len());
    assert(a =~= b);
}

/// What a row with one more text holds.
pub proof fn lemma_push_contains(s: Seq<Seq<char>>, x: Seq<char>, y: Seq<char>)
    ensures
        s.push(x).contains(y) <==> s.contains(y) || x == y,
{
    if s.contains(y) {
        let i = choose|i: int| 0 <= i < s.len() && s[i] == y;
        assert(s.push(x)[i] == y);
    }
    if x == y {
        assert(s.push(x)[s.len() as int] == y);
    }
    if s.push(x).contains(y) && x != y {
        let i = choose|i: int| 0 <= i < s.push(x).len() && s.push(x)[i] == y;
        assert(s[i] == y);
    }
}

/// A text is its own key.
pub open spec fn itself() -> spec_fn(Seq<char>) -> Seq<char> {
    |s: Seq<char>| s
}

/// The texts in ascending order.
pub open spec fn sorted(s: Seq<Seq<char>>) -> Seq<Seq<char>> {
    sort_by_key(s, itself())
}

/// Neighbours that are equal are kept once.
pub open spec fn dedup(s: Seq<Seq<char>>) -> Seq<Seq<char>>
    decreases s.len(),
{
    if s.len() <= 1 {
        s
    } else if s[s.len() - 2] == s.last() {
        dedup(s.drop_last())
    } else {
        dedup(s.drop_last()).push(s.last())
    }
}

/// The texts in ascending order, each once.
pub open spec fn unique(s: Seq<Seq<char>>) -> Seq<Seq<char>> {
    dedup(sorted(s))
}

/// Each text comes before the next and differs from it.
pub open spec fn strictly_ascending(s: Seq<Seq<char>>) -> bool {
    forall|i: int, j: int| 0 <= i < j < s.len() ==> le(#[trigger] s[i], #[trigger] s[j]) && s[i] != s[j]
}

pub proof fn lemma_dedup(s: Seq<Seq<char>>)
    requires
        ascending(s, itself()),
    ensures
        strictly_ascending(dedup(s)),
        s.len() > 0 ==> dedup(s).len() > 0 && dedup(s).last() == s.last(),
        forall|x: Seq<char>| #[trigger] dedup(s).contains(x) <==> s.contains(x),
    decreases s.len(),
{
    if s.len() > 1 {
        let t = s.drop_last();
        let d = dedup(t);
        assert(ascending(t, itself())) by {
            assert forall|i: int, j: int| 0 <= i <= j < t.len() implies le(
                #[trigger] itself()(t[i]),
                #[trigger] itself()(t[j]),
            ) by {
                assert(le(itself()(s[i]), itself()(s[j])));
            }
        }
        lemma_dedup(t);
        assert(t.last() == s[s.len() - 2]);
        assert forall|x: Seq<char>| dedup(s).contains(x) <==> s.contains(x) by {
            assert(dedup(t).contains(x) <==> t.contains(x));
            if s.contains(x) {
                let i = choose|i: int| 0 <= i < s.len() && s[i] == x;
                if i < t.len() {
                    assert(t[i] == x);
                    assert(t.contains(x));
                    let j = choose|j: int| 0 <= j < d.len() && d[j] == x;
                    assert(dedup(s)[j] == x);
                } else {
                    assert(dedup(s).last() == x);
                    assert(dedup(s)[dedup(s).len() - 1] == x);
                }
            }
            if dedup(s).contains(x) {
                let i = choose|i: int| 0 <= i < dedup(s).len() && dedup(s)[i] == x;
                if i < d.len() {
                    assert(d[i] == x);
                    assert(d.contains(x));
                    let j = choose|j: int| 0 <= j < t.len() && t[j] == x;
                    assert(s[j] == x);
                } else {
                    assert(s[s.len() - 1] == x);
                }
            }
        }
        if s[s.len() - 2] != s.last() {
            let r = dedup(s);
            assert forall|i: int, j: int| 0 <= i < j < r.len() implies le(
                #[trigger] r[i],
                #[trigger] r[j],
            ) && r[i] != r[j] by {
                if j == d.len() {
                    assert(d.contains(d[i]));
                    let m = choose|m: int| 0 <= m < t.len() && t[m] == d[i];
                    assert(s[m] == r[i]);
                    assert(le(itself()(s[m]), itself()(s[s.len() - 1])));
                    assert(le(itself()(s[m]), itself()(s[s.len() - 2])));
                    assert(le(itself()(s[s.len() - 2]), itself()(s[s.len() - 1])));
                    if r[i] == r[j] {
                        lemma_le_total(s[s.len() - 2], s.last());
                    }
                }
            }
        }
    } else if s.len() == 1 {
        assert(s[0] == s.last());
    }
}

/// Sorting texts and dropping repetitions keeps exactly the texts that were there, and puts
/// them in strictly ascending order.
pub proof fn lemma_unique(s: Seq<Seq<char>>)
    ensures
        strictly_ascending(unique(s)),
        forall|x: Seq<char>| unique(s).contains(x) <==> s.contains(x),
        unique(s).len() == 0 <==> s.len() == 0,
{
    lemma_sort_by_key(s, itself());
    lemma_dedup(sorted(s));
    assert forall|x: Seq<char>| unique(s).contains(x) <==> s.contains(x) by {
        lemma_sort_contains(s, itself(), x);
    }
    if s.len() == 0 {
        assert(unique(s).len() == 0);
    }
}

/// Two strictly ascending rows with the same texts are equal.
pub proof fn lemma_strictly_ascending_unique(a: Seq<Seq<char>>, b: Seq<Seq<char>>)
    requires
        strictly_ascending(a),
        strictly_ascending(b),
        forall|x: Seq<char>| a.contains(x) <==> b.contains(x),
    ensures
        a == b,
    decreases a.len() + b.len(),
{
    if a.len() == 0 {
        if b.len() > 0 {
            assert(b.contains(b[0]));
        }
        assert(a =~= b);
    } else if b.len() == 0 {
        assert(a.contains(a[0]));
    } else {
        let x = a.last();
        let y = b.last();
        assert(a.contains(x) && b.contains(y)) by {
            assert(a[a.len() - 1] == x);
            assert(b[b.len() - 1] == y);
        }
        let i = choose|i: int| 0 <= i < b.len() && b[i] == x;
        let j = choose|j: int| 0 <= j < a.len() && a[j] == y;
        assert(x == y) by {
            assert(b.contains(x) && a.contains(y));
            if i < b.len() - 1 && j < a.len() - 1 {
                assert(le(b[i], b[b.len() - 1]));
                assert(le(a[j], a[a.len() - 1]));
                lemma_le_total(x, y);
            }
        }
        let a1 = a.drop_last();
        let b1 = b.drop_last();
        assert(strictly_ascending(a1) && strictly_ascending(b1));
        assert forall|z: Seq<char>| a1.contains(z) <==> b1.contains(z) by {
            if a1.contains(z) {
                let m = choose|m: int| 0 <= m < a1.len() && a1[m] == z;
                assert(a[m] == z && a[m] != a[a.len() - 1]);
                assert(a.contains(z));
                let n = choose|n: int| 0 <= n < b.len() && b[n] == z;
                assert(b1[n] == z);
            }
            if b1.contains(z) {
                let m = choose|m: int| 0 <= m < b1.len() && b1[m] == z;
                assert(b[m] == z && b[m] != b[b.len() - 1]);
                assert(b.contains(z));
                let n = choose|n: int| 0 <= n < a.len() && a[n] == z;
                assert(a1[n] == z);
            }
        }
        lemma_strictly_ascending_unique(a1, b1);
        assert(a =~= a1.push(x));
        assert(b =~= b1.push(y));
    }
}

/// Rows with the same texts are made into the same row of distinct, ascending texts.
pub proof fn lemma_unique_of_same(a: Seq<Seq<char>>, b: Seq<Seq<char>>)
    requires
        forall|x: Seq<char>| a.contains(x) <==> b.contains(x),
    ensures
        unique(a) == unique(b),
{
    lemma_unique(a);
    lemma_unique(b);
    assert forall|x: Seq<char>| unique(a).contains(x) <==> unique(b).contains(x) by {
        assert(a.contains(x) <==> b.contains(x));
    }
    lemma_strictly_ascending_unique(unique(a), unique(b));
}

/// The position behind the leading strings of `v` that are not after `s`.
pub fn place(v: &Vec<String>, s: &str) -> (r: usize)
    ensures
        r == rank(views(v@), s@, itself()),
        r <= v@.len(),
{
    let ghost w = views(v@);
    let mut i: usize = 0;
    assert(w.skip(0) =~= w);
    while i < v.len() && not_after(&v[i], s)
        invariant
            i <= v@.len(),
            w == views(v@),
            rank(w, s@, itself()) == i + rank(w.skip(i as int), s@, itself()),
        decreases v@.len() - i,
    {
        assert(w.skip(i as int).drop_first() =~= w.skip(i + 1));
        i = i + 1;
    }
    i
}

/// The strings in ascending order.
pub fn sort(v: &Vec<String>) -> (r: Vec<String>)
    ensures
        views(r@) == sorted(views(v@)),
{
    let mut out: Vec<String> = Vec::new();
    let ghost w = views(v@);
    assert(views(out@) =~= sorted(w.take(0)));
    for i in 0..v.len()
        invariant
            w == views(v@),
            views(out@) == sorted(w.take(i as int)),
    {
        let p: usize = place(&out, &v[i]);
        let ghost before = out@;
        let s: String = v[i].clone();
        out.insert(p, s);
        proof {
            assert(w.take(i + 1).drop_last() =~= w.take(i as int));
            assert(w.take(i + 1).last() == v@[i as int]@);
            assert(views(out@) =~= views(before).insert(p as int, s@));
        }
    }
    assert(w.take(w.len() as int) =~= w);
    out
}

/// The strings in ascending order, each once.
pub fn sort_unique(v: &Vec<String>) -> (r: Vec<String>)
    ensures
        views(r@) == unique(views(v@)),
{
    let s: Vec<String> = sort(v);
    let ghost w = views(s@);
    let mut out: Vec<String> = Vec::new();
    assert(views(out@) =~= dedup(w.take(0)));
    for i in 0..s.len()
        invariant
            w == views(s@),
            views(out@) == dedup(w.take(i as int)),
    {
        let ghost t = w.take(i + 1);
        let ghost before = out@;
        assert(t.drop_last() =~= w.take(i as int));
        assert(t.last() == s@[i as int]@);
        if i > 0 && same(&s[i - 1], &s[i]) {
            assert(t[t.len() - 2] == t.last());
        } else {
            let x: String = s[i].clone();
            proof {
                lemma_views_push(before, x);
                if i > 0 {
                    assert(t[t.len() - 2] == w[i - 1]);
                } else {
                    assert(w.take(0) =~= Seq::<Seq<char>>::empty());
                    assert(t =~= seq![x@]);
                    assert(views(before).push(x@) =~= t);
                }
            }
            out.push(x);
        }
    }
    assert(w.take(w.len() as int) =~= w);
    out
}

} // verus!
