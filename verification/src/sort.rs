//! Sorting, stable and by a key.

use crate::text::{lemma_lex_irreflexive, lemma_lex_total, lemma_lex_transitive, lex_lt, text_less, texts};
use vstd::prelude::*;

verus! {

/// What things are sorted by: a total order on the views.
pub trait Key: View {
    spec fn lt(a: <Self as View>::V, b: <Self as View>::V) -> bool;

    fn less(&self, other: &Self) -> (r: bool)
        ensures
            r == Self::lt(self@, other@),
    ;

    proof fn lt_irreflexive(a: <Self as View>::V)
        ensures
            !Self::lt(a, a),
    ;

    proof fn lt_transitive(a: <Self as View>::V, b: <Self as View>::V, c: <Self as View>::V)
        requires
            Self::lt(a, b),
            Self::lt(b, c),
        ensures
            Self::lt(a, c),
    ;

    proof fn lt_total(a: <Self as View>::V, b: <Self as View>::V)
        ensures
            a == b || Self::lt(a, b) || Self::lt(b, a),
    ;
}

impl Key for String {
    open spec fn lt(a: Seq<char>, b: Seq<char>) -> bool {
        lex_lt(a, b)
    }

    fn less(&self, other: &Self) -> (r: bool) {
        text_less(self.as_str(), other.as_str())
    }

    proof fn lt_irreflexive(a: Seq<char>) {
        lemma_lex_irreflexive(a);
    }

    proof fn lt_transitive(a: Seq<char>, b: Seq<char>, c: Seq<char>) {
        lemma_lex_transitive(a, b, c);
    }

    proof fn lt_total(a: Seq<char>, b: Seq<char>) {
        lemma_lex_total(a, b);
    }
}

impl Key for u64 {
    open spec fn lt(a: u64, b: u64) -> bool {
        a < b
    }

    fn less(&self, other: &Self) -> (r: bool) {
        *self < *other
    }

    proof fn lt_irreflexive(a: u64) {
    }

    proof fn lt_transitive(a: u64, b: u64, c: u64) {
    }

    proof fn lt_total(a: u64, b: u64) {
    }
}

pub open spec fn keys_of<K: Key>(v: Seq<K>) -> Seq<K::V> {
    Seq::new(v.len(), |i: int| v[i]@)
}

/// `p`, which is in order, with place `k` put in behind all that do not come
/// after it.
pub open spec fn put<K: Key>(keys: Seq<K::V>, p: Seq<int>, k: int) -> Seq<int>
    decreases p.len(),
{
    if p.len() > 0 && K::lt(keys[k], keys[p.last()]) {
        put::<K>(keys, p.drop_last(), k).push(p.last())
    } else {
        p.push(k)
    }
}

/// The places of the first `n` keys, in the order of the keys.
pub open spec fn order_to<K: Key>(keys: Seq<K::V>, n: int) -> Seq<int>
    decreases n,
{
    if n <= 0 {
        Seq::empty()
    } else {
        put::<K>(keys, order_to::<K>(keys, n - 1), n - 1)
    }
}

/// The places of the keys, in the order of the keys; places with equal keys stay
/// in the order that they were in.
pub open spec fn order<K: Key>(keys: Seq<K::V>) -> Seq<int> {
    order_to::<K>(keys, keys.len() as int)
}

/// `p` names each of the first `n` places once, keys do not decrease along it,
/// and equal keys stay in place.
pub open spec fn is_order<K: Key>(keys: Seq<K::V>, p: Seq<int>, n: int) -> bool {
    &&& p.len() == n
    &&& forall|i: int| 0 <= i < p.len() ==> 0 <= #[trigger] p[i] < n
    &&& forall|i: int, j: int|
        0 <= i < j < p.len() ==> #[trigger] p[i] != #[trigger] p[j] && !K::lt(keys[p[j]], keys[p[i]])
            && (keys[p[i]] == keys[p[j]] ==> p[i] < p[j])
}

/// As `is_order`, of places below `n` that need not be all.
spec fn is_run<K: Key>(keys: Seq<K::V>, p: Seq<int>, n: int) -> bool {
    &&& forall|i: int| 0 <= i < p.len() ==> 0 <= #[trigger] p[i] < n
    &&& forall|i: int, j: int|
        0 <= i < j < p.len() ==> #[trigger] p[i] != #[trigger] p[j] && !K::lt(keys[p[j]], keys[p[i]])
            && (keys[p[i]] == keys[p[j]] ==> p[i] < p[j])
}

proof fn lemma_put<K: Key>(keys: Seq<K::V>, p: Seq<int>, k: int)
    requires
        is_run::<K>(keys, p, k),
        k >= 0,
    ensures
        is_run::<K>(keys, put::<K>(keys, p, k), k + 1),
        put::<K>(keys, p, k).len() == p.len() + 1,
        forall|x: int| #[trigger] put::<K>(keys, p, k).contains(x) ==> p.contains(x) || x == k,
    decreases p.len(),
{
    let r = put::<K>(keys, p, k);
    if p.len() > 0 && K::lt(keys[k], keys[p.last()]) {
        let d = p.drop_last();
        assert(is_run::<K>(keys, d, k));
        lemma_put::<K>(keys, d, k);
        let q = put::<K>(keys, d, k);
        let last = p.last();
        assert forall|i: int| 0 <= i < q.len() implies #[trigger] q[i] != last && !K::lt(
            keys[last],
            keys[q[i]],
        ) && (keys[q[i]] == keys[last] ==> q[i] < last) by {
            assert(q.contains(q[i]));
            if q[i] == k {
                if K::lt(keys[last], keys[k]) {
                    K::lt_transitive(keys[k], keys[last], keys[k]);
                    K::lt_irreflexive(keys[k]);
                }
                K::lt_irreflexive(keys[k]);
                assert(p[p.len() - 1] < k);
            } else {
                let j = choose|j: int| 0 <= j < d.len() && d[j] == q[i];
                assert(p[j] == q[i]);
                assert(p[p.len() - 1] == last);
            }
        }
        assert forall|i: int, j: int| 0 <= i < j < r.len() implies #[trigger] r[i]
            != #[trigger] r[j] && !K::lt(keys[r[j]], keys[r[i]]) && (keys[r[i]] == keys[r[j]]
            ==> r[i] < r[j]) by {
            if j < q.len() {
                assert(r[i] == q[i] && r[j] == q[j]);
            } else {
                assert(r[i] == q[i]);
            }
        }
        assert forall|x: int| #[trigger] r.contains(x) implies p.contains(x) || x == k by {
            let i = choose|i: int| 0 <= i < r.len() && r[i] == x;
            if i < q.len() {
                assert(q.contains(q[i]));
                if x != k {
                    let j = choose|j: int| 0 <= j < d.len() && d[j] == x;
                    assert(p[j] == x);
                }
            } else {
                assert(p[p.len() - 1] == x);
            }
        }
        assert forall|i: int| 0 <= i < r.len() implies 0 <= #[trigger] r[i] < k + 1 by {
            if i < q.len() {
                assert(r[i] == q[i]);
            } else {
                assert(p[p.len() - 1] == r[i]);
            }
        }
    } else {
        assert forall|i: int, j: int| 0 <= i < j < r.len() implies #[trigger] r[i]
            != #[trigger] r[j] && !K::lt(keys[r[j]], keys[r[i]]) && (keys[r[i]] == keys[r[j]]
            ==> r[i] < r[j]) by {
            assert(p[i] == r[i]);
            if j < p.len() {
                assert(p[j] == r[j]);
            } else {
                let last = p.last();
                if i < p.len() - 1 {
                    assert(p[i] != p[p.len() - 1] && !K::lt(keys[last], keys[p[i]]));
                }
                if K::lt(keys[k], keys[p[i]]) {
                    K::lt_total(keys[k], keys[last]);
                    K::lt_total(keys[p[i]], keys[last]);
                    if K::lt(keys[last], keys[k]) {
                        K::lt_transitive(keys[last], keys[k], keys[p[i]]);
                    }
                }
            }
        }
        assert forall|x: int| #[trigger] r.contains(x) implies p.contains(x) || x == k by {
            let i = choose|i: int| 0 <= i < r.len() && r[i] == x;
            if i < p.len() {
                assert(p[i] == x);
            }
        }
    }
}

proof fn lemma_order_to<K: Key>(keys: Seq<K::V>, n: int)
    requires
        n >= 0,
    ensures
        is_order::<K>(keys, order_to::<K>(keys, n), n),
    decreases n,
{
    if n > 0 {
        lemma_order_to::<K>(keys, n - 1);
        lemma_put::<K>(keys, order_to::<K>(keys, n - 1), n - 1);
    }
}

/// `order` names every place once, with keys that do not decrease, and keeps
/// equal keys in place.
pub proof fn order_is_stable<K: Key>(keys: Seq<K::V>)
    ensures
        is_order::<K>(keys, order::<K>(keys), keys.len() as int),
{
    lemma_order_to::<K>(keys, keys.len() as int);
}

pub open spec fn places(v: Seq<usize>) -> Seq<int> {
    Seq::new(v.len(), |i: int| v[i] as int)
}

fn put_place<K: Key>(keys: &Vec<K>, p: &mut Vec<usize>, k: usize)
    requires
        k < keys@.len(),
        forall|i: int| 0 <= i < old(p)@.len() ==> #[trigger] old(p)@[i] < keys@.len(),
    ensures
        places(final(p)@) == put::<K>(keys_of(keys@), places(old(p)@), k as int),
{
    let ghost ks = keys_of(keys@);
    let ghost p0 = places(p@);
    let mut i: usize = p.len();
    assert(p0.take(i as int) =~= p0);
    assert(put::<K>(ks, p0.take(i as int), k as int) + p0.skip(i as int) =~= put::<K>(
        ks,
        p0,
        k as int,
    ));
    while i > 0 && keys[k].less(&keys[p[i - 1]])
        invariant
            k < keys@.len(),
            i <= p@.len(),
            p0 == places(p@),
            ks == keys_of(keys@),
            forall|j: int| 0 <= j < p@.len() ==> #[trigger] p@[j] < keys@.len(),
            put::<K>(ks, p0, k as int) == put::<K>(ks, p0.take(i as int), k as int) + p0.skip(
                i as int,
            ),
        decreases i,
    {
        proof {
            let t = p0.take(i as int);
            assert(t.last() == p@[i - 1]);
            assert(t.drop_last() =~= p0.take(i - 1));
            let a = put::<K>(ks, p0.take(i - 1), k as int);
            assert(a.push(p0[i - 1]) + p0.skip(i as int) =~= a + p0.skip(i - 1));
        }
        i -= 1;
    }
    let ghost was = p@;
    p.insert(i, k);
    proof {
        let t = p0.take(i as int);
        if i > 0 {
            assert(t.last() == was[i - 1]);
        }
        assert(put::<K>(ks, t, k as int) =~= t.push(k as int));
        assert(places(p@) =~= t.push(k as int) + p0.skip(i as int));
    }
}

/// The places of the keys, in the order of the keys.
pub fn order_of<K: Key>(keys: &Vec<K>) -> (p: Vec<usize>)
    ensures
        places(p@) == order::<K>(keys_of(keys@)),
        p@.len() == keys@.len(),
        forall|i: int| 0 <= i < p@.len() ==> #[trigger] p@[i] < keys@.len(),
{
    let ghost ks = keys_of(keys@);
    let mut p: Vec<usize> = Vec::new();
    let mut n: usize = 0;
    assert(places(p@) =~= order_to::<K>(ks, 0));
    while n < keys.len()
        invariant
            n <= keys@.len(),
            ks == keys_of(keys@),
            places(p@) == order_to::<K>(ks, n as int),
        decreases keys@.len() - n,
    {
        proof {
            lemma_order_to::<K>(ks, n as int);
            assert forall|i: int| 0 <= i < p@.len() implies #[trigger] p@[i] < keys@.len() by {
                assert(places(p@)[i] < n);
            }
        }
        put_place(keys, &mut p, n);
        n += 1;
    }
    proof {
        lemma_order_to::<K>(ks, n as int);
        assert(places(p@).len() == n);
        assert forall|i: int| 0 <= i < p@.len() implies #[trigger] p@[i] < keys@.len() by {
            assert(places(p@)[i] < n);
        }
    }
    p
}

// ───────────────────────────── sets of texts ─────────────────────────────

/// Strictly increasing, so nothing occurs twice.
pub open spec fn ascending(s: Seq<Seq<char>>) -> bool {
    forall|i: int, j: int| 0 <= i < j < s.len() ==> lex_lt(#[trigger] s[i], #[trigger] s[j])
}

/// `r` lists the texts of `s` in increasing order, each once.
pub open spec fn lists_once(r: Seq<Seq<char>>, s: Seq<Seq<char>>) -> bool {
    &&& ascending(r)
    &&& forall|x: Seq<char>| #[trigger] r.contains(x) <==> s.contains(x)
}

pub proof fn lemma_push_text(s: Seq<Seq<char>>, x: Seq<char>, y: Seq<char>)
    ensures
        s.push(x).contains(y) <==> s.contains(y) || y == x,
{
    let r = s.push(x);
    if s.contains(y) {
        let i = choose|i: int| 0 <= i < s.len() && s[i] == y;
        assert(r[i] == y);
    }
    assert(r[s.len() as int] == x);
    if r.contains(y) && y != x {
        let i = choose|i: int| 0 <= i < r.len() && r[i] == y;
        assert(s[i] == y);
    }
}

/// Puts `x` in its place in an ascending list, unless it is there.
pub fn add_once(v: &mut Vec<String>, x: &str)
    requires
        ascending(texts(old(v)@)),
    ensures
        ascending(texts(final(v)@)),
        forall|y: Seq<char>| #[trigger]
            texts(final(v)@).contains(y) <==> texts(old(v)@).contains(y) || y == x@,
{
    let ghost s = texts(v@);
    let mut lo: usize = 0;
    let mut hi: usize = v.len();
    while lo < hi
        invariant
            lo <= hi <= v@.len(),
            s == texts(v@),
            ascending(s),
            forall|j: int| 0 <= j < lo ==> lex_lt(#[trigger] s[j], x@),
            forall|j: int| hi <= j < s.len() ==> !lex_lt(#[trigger] s[j], x@),
        decreases hi - lo,
    {
        let mid: usize = lo + (hi - lo) / 2;
        assert(s[mid as int] == v@[mid as int]@);
        if text_less(v[mid].as_str(), x) {
            proof {
                assert forall|j: int| 0 <= j < mid + 1 implies lex_lt(#[trigger] s[j], x@) by {
                    if j < mid {
                        lemma_lex_transitive(s[j], s[mid as int], x@);
                    }
                }
            }
            lo = mid + 1;
        } else {
            proof {
                assert forall|j: int| mid <= j < s.len() implies !lex_lt(#[trigger] s[j], x@) by {
                    if j > mid && lex_lt(s[j], x@) {
                        lemma_lex_transitive(s[mid as int], s[j], x@);
                    }
                }
            }
            hi = mid;
        }
    }
    let i: usize = lo;
    if i < v.len() && crate::text::same(v[i].as_str(), x) {
        assert(s[i as int] == x@);
        return;
    }
    proof {
        assert forall|j: int| i <= j < s.len() implies lex_lt(x@, #[trigger] s[j]) by {
            assert(s[i as int] == v@[i as int]@);
            lemma_lex_total(x@, s[i as int]);
            if j > i {
                assert(lex_lt(s[i as int], s[j]));
                lemma_lex_transitive(x@, s[i as int], s[j]);
            }
        }
    }
    v.insert(i, x.to_owned());
    proof {
        let r = texts(v@);
        assert(r =~= s.insert(i as int, x@));
        assert forall|a: int, b: int| 0 <= a < b < r.len() implies lex_lt(
            #[trigger] r[a],
            #[trigger] r[b],
        ) by {
            let a0 = if a < i { a } else { a - 1 };
            let b0 = if b < i { b } else { b - 1 };
            if a != i && b != i {
                assert(lex_lt(s[a0], s[b0]));
            }
        }
        assert forall|y: Seq<char>| #[trigger] r.contains(y) <==> s.contains(y) || y == x@ by {
            if r.contains(y) && y != x@ {
                let j = choose|j: int| 0 <= j < r.len() && r[j] == y;
                assert(s[if j < i { j } else { j - 1 }] == y);
            }
            if s.contains(y) {
                let j = choose|j: int| 0 <= j < s.len() && s[j] == y;
                assert(r[if j < i { j } else { j + 1 }] == y);
            }
            assert(r[i as int] == x@);
        }
    }
}

/// Whether an ascending list holds `x`.
pub fn has_sorted(v: &Vec<String>, x: &str) -> (b: bool)
    requires
        ascending(texts(v@)),
    ensures
        b == texts(v@).contains(x@),
{
    let ghost s = texts(v@);
    let mut lo: usize = 0;
    let mut hi: usize = v.len();
    while lo < hi
        invariant
            lo <= hi <= v@.len(),
            s == texts(v@),
            ascending(s),
            forall|j: int| 0 <= j < lo ==> lex_lt(#[trigger] s[j], x@),
            forall|j: int| hi <= j < s.len() ==> !lex_lt(#[trigger] s[j], x@),
        decreases hi - lo,
    {
        let mid: usize = lo + (hi - lo) / 2;
        assert(s[mid as int] == v@[mid as int]@);
        if text_less(v[mid].as_str(), x) {
            proof {
                assert forall|j: int| 0 <= j < mid + 1 implies lex_lt(#[trigger] s[j], x@) by {
                    if j < mid {
                        lemma_lex_transitive(s[j], s[mid as int], x@);
                    }
                }
            }
            lo = mid + 1;
        } else {
            proof {
                assert forall|j: int| mid <= j < s.len() implies !lex_lt(#[trigger] s[j], x@) by {
                    if j > mid && lex_lt(s[j], x@) {
                        lemma_lex_transitive(s[mid as int], s[j], x@);
                    }
                }
            }
            hi = mid;
        }
    }
    if lo < v.len() && crate::text::same(v[lo].as_str(), x) {
        assert(s[lo as int] == x@);
        return true;
    }
    proof {
        if s.contains(x@) {
            let j = choose|j: int| 0 <= j < s.len() && s[j] == x@;
            lemma_lex_irreflexive(x@);
            if j > lo {
                assert(lex_lt(s[lo as int], s[j]));
            }
            assert(s[lo as int] == v@[lo as int]@);
        }
    }
    false
}

/// Two lists that hold the same texts, each once and in order, are the same.
pub proof fn lists_once_is_unique(a: Seq<Seq<char>>, b: Seq<Seq<char>>, s: Seq<Seq<char>>)
    requires
        lists_once(a, s),
        lists_once(b, s),
    ensures
        a == b,
    decreases a.len(),
{
    lemma_ascending_same(a, b);
}

proof fn lemma_ascending_same(a: Seq<Seq<char>>, b: Seq<Seq<char>>)
    requires
        ascending(a),
        ascending(b),
        forall|x: Seq<char>| #[trigger] a.contains(x) <==> b.contains(x),
    ensures
        a == b,
    decreases a.len(),
{
    if a.len() == 0 {
        if b.len() > 0 {
            assert(b.contains(b[0]));
            assert(a.contains(b[0]));
        }
        assert(a =~= b);
    } else {
        assert(a.contains(a[a.len() - 1]));
        assert(b.contains(a.last()));
        let j = choose|j: int| 0 <= j < b.len() && b[j] == a.last();
        assert(b.contains(b[b.len() - 1]));
        assert(a.contains(b.last()));
        let i = choose|i: int| 0 <= i < a.len() && a[i] == b.last();
        if a.last() != b.last() {
            assert(lex_lt(a[i], a[a.len() - 1]));
            assert(lex_lt(b[j], b[b.len() - 1]));
            lemma_lex_transitive(a.last(), b.last(), a.last());
            lemma_lex_irreflexive(a.last());
        }
        let c = a.drop_last();
        let d = b.drop_last();
        assert forall|x: Seq<char>| #[trigger] c.contains(x) <==> d.contains(x) by {
            lemma_drop_members(a, x);
            lemma_drop_members(b, x);
        }
        lemma_ascending_same(c, d);
        assert(a =~= c.push(a.last()));
        assert(b =~= d.push(b.last()));
    }
}

proof fn lemma_drop_members(a: Seq<Seq<char>>, x: Seq<char>)
    requires
        ascending(a),
        a.len() > 0,
    ensures
        a.drop_last().contains(x) <==> a.contains(x) && x != a.last(),
{
    let c = a.drop_last();
    if c.contains(x) {
        let i = choose|i: int| 0 <= i < c.len() && c[i] == x;
        assert(a[i] == x);
        assert(lex_lt(a[i], a[a.len() - 1]));
        lemma_lex_irreflexive(x);
    }
    if a.contains(x) && x != a.last() {
        let i = choose|i: int| 0 <= i < a.len() && a[i] == x;
        assert(c[i] == x);
    }
}

/// The texts of `s` in increasing order, each once.
pub open spec fn once_sorted(s: Seq<Seq<char>>) -> Seq<Seq<char>> {
    choose|r: Seq<Seq<char>>| lists_once(r, s)
}

/// There is one way to list texts in increasing order, each once.
pub proof fn lemma_once_sorted(r: Seq<Seq<char>>, s: Seq<Seq<char>>)
    requires
        lists_once(r, s),
    ensures
        r == once_sorted(s),
{
    lists_once_is_unique(r, once_sorted(s), s);
}

pub proof fn lemma_ascending_set(s: Seq<Seq<char>>)
    requires
        ascending(s),
    ensures
        s.to_set().len() == s.len(),
        s.to_set().finite(),
{
    assert(s.no_duplicates()) by {
        assert forall|i: int, j: int| 0 <= i < s.len() && 0 <= j < s.len() && i != j implies s[i]
            != s[j] by {
            lemma_lex_irreflexive(s[i]);
            if i < j {
                assert(lex_lt(s[i], s[j]));
            } else {
                assert(lex_lt(s[j], s[i]));
            }
        }
    }
    s.unique_seq_to_set();
}

/// The texts of a list in order, each once.
pub fn sorted_once(v: &Vec<String>) -> (r: Vec<String>)
    ensures
        lists_once(texts(r@), texts(v@)),
{
    let mut out: Vec<String> = Vec::new();
    let mut i: usize = 0;
    while i < v.len()
        invariant
            i <= v@.len(),
            ascending(texts(out@)),
            forall|y: Seq<char>| #[trigger]
                texts(out@).contains(y) <==> texts(v@).take(i as int).contains(y),
        decreases v@.len() - i,
    {
        let ghost before = texts(v@).take(i as int);
        add_once(&mut out, v[i].as_str());
        proof {
            let after = texts(v@).take(i + 1);
            assert(after =~= before.push(v@[i as int]@));
            assert forall|y: Seq<char>| #[trigger] texts(out@).contains(y) <==> after.contains(
                y,
            ) by {
                if before.contains(y) {
                    let j = choose|j: int| 0 <= j < before.len() && before[j] == y;
                    assert(after[j] == y);
                }
                assert(after[i as int] == v@[i as int]@);
                if after.contains(y) && y != v@[i as int]@ {
                    let j = choose|j: int| 0 <= j < after.len() && after[j] == y;
                    assert(before[j] == y);
                }
            }
        }
        i += 1;
    }
    assert(texts(v@).take(i as int) =~= texts(v@));
    out
}

} // verus!
