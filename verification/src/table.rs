//! A map from texts to values, kept in the order of its keys.

use crate::text::{lemma_lex_irreflexive, lemma_lex_total, lemma_lex_transitive, lex_lt, same, text_less};
use vstd::prelude::*;

verus! {

/// A map with text keys. Its entries are held in strictly increasing order of
/// the keys, so walking it visits every key once, in order.
pub struct Table<V: View> {
    entries: Vec<(String, V)>,
}

/// The map that a list of entries stands for.
pub open spec fn as_map<T>(e: Seq<(Seq<char>, T)>) -> Map<Seq<char>, T>
    decreases e.len(),
{
    if e.len() == 0 {
        Map::empty()
    } else {
        as_map(e.drop_last()).insert(e.last().0, e.last().1)
    }
}

/// The keys of a list of entries increase strictly.
pub open spec fn increasing<T>(e: Seq<(Seq<char>, T)>) -> bool {
    forall|i: int, j: int| 0 <= i < j < e.len() ==> lex_lt(#[trigger] e[i].0, #[trigger] e[j].0)
}

pub proof fn lemma_as_map<T>(e: Seq<(Seq<char>, T)>)
    requires
        increasing(e),
    ensures
        forall|i: int|
            0 <= i < e.len() ==> as_map(e).contains_key(#[trigger] e[i].0) && as_map(e)[e[i].0]
                == e[i].1,
        forall|k: Seq<char>| #[trigger]
            as_map(e).contains_key(k) ==> exists|i: int| 0 <= i < e.len() && e[i].0 == k,
    decreases e.len(),
{
    if e.len() > 0 {
        let d = e.drop_last();
        assert(increasing(d));
        lemma_as_map(d);
        let m = as_map(e);
        assert forall|i: int| 0 <= i < e.len() implies m.contains_key(#[trigger] e[i].0)
            && m[e[i].0] == e[i].1 by {
            if i < e.len() - 1 {
                assert(d[i] == e[i]);
                assert(as_map(d).contains_key(d[i].0));
                lemma_lex_irreflexive(e[i].0);
                assert(lex_lt(e[i].0, e[e.len() - 1].0));
            }
        }
        assert forall|k: Seq<char>| #[trigger] m.contains_key(k) implies exists|i: int|
            0 <= i < e.len() && e[i].0 == k by {
            if k != e.last().0 {
                assert(as_map(d).contains_key(k));
                let i = choose|i: int| 0 <= i < d.len() && d[i].0 == k;
                assert(e[i].0 == k);
            } else {
                assert(e[e.len() - 1].0 == k);
            }
        }
    }
}

/// The entries of a list of keys and values.
pub open spec fn rows<V: View>(v: Seq<(String, V)>) -> Seq<(Seq<char>, V::V)> {
    Seq::new(v.len(), |i: int| (v[i].0@, v[i].1@))
}

/// An entry in front counts only where no other has its key.
proof fn lemma_as_map_front<T>(x: (Seq<char>, T), e: Seq<(Seq<char>, T)>)
    ensures
        as_map(seq![x] + e) == (if as_map(e).contains_key(x.0) {
            as_map(e)
        } else {
            as_map(e).insert(x.0, x.1)
        }),
    decreases e.len(),
{
    let s = seq![x] + e;
    if e.len() == 0 {
        assert(s.drop_last() =~= Seq::empty());
        assert(s.last() == x);
        assert(as_map(s) == as_map(s.drop_last()).insert(x.0, x.1));
        assert(as_map(e) =~= Map::empty());
    } else {
        let d = e.drop_last();
        assert(s.drop_last() =~= seq![x] + d);
        assert(s.last() == e.last());
        lemma_as_map_front(x, d);
        assert(as_map(s) =~= (if as_map(e).contains_key(x.0) {
            as_map(e)
        } else {
            as_map(e).insert(x.0, x.1)
        }));
    }
}

impl<V: View> View for Table<V> {
    type V = Map<Seq<char>, V::V>;

    open spec fn view(&self) -> Map<Seq<char>, V::V> {
        as_map(self.entries())
    }
}

impl<V: View> Table<V> {
    /// The entries in the order of their keys.
    pub closed spec fn entries(&self) -> Seq<(Seq<char>, V::V)> {
        Seq::new(self.entries@.len(), |i: int| (self.entries@[i].0@, self.entries@[i].1@))
    }

    #[verifier::type_invariant]
    spec fn sorted(self) -> bool {
        increasing(self.entries())
    }

    pub fn new() -> (t: Self)
        ensures
            t@ == Map::<Seq<char>, V::V>::empty(),
            t.entries().len() == 0,
    {
        Table { entries: Vec::new() }
    }

    /// The table of a list of keys and values; of one key the last value counts.
    pub fn of(list: Vec<(String, V)>) -> (t: Self)
        ensures
            t@ == as_map(rows(list@)),
    {
        let ghost all = rows(list@);
        let mut rest = list;
        let mut t: Self = Table::new();
        assert(all.skip(all.len() as int) =~= Seq::empty());
        while rest.len() > 0
            invariant
                rest@.len() <= all.len(),
                rows(rest@) == all.take(rest@.len() as int),
                t@ == as_map(all.skip(rest@.len() as int)),
            decreases rest@.len(),
        {
            let ghost n = rest@.len() as int;
            let ghost was = rest@;
            if let Some((key, value)) = rest.pop() {
                proof {
                    assert(rows(was)[n - 1] == (key@, value@));
                    assert(all[n - 1] == (key@, value@));
                    assert(all.skip(n - 1) =~= seq![all[n - 1]] + all.skip(n));
                    lemma_as_map_front(all[n - 1], all.skip(n));
                    assert(rows(rest@) =~= all.take(n - 1));
                }
                if !t.contains_key(key.as_str()) {
                    t.insert(key, value);
                }
            }
        }
        assert(all.skip(0) =~= all);
        t
    }

    /// How many entries there are. Every table is in order, and its entries are
    /// those of its map.
    pub fn len(&self) -> (n: usize)
        ensures
            n == self.entries().len(),
            increasing(self.entries()),
            forall|i: int|
                0 <= i < self.entries().len() ==> self@.contains_key(
                    #[trigger] self.entries()[i].0,
                ) && self@[self.entries()[i].0] == self.entries()[i].1,
            forall|k: Seq<char>| #[trigger]
                self@.contains_key(k) ==> exists|i: int|
                    0 <= i < self.entries().len() && self.entries()[i].0 == k,
    {
        proof {
            use_type_invariant(self);
            lemma_as_map(self.entries());
        }
        self.entries.len()
    }

    /// The key at a position in the order.
    pub fn key(&self, i: usize) -> (k: &str)
        requires
            i < self.entries().len(),
        ensures
            k@ == self.entries()[i as int].0,
    {
        self.entries[i].0.as_str()
    }

    /// All keys, in order.
    pub fn keys(&self) -> (r: Vec<String>)
        ensures
            r@.len() == self.entries().len(),
            forall|i: int| 0 <= i < r@.len() ==> (#[trigger] r@[i])@ == self.entries()[i].0,
    {
        let mut r: Vec<String> = Vec::new();
        let mut i: usize = 0;
        while i < self.entries.len()
            invariant
                i <= self.entries@.len(),
                r@.len() == i,
                forall|k: int| 0 <= k < i ==> (#[trigger] r@[k])@ == self.entries()[k].0,
            decreases self.entries@.len() - i,
        {
            r.push(self.entries[i].0.clone());
            i += 1;
        }
        r
    }

    /// The value at a position in the order.
    pub fn value(&self, i: usize) -> (v: &V)
        requires
            i < self.entries().len(),
        ensures
            v@ == self.entries()[i as int].1,
    {
        &self.entries[i].1
    }

    /// Where `key` stands, or would stand.
    fn position(e: &Vec<(String, V)>, key: &str) -> (r: (bool, usize))
        requires
            forall|i: int, j: int| 0 <= i < j < e@.len() ==> lex_lt(#[trigger] e@[i].0@, #[trigger] e@[j].0@),
        ensures
            r.1 <= e@.len(),
            forall|j: int| 0 <= j < r.1 ==> lex_lt(#[trigger] e@[j].0@, key@),
            forall|j: int| r.1 < j < e@.len() ==> lex_lt(key@, #[trigger] e@[j].0@),
            r.0 ==> r.1 < e@.len() && e@[r.1 as int].0@ == key@,
            !r.0 ==> forall|j: int| r.1 <= j < e@.len() ==> lex_lt(key@, #[trigger] e@[j].0@),
    {
        let mut lo: usize = 0;
        let mut hi: usize = e.len();
        while lo < hi
            invariant
                lo <= hi <= e@.len(),
                forall|i: int, j: int| 0 <= i < j < e@.len() ==> lex_lt(#[trigger] e@[i].0@, #[trigger] e@[j].0@),
                forall|j: int| 0 <= j < lo ==> lex_lt(#[trigger] e@[j].0@, key@),
                forall|j: int| hi <= j < e@.len() ==> !lex_lt(#[trigger] e@[j].0@, key@),
            decreases hi - lo,
        {
            let mid: usize = lo + (hi - lo) / 2;
            if text_less(e[mid].0.as_str(), key) {
                proof {
                    assert forall|j: int| 0 <= j < mid + 1 implies lex_lt(#[trigger] e@[j].0@, key@) by {
                        if j < mid {
                            lemma_lex_transitive(e@[j].0@, e@[mid as int].0@, key@);
                        }
                    }
                }
                lo = mid + 1;
            } else {
                proof {
                    assert forall|j: int| mid <= j < e@.len() implies !lex_lt(#[trigger] e@[j].0@, key@) by {
                        if j > mid && lex_lt(e@[j].0@, key@) {
                            lemma_lex_transitive(e@[mid as int].0@, e@[j].0@, key@);
                        }
                    }
                }
                hi = mid;
            }
        }
        let i: usize = lo;
        let found = i < e.len() && same(e[i].0.as_str(), key);
        proof {
            if i < e@.len() {
                lemma_lex_total(e@[i as int].0@, key@);
                assert forall|j: int| i < j < e@.len() implies lex_lt(key@, #[trigger] e@[j].0@) by {
                    assert(lex_lt(e@[i as int].0@, e@[j].0@));
                    if !found {
                        lemma_lex_transitive(key@, e@[i as int].0@, e@[j].0@);
                    }
                }
            }
        }
        (found, i)
    }

    proof fn lemma_raw(e: Seq<(String, V)>, s: Seq<(Seq<char>, V::V)>)
        requires
            s == Seq::new(e.len(), |i: int| (e[i].0@, e[i].1@)),
            increasing(s),
        ensures
            forall|i: int, j: int| 0 <= i < j < e.len() ==> lex_lt(#[trigger] e[i].0@, #[trigger] e[j].0@),
    {
        assert forall|i: int, j: int| 0 <= i < j < e.len() implies lex_lt(
            #[trigger] e[i].0@,
            #[trigger] e[j].0@,
        ) by {
            assert(lex_lt(s[i].0, s[j].0));
        }
    }

    /// The value under `key`.
    pub fn get(&self, key: &str) -> (r: Option<&V>)
        ensures
            match r {
                Some(v) => self@.contains_key(key@) && v@ == self@[key@],
                None => !self@.contains_key(key@),
            },
    {
        proof {
            use_type_invariant(self);
            lemma_as_map(self.entries());
            Self::lemma_raw(self.entries@, self.entries());
        }
        let (found, i) = Self::position(&self.entries, key);
        if found {
            assert(self.entries()[i as int].0 == key@);
            Some(&self.entries[i].1)
        } else {
            proof {
                if self@.contains_key(key@) {
                    let j = choose|j: int|
                        0 <= j < self.entries().len() && self.entries()[j].0 == key@;
                    lemma_lex_irreflexive(key@);
                    assert(self.entries@[j].0@ == key@);
                }
            }
            None
        }
    }

    pub fn contains_key(&self, key: &str) -> (b: bool)
        ensures
            b == self@.contains_key(key@),
    {
        self.get(key).is_some()
    }

    /// Puts `value` under `key`, in place of what was there.
    pub fn insert(&mut self, key: String, value: V)
        ensures
            final(self)@ == old(self)@.insert(key@, value@),
    {
        let ghost before = self.entries();
        proof {
            use_type_invariant(&*self);
            lemma_as_map(before);
            Self::lemma_raw(self.entries@, before);
        }
        let mut e: Vec<(String, V)> = Vec::new();
        std::mem::swap(&mut e, &mut self.entries);
        let (found, i) = Self::position(&e, key.as_str());
        let ghost k = key@;
        let ghost v = value@;
        if found {
            e.remove(i);
        }
        e.insert(i, (key, value));
        let ghost after = Seq::new(e@.len(), |j: int| (e@[j].0@, e@[j].1@));
        proof {
            let n = if found { before.len() } else { before.len() + 1 };
            assert(after.len() == n);
            assert forall|j: int| 0 <= j < i implies after[j] == before[j] by {}
            assert(after[i as int] == (k, v));
            assert forall|j: int| i < j < n implies after[j] == (if found { before[j] } else { before[j - 1] }) by {}
            assert(increasing(after)) by {
                assert forall|a: int, b: int| 0 <= a < b < after.len() implies lex_lt(
                    #[trigger] after[a].0,
                    #[trigger] after[b].0,
                ) by {
                    let a0 = if a <= i || found { a } else { a - 1 };
                    let b0 = if b <= i || found { b } else { b - 1 };
                    if a != i && b != i {
                        assert(lex_lt(before[a0].0, before[b0].0));
                    }
                }
            }
            lemma_as_map(after);
            assert(as_map(after) =~= as_map(before).insert(k, v)) by {
                assert forall|x: Seq<char>| as_map(after).contains_key(x) == as_map(before).insert(
                    k,
                    v,
                ).contains_key(x) by {
                    if as_map(after).contains_key(x) && x != k {
                        let j = choose|j: int| 0 <= j < after.len() && after[j].0 == x;
                        let j0 = if j <= i || found { j } else { j - 1 };
                        assert(before[j0].0 == x);
                    }
                    if as_map(before).contains_key(x) && x != k {
                        let j0 = choose|j: int| 0 <= j < before.len() && before[j].0 == x;
                        let j = if j0 < i || found { j0 } else { j0 + 1 };
                        assert(after[j].0 == x);
                    }
                    assert(after[i as int].0 == k);
                }
                assert forall|x: Seq<char>| as_map(after).contains_key(x) implies as_map(after)[x]
                    == as_map(before).insert(k, v)[x] by {
                    let j = choose|j: int| 0 <= j < after.len() && after[j].0 == x;
                    if j != i {
                        let j0 = if j <= i || found { j } else { j - 1 };
                        assert(before[j0].0 == x);
                        if x == k {
                            lemma_lex_irreflexive(k);
                            assert(lex_lt(after[if j < i { j } else { i as int }].0, after[if j < i { i as int } else { j }].0));
                        }
                    }
                }
            }
        }
        self.entries = e;
        assert(self.entries() =~= after);
    }

    /// Takes out what stands under `key`.
    pub fn remove(&mut self, key: &str) -> (r: Option<V>)
        ensures
            final(self)@ == old(self)@.remove(key@),
            match r {
                Some(v) => {
                    &&& old(self)@.contains_key(key@)
                    &&& v@ == old(self)@[key@]
                    &&& final(self).entries().len() == old(self).entries().len() - 1
                },
                None => !old(self)@.contains_key(key@),
            },
    {
        let ghost before = self.entries();
        proof {
            use_type_invariant(&*self);
            lemma_as_map(before);
            Self::lemma_raw(self.entries@, before);
        }
        let mut e: Vec<(String, V)> = Vec::new();
        std::mem::swap(&mut e, &mut self.entries);
        let (found, i) = Self::position(&e, key);
        let ghost k = key@;
        let ghost was = e@;
        let r = if found {
            let (_, v) = e.remove(i);
            Some(v)
        } else {
            None
        };
        let ghost after = Seq::new(e@.len(), |j: int| (e@[j].0@, e@[j].1@));
        proof {
            if found {
                assert(before[i as int].0 == k);
                assert forall|j: int| 0 <= j < after.len() implies after[j] == before[if j < i {
                    j
                } else {
                    j + 1
                }] by {}
                assert(increasing(after)) by {
                    assert forall|a: int, b: int| 0 <= a < b < after.len() implies lex_lt(
                        #[trigger] after[a].0,
                        #[trigger] after[b].0,
                    ) by {
                        assert(lex_lt(
                            before[if a < i { a } else { a + 1 }].0,
                            before[if b < i { b } else { b + 1 }].0,
                        ));
                    }
                }
                lemma_as_map(after);
                assert(as_map(after) =~= as_map(before).remove(k)) by {
                    assert forall|x: Seq<char>| as_map(after).contains_key(x) == as_map(
                        before,
                    ).remove(k).contains_key(x) by {
                        if as_map(after).contains_key(x) {
                            let j = choose|j: int| 0 <= j < after.len() && after[j].0 == x;
                            let j0 = if j < i { j } else { j + 1 };
                            assert(before[j0].0 == x);
                            lemma_lex_irreflexive(k);
                            assert(lex_lt(before[if j0 < i { j0 } else { i as int }].0, before[if j0 < i { i as int } else { j0 }].0));
                        }
                        if as_map(before).contains_key(x) && x != k {
                            let j0 = choose|j: int| 0 <= j < before.len() && before[j].0 == x;
                            assert(after[if j0 < i { j0 } else { j0 - 1 }].0 == x);
                        }
                    }
                    assert forall|x: Seq<char>| as_map(after).contains_key(x) implies as_map(
                        after,
                    )[x] == as_map(before).remove(k)[x] by {
                        let j = choose|j: int| 0 <= j < after.len() && after[j].0 == x;
                        assert(before[if j < i { j } else { j + 1 }].0 == x);
                    }
                }
            } else {
                assert(after =~= before);
                if as_map(before).contains_key(k) {
                    let j = choose|j: int| 0 <= j < before.len() && before[j].0 == k;
                    lemma_lex_irreflexive(k);
                    assert(was[j].0@ == k);
                }
                assert(as_map(before).remove(k) =~= as_map(before));
            }
        }
        self.entries = e;
        assert(self.entries() =~= after);
        r
    }
}

} // verus!
