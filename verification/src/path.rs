//! Paths as texts, with `/` between their components.

use crate::text::{chars_of, same, text_of, texts};
use vstd::prelude::*;

verus! {

/// Where the runs of characters between slashes start and end within the first
/// `n` characters.
pub open spec fn runs(s: Seq<char>, n: int) -> Seq<(int, int)>
    decreases n,
{
    if n <= 0 || n > s.len() {
        Seq::empty()
    } else {
        let before = runs(s, n - 1);
        if s[n - 1] == '/' {
            before
        } else if n == 1 || s[n - 2] == '/' {
            before.push((n - 1, n))
        } else {
            before.drop_last().push((before.last().0, n))
        }
    }
}

/// A lone dot names the directory that it stands in: it is no component, unless
/// the path starts with it.
pub open spec fn counts(s: Seq<char>, r: (int, int)) -> bool {
    !(r.1 - r.0 == 1 && s[r.0] == '.' && r.0 != 0)
}

/// Where the components of a path stand.
pub open spec fn spans(s: Seq<char>) -> Seq<(int, int)> {
    runs(s, s.len() as int).filter(|r: (int, int)| counts(s, r))
}

pub open spec fn rooted(s: Seq<char>) -> bool {
    s.len() > 0 && s[0] == '/'
}

/// The components of a path, with the root as one of its own.
pub open spec fn components(s: Seq<char>) -> Seq<Seq<char>> {
    let sp = spans(s);
    (if rooted(s) {
        seq![seq!['/']]
    } else {
        Seq::empty()
    }) + Seq::new(sp.len(), |i: int| s.subrange(sp[i].0, sp[i].1))
}

/// Two texts that name the same path.
pub open spec fn same_path(a: Seq<char>, b: Seq<char>) -> bool {
    components(a) == components(b)
}

/// Whether `a` is `base` or lies under it.
pub open spec fn under(a: Seq<char>, base: Seq<char>) -> bool {
    let c = components(a);
    let b = components(base);
    b.len() <= c.len() && c.take(b.len() as int) == b
}

/// The path up to its last component, where it has one.
pub open spec fn parent(s: Seq<char>) -> Option<Seq<char>> {
    let sp = spans(s);
    if sp.len() == 0 {
        None
    } else if sp.len() == 1 {
        Some(
            if rooted(s) {
                s.take(1)
            } else {
                Seq::empty()
            },
        )
    } else {
        Some(s.take(sp[sp.len() - 2].1))
    }
}

/// `b` taken as relative to `a`; `b` itself where it is absolute.
pub open spec fn joined_path(a: Seq<char>, b: Seq<char>) -> Seq<char> {
    if rooted(b) {
        b
    } else if a.len() == 0 || a.last() == '/' {
        a + b
    } else {
        a.push('/') + b
    }
}

proof fn lemma_runs(s: Seq<char>, n: int)
    requires
        0 <= n <= s.len(),
    ensures
        ({
            let r = runs(s, n);
            &&& forall|i: int|
                0 <= i < r.len() ==> 0 <= (#[trigger] r[i]).0 < r[i].1 <= n && s[r[i].0] != '/'
            &&& forall|i: int, j: int|
                0 <= i < j < r.len() ==> (#[trigger] r[i]).1 < (#[trigger] r[j]).1
            &&& n > 0 && s[n - 1] != '/' ==> r.len() > 0 && r.last().1 == n
        }),
    decreases n,
{
    if n > 0 {
        lemma_runs(s, n - 1);
        let before = runs(s, n - 1);
        let r = runs(s, n);
        if s[n - 1] != '/' {
            if n == 1 || s[n - 2] == '/' {
                assert(forall|i: int| 0 <= i < before.len() ==> #[trigger] r[i] == before[i]);
            } else {
                assert(forall|i: int|
                    0 <= i < before.len() - 1 ==> #[trigger] r[i] == before[i]);
                assert forall|i: int, j: int| 0 <= i < j < r.len() implies (#[trigger] r[i]).1 < (
                #[trigger] r[j]).1 by {
                    assert(before[i].1 <= n - 1);
                }
            }
        }
    }
}

/// Components lie within the path, and none is empty.
pub proof fn lemma_spans(s: Seq<char>)
    ensures
        forall|i: int|
            0 <= i < spans(s).len() ==> 0 <= (#[trigger] spans(s)[i]).0 < spans(s)[i].1
                <= s.len(),
{
    let all = runs(s, s.len() as int);
    let pred = |r: (int, int)| counts(s, r);
    lemma_runs(s, s.len() as int);
    assert forall|i: int| 0 <= i < spans(s).len() implies 0 <= (#[trigger] spans(s)[i]).0
        < spans(s)[i].1 <= s.len() by {
        lemma_filter_from(all, pred, i);
    }
}

proof fn lemma_filter_from(s: Seq<(int, int)>, pred: spec_fn((int, int)) -> bool, i: int)
    requires
        0 <= i < s.filter(pred).len(),
    ensures
        s.contains(s.filter(pred)[i]),
    decreases s.len(),
{
    reveal(Seq::filter);
    if s.len() > 0 {
        let d = s.drop_last();
        let f = d.filter(pred);
        if i < f.len() {
            lemma_filter_from(d, pred, i);
            let j = choose|j: int| 0 <= j < d.len() && d[j] == f[i];
            assert(s[j] == f[i]);
        } else {
            assert(s[s.len() - 1] == s.filter(pred)[i]);
        }
    }
}

pub open spec fn ints(v: Seq<(usize, usize)>) -> Seq<(int, int)> {
    Seq::new(v.len(), |i: int| (v[i].0 as int, v[i].1 as int))
}

fn runs_of(s: &Vec<char>) -> (r: Vec<(usize, usize)>)
    ensures
        ints(r@) == runs(s@, s@.len() as int),
{
    let mut out: Vec<(usize, usize)> = Vec::new();
    let mut n: usize = 0;
    assert(ints(out@) =~= runs(s@, 0));
    while n < s.len()
        invariant
            n <= s@.len(),
            ints(out@) == runs(s@, n as int),
        decreases s@.len() - n,
    {
        proof {
            lemma_runs(s@, n as int);
        }
        let ghost was = ints(out@);
        if s[n] == '/' {
        } else if n == 0 || s[n - 1] == '/' {
            out.push((n, n + 1));
            assert(ints(out@) =~= was.push((n as int, n + 1)));
        } else {
            assert(out@.len() == was.len());
            let k: usize = out.len() - 1;
            let start: usize = out[k].0;
            let _ = out.pop();
            out.push((start, n + 1));
            assert(ints(out@) =~= was.drop_last().push((was.last().0, n + 1)));
        }
        n += 1;
    }
    out
}

fn spans_of(s: &Vec<char>) -> (r: Vec<(usize, usize)>)
    ensures
        ints(r@) == spans(s@),
        forall|i: int| 0 <= i < r@.len() ==> (#[trigger] r@[i]).0 < r@[i].1 <= s@.len(),
{
    let all = runs_of(s);
    let ghost a = ints(all@);
    let ghost pred = |r: (int, int)| counts(s@, r);
    let mut out: Vec<(usize, usize)> = Vec::new();
    let mut i: usize = 0;
    proof {
        reveal(Seq::filter);
        assert(ints(out@) =~= a.take(0).filter(pred));
        lemma_runs(s@, s@.len() as int);
    }
    while i < all.len()
        invariant
            i <= all@.len(),
            a == ints(all@),
            a == runs(s@, s@.len() as int),
            pred == (|r: (int, int)| counts(s@, r)),
            forall|k: int| 0 <= k < a.len() ==> 0 <= (#[trigger] a[k]).0 < a[k].1 <= s@.len(),
            ints(out@) == a.take(i as int).filter(pred),
        decreases all@.len() - i,
    {
        let (x, y) = all[i];
        proof {
            reveal(Seq::filter);
            assert(a[i as int] == (x as int, y as int));
            assert(a.take(i + 1).drop_last() =~= a.take(i as int));
            assert(a.take(i + 1).last() == a[i as int]);
        }
        if !(y - x == 1 && s[x] == '.' && x != 0) {
            let ghost was = ints(out@);
            out.push((x, y));
            assert(ints(out@) =~= was.push((x as int, y as int)));
        }
        i += 1;
    }
    proof {
        assert(a.take(i as int) =~= a);
        lemma_spans(s@);
        assert forall|k: int| 0 <= k < out@.len() implies (#[trigger] out@[k]).0 < out@[k].1
            <= s@.len() by {
            assert(spans(s@)[k] == (out@[k].0 as int, out@[k].1 as int));
        }
    }
    out
}

/// The components of a path, with the root as one of its own.
pub fn components_of(s: &str) -> (r: Vec<String>)
    ensures
        texts(r@) == components(s@),
{
    let v = chars_of(s);
    let sp = spans_of(&v);
    let ghost g = spans(s@);
    let mut out: Vec<String> = Vec::new();
    if v.len() > 0 && v[0] == '/' {
        out.push(text_of(&v, 0, 1));
        assert(out@[0]@ =~= seq!['/']);
        assert(texts(out@) =~= seq![seq!['/']]);
    }
    let ghost head = texts(out@);
    let mut i: usize = 0;
    assert(texts(out@) =~= head + Seq::new(0, |k: int| s@.subrange(g[k].0, g[k].1)));
    while i < sp.len()
        invariant
            i <= sp@.len(),
            v@ == s@,
            g == spans(s@),
            ints(sp@) == g,
            forall|k: int| 0 <= k < sp@.len() ==> (#[trigger] sp@[k]).0 < sp@[k].1 <= v@.len(),
            texts(out@) == head + Seq::new(i as nat, |k: int| s@.subrange(g[k].0, g[k].1)),
        decreases sp@.len() - i,
    {
        let (x, y) = sp[i];
        assert(g[i as int] == (x as int, y as int));
        let ghost was = texts(out@);
        out.push(text_of(&v, x, y));
        assert(texts(out@) =~= was.push(s@.subrange(x as int, y as int)));
        i += 1;
        assert(texts(out@) =~= head + Seq::new(i as nat, |k: int| s@.subrange(g[k].0, g[k].1)));
    }
    assert(texts(out@) =~= components(s@));
    out
}

fn same_texts(a: &Vec<String>, b: &Vec<String>, n: usize) -> (r: bool)
    requires
        n <= a@.len(),
        n <= b@.len(),
    ensures
        r == (texts(a@).take(n as int) == texts(b@).take(n as int)),
{
    let mut i: usize = 0;
    while i < n
        invariant
            i <= n,
            n <= a@.len(),
            n <= b@.len(),
            forall|k: int| 0 <= k < i ==> a@[k]@ == b@[k]@,
        decreases n - i,
    {
        if !same(a[i].as_str(), b[i].as_str()) {
            assert(texts(a@).take(n as int)[i as int] != texts(b@).take(n as int)[i as int]);
            return false;
        }
        i += 1;
    }
    assert(texts(a@).take(n as int) =~= texts(b@).take(n as int));
    true
}

pub fn is_same_path(a: &str, b: &str) -> (r: bool)
    ensures
        r == same_path(a@, b@),
{
    let x = components_of(a);
    let y = components_of(b);
    assert(texts(x@).len() == x@.len() && texts(y@).len() == y@.len());
    if x.len() != y.len() {
        return false;
    }
    assert(texts(x@).take(x@.len() as int) =~= texts(x@));
    assert(texts(y@).take(y@.len() as int) =~= texts(y@));
    same_texts(&x, &y, x.len())
}

pub fn is_under(a: &str, base: &str) -> (r: bool)
    ensures
        r == under(a@, base@),
{
    let x = components_of(a);
    let y = components_of(base);
    assert(texts(x@).len() == x@.len() && texts(y@).len() == y@.len());
    if y.len() > x.len() {
        return false;
    }
    assert(texts(y@).take(y@.len() as int) =~= texts(y@));
    same_texts(&x, &y, y.len())
}

pub fn parent_of(s: &str) -> (r: Option<String>)
    ensures
        match r {
            Some(p) => parent(s@) == Some(p@),
            None => parent(s@) is None,
        },
{
    let v = chars_of(s);
    let sp = spans_of(&v);
    assert(ints(sp@).len() == sp@.len());
    if sp.len() == 0 {
        None
    } else if sp.len() == 1 {
        if v.len() > 0 && v[0] == '/' {
            Some(text_of(&v, 0, 1))
        } else {
            Some(String::new())
        }
    } else {
        let n: usize = sp[sp.len() - 2].1;
        assert(spans(s@)[sp@.len() - 2].1 == n);
        Some(text_of(&v, 0, n))
    }
}

pub fn is_absolute(s: &str) -> (b: bool)
    ensures
        b == rooted(s@),
{
    let v = chars_of(s);
    v.len() > 0 && v[0] == '/'
}

pub fn join_path(a: &str, b: &str) -> (r: String)
    ensures
        r@ == joined_path(a@, b@),
{
    if is_absolute(b) {
        return b.to_owned();
    }
    let v = chars_of(a);
    let mut r = a.to_owned();
    if v.len() > 0 && v[v.len() - 1] != '/' {
        r.push('/');
    }
    r.append(b);
    r
}

/// What is left of `s` behind `base`, where it lies under it.
pub open spec fn relative(s: Seq<char>, base: Seq<char>) -> Option<Seq<char>> {
    if under(s, base) {
        let sp = spans(s);
        let n = components(base).len();
        let end = if sp.len() > 0 {
            sp.last().1
        } else {
            1
        };
        if rooted(s) && n == 0 {
            Some(s.take(end))
        } else {
            let k = if rooted(s) {
                n - 1
            } else {
                n as int
            };
            if k < sp.len() {
                Some(s.subrange(sp[k].0, end))
            } else {
                Some(Seq::empty())
            }
        }
    } else {
        None
    }
}

pub fn relative_to(s: &str, base: &str) -> (r: Option<String>)
    ensures
        match r {
            Some(t) => relative(s@, base@) == Some(t@),
            None => relative(s@, base@) is None,
        },
{
    if !is_under(s, base) {
        return None;
    }
    let v = chars_of(s);
    let sp = spans_of(&v);
    let b = components_of(base);
    assert(texts(b@).len() == b@.len());
    assert(ints(sp@).len() == sp@.len());
    let n = b.len();
    let root = v.len() > 0 && v[0] == '/';
    proof {
        lemma_spans_apart(s@);
        if sp@.len() > 0 {
            assert(spans(s@).last() == (sp@[sp@.len() - 1].0 as int, sp@[sp@.len() - 1].1 as int));
        }
    }
    let end: usize = if sp.len() > 0 {
        sp[sp.len() - 1].1
    } else {
        1
    };
    if root && n == 0 {
        return Some(text_of(&v, 0, end));
    }
    let k: usize = if root {
        n - 1
    } else {
        n
    };
    if k < sp.len() {
        let start: usize = sp[k].0;
        proof {
            assert(spans(s@)[k as int] == (sp@[k as int].0 as int, sp@[k as int].1 as int));
            assert(start < sp@[k as int].1);
            if k < sp@.len() - 1 {
                assert(spans(s@)[k as int].1 < spans(s@)[sp@.len() - 1].1);
            }
        }
        Some(text_of(&v, start, end))
    } else {
        Some(String::new())
    }
}

/// The path as it is shown: relative to `base` where it lies under it.
pub open spec fn shown(s: Seq<char>, base: Seq<char>) -> Seq<char> {
    match relative(s, base) {
        Some(r) => r,
        None => s,
    }
}

pub fn shown_path(s: &str, base: &str) -> (r: String)
    ensures
        r@ == shown(s@, base@),
{
    match relative_to(s, base) {
        Some(r) => r,
        None => s.to_owned(),
    }
}

/// The last component, where it names something.
pub open spec fn file_name(s: Seq<char>) -> Option<Seq<char>> {
    let sp = spans(s);
    if sp.len() == 0 {
        None
    } else {
        let name = s.subrange(sp.last().0, sp.last().1);
        if name == seq!['.'] || name == seq!['.', '.'] {
            None
        } else {
            Some(name)
        }
    }
}

/// Position of the last `c` in `s`, or -1.
pub open spec fn last_of(s: Seq<char>, c: char) -> int
    decreases s.len(),
{
    if s.len() == 0 {
        -1
    } else if s.last() == c {
        s.len() - 1
    } else {
        last_of(s.drop_last(), c)
    }
}

/// What follows the last dot of the file name, unless the name starts with it.
pub open spec fn extension(s: Seq<char>) -> Option<Seq<char>> {
    match file_name(s) {
        Some(name) => if last_of(name, '.') > 0 {
            Some(name.skip(last_of(name, '.') + 1))
        } else {
            None
        },
        None => None,
    }
}

pub fn find_last(v: &Vec<char>, c: char) -> (r: Option<usize>)
    ensures
        match r {
            Some(i) => i < v@.len() && last_of(v@, c) == i,
            None => last_of(v@, c) == -1,
        },
{
    let mut i: usize = v.len();
    assert(v@.take(i as int) =~= v@);
    while i > 0
        invariant
            i <= v@.len(),
            last_of(v@, c) == last_of(v@.take(i as int), c),
        decreases i,
    {
        assert(v@.take(i as int).last() == v@[i - 1]);
        assert(v@.take(i as int).drop_last() =~= v@.take(i - 1));
        if v[i - 1] == c {
            return Some(i - 1);
        }
        i -= 1;
    }
    None
}

pub fn file_name_of(s: &str) -> (r: Option<String>)
    ensures
        match r {
            Some(t) => file_name(s@) == Some(t@),
            None => file_name(s@) is None,
        },
{
    let v = chars_of(s);
    let sp = spans_of(&v);
    assert(ints(sp@).len() == sp@.len());
    if sp.len() == 0 {
        return None;
    }
    let (x, y) = sp[sp.len() - 1];
    assert(spans(s@).last() == (x as int, y as int));
    let name = text_of(&v, x, y);
    proof {
        reveal_strlit(".");
        reveal_strlit("..");
        assert("."@ =~= seq!['.']);
        assert(".."@ =~= seq!['.', '.']);
    }
    if same(name.as_str(), ".") || same(name.as_str(), "..") {
        None
    } else {
        Some(name)
    }
}

pub fn extension_of(s: &str) -> (r: Option<String>)
    ensures
        match r {
            Some(t) => extension(s@) == Some(t@),
            None => extension(s@) is None,
        },
{
    let name = match file_name_of(s) {
        Some(n) => n,
        None => {
            return None;
        },
    };
    let v = chars_of(name.as_str());
    match find_last(&v, '.') {
        Some(i) => if i > 0 {
            Some(text_of(&v, i + 1, v.len()))
        } else {
            None
        },
        None => None,
    }
}

/// Going up makes a path shorter, so it comes to an end.
pub proof fn parent_is_shorter(s: Seq<char>)
    ensures
        parent(s) matches Some(p) ==> p.len() < s.len(),
{
    lemma_spans(s);
    lemma_runs(s, s.len() as int);
    let sp = spans(s);
    if sp.len() >= 2 {
        lemma_spans_apart(s);
        assert(sp[sp.len() - 2].1 < sp[sp.len() - 1].1);
    } else if sp.len() == 1 {
        let all = runs(s, s.len() as int);
        lemma_filter_from(all, |r: (int, int)| counts(s, r), 0);
        let j = choose|j: int| 0 <= j < all.len() && all[j] == sp[0];
        assert(s[all[j].0] != '/');
    }
}

proof fn lemma_spans_apart(s: Seq<char>)
    ensures
        forall|i: int, j: int|
            0 <= i < j < spans(s).len() ==> (#[trigger] spans(s)[i]).1 < (#[trigger] spans(s)[j]).1,
{
    lemma_runs(s, s.len() as int);
    lemma_filter_apart(runs(s, s.len() as int), |r: (int, int)| counts(s, r));
}

proof fn lemma_filter_apart(s: Seq<(int, int)>, pred: spec_fn((int, int)) -> bool)
    requires
        forall|i: int, j: int|
            0 <= i < j < s.len() ==> (#[trigger] s[i]).1 < (#[trigger] s[j]).1,
    ensures
        forall|i: int, j: int|
            0 <= i < j < s.filter(pred).len() ==> (#[trigger] s.filter(pred)[i]).1 < (
            #[trigger] s.filter(pred)[j]).1,
    decreases s.len(),
{
    reveal(Seq::filter);
    if s.len() > 0 {
        let d = s.drop_last();
        lemma_filter_apart(d, pred);
        assert forall|i: int, j: int| 0 <= i < j < s.filter(pred).len() implies (
        #[trigger] s.filter(pred)[i]).1 < (#[trigger] s.filter(pred)[j]).1 by {
            let f = d.filter(pred);
            if j == f.len() {
                lemma_filter_from(d, pred, i);
                let k = choose|k: int| 0 <= k < d.len() && d[k] == f[i];
                assert(s[k].1 < s[s.len() - 1].1);
            } else {
                assert(s.filter(pred)[i] == f[i] && s.filter(pred)[j] == f[j]);
            }
        }
    }
}

} // verus!
