//! Text primitives over sequences of characters: searching, trimming,
//! splitting, joining and number formatting, each with its exact meaning.

use vstd::prelude::*;

verus! {

// ───────────────────────────── std, as documented ─────────────────────────────

/// Unicode `White_Space`.
pub open spec fn is_white(c: char) -> bool {
    ||| '\u{9}' <= c <= '\u{d}'
    ||| c == ' '
    ||| c == '\u{85}'
    ||| c == '\u{a0}'
    ||| c == '\u{1680}'
    ||| '\u{2000}' <= c <= '\u{200a}'
    ||| c == '\u{2028}'
    ||| c == '\u{2029}'
    ||| c == '\u{202f}'
    ||| c == '\u{205f}'
    ||| c == '\u{3000}'
}

/// `char::is_whitespace`: tests the `White_Space` property, whose members
/// `is_white` lists.
pub assume_specification[ char::is_whitespace ](c: char) -> (b: bool)
    ensures
        b == is_white(c),
;

/// `String::push`: appends one character.
pub assume_specification[ String::push ](s: &mut String, c: char)
    ensures
        final(s)@ == old(s)@.push(c),
;

/// The characters of `s`, indexable.
pub fn chars_of(s: &str) -> (v: Vec<char>)
    ensures
        v@ == s@,
{
    let mut v: Vec<char> = Vec::new();
    for c in it: s.chars()
        invariant
            v@ == s@.take(it.index()),
            it.seq() == s@,
    {
        proof {
            assert(s@.take(it.index() + 1) == s@.take(it.index()).push(c));
        }
        v.push(c);
    }
    assert(s@.take(s@.len() as int) == s@);
    v
}

/// The text made of `v[from..to]`.
pub fn text_of(v: &Vec<char>, from: usize, to: usize) -> (s: String)
    requires
        from <= to <= v@.len(),
    ensures
        s@ == v@.subrange(from as int, to as int),
{
    let mut s = String::new();
    let mut i: usize = from;
    while i < to
        invariant
            from <= i <= to <= v@.len(),
            s@ == v@.subrange(from as int, i as int),
        decreases to - i,
    {
        s.push(v[i]);
        i += 1;
        assert(v@.subrange(from as int, i as int) == v@.subrange(from as int, i - 1).push(v@[i - 1]));
    }
    s
}

/// Whether two texts are the same.
pub fn same(a: &str, b: &str) -> (r: bool)
    ensures
        r == (a@ == b@),
{
    a.to_owned() == b.to_owned()
}

/// The characters of each text of a list.
pub open spec fn texts(v: Seq<String>) -> Seq<Seq<char>> {
    Seq::new(v.len(), |i: int| v[i]@)
}

/// The characters of an optional text.
pub open spec fn opt_text(o: Option<String>) -> Option<Seq<char>> {
    match o {
        Some(s) => Some(s@),
        None => None,
    }
}

/// A copy of a list of texts.
pub fn copy_texts(v: &Vec<String>) -> (r: Vec<String>)
    ensures
        texts(r@) == texts(v@),
{
    let mut r: Vec<String> = Vec::new();
    let mut i: usize = 0;
    while i < v.len()
        invariant
            i <= v@.len(),
            r@.len() == i,
            forall|k: int| 0 <= k < i ==> r@[k]@ == v@[k]@,
        decreases v@.len() - i,
    {
        r.push(v[i].clone());
        i += 1;
    }
    assert(texts(r@) =~= texts(v@));
    r
}

/// A copy of an optional text.
pub fn copy_opt(o: &Option<String>) -> (r: Option<String>)
    ensures
        opt_text(r) == opt_text(*o),
        r == *o,
{
    match o {
        Some(s) => Some(s.clone()),
        None => None,
    }
}

/// Whether a list of texts holds `x`.
pub fn has_text(v: &Vec<String>, x: &str) -> (b: bool)
    ensures
        b == texts(v@).contains(x@),
{
    let mut i: usize = 0;
    while i < v.len()
        invariant
            i <= v@.len(),
            forall|k: int| 0 <= k < i ==> v@[k]@ != x@,
        decreases v@.len() - i,
    {
        if same(v[i].as_str(), x) {
            assert(texts(v@)[i as int] == x@);
            return true;
        }
        i += 1;
    }
    assert forall|k: int| 0 <= k < texts(v@).len() implies texts(v@)[k] != x@ by {}
    false
}

/// How many bytes a text takes in UTF-8.
pub open spec fn byte_length(s: Seq<char>) -> nat {
    vstd::utf8::encode_utf8(s).len()
}

pub fn byte_len(s: &str) -> (n: usize)
    ensures
        n == byte_length(s@),
{
    s.as_bytes().len()
}

/// `String::from_utf8`, whose error is dropped: the text that the bytes encode,
/// where they are well-formed UTF-8.
#[verifier::external_body]
pub(crate) fn from_utf8(bytes: Vec<u8>) -> (r: Option<String>)
    ensures
        match r {
            Some(s) => vstd::utf8::valid_utf8(bytes@) && s@ == vstd::utf8::decode_utf8(bytes@),
            None => !vstd::utf8::valid_utf8(bytes@),
        },
{
    String::from_utf8(bytes).ok()
}

// ───────────────────────────── searching ─────────────────────────────

/// `p` stands in `s` at position `i`.
pub open spec fn occurs_at(s: Seq<char>, p: Seq<char>, i: int) -> bool {
    0 <= i && i + p.len() <= s.len() && s.subrange(i, i + p.len()) == p
}

pub open spec fn starts_with(s: Seq<char>, p: Seq<char>) -> bool {
    occurs_at(s, p, 0)
}

pub open spec fn ends_with(s: Seq<char>, p: Seq<char>) -> bool {
    occurs_at(s, p, s.len() - p.len())
}

pub open spec fn contains(s: Seq<char>, p: Seq<char>) -> bool {
    exists|i: int| occurs_at(s, p, i)
}

fn occurs_in(s: &Vec<char>, p: &Vec<char>, at: usize) -> (b: bool)
    requires
        at + p@.len() <= s@.len(),
    ensures
        b == occurs_at(s@, p@, at as int),
{
    let mut k: usize = 0;
    assert(s.len() <= usize::MAX);
    while k < p.len()
        invariant
            k <= p@.len(),
            at + p@.len() <= s@.len() <= usize::MAX,
            forall|j: int| 0 <= j < k ==> s@[at + j] == p@[j],
        decreases p@.len() - k,
    {
        let c = s[at + k];
        if c != p[k] {
            assert(s@.subrange(at as int, at + p@.len())[k as int] != p@[k as int]);
            return false;
        }
        k += 1;
    }
    assert(s@.subrange(at as int, at + p@.len()) =~= p@);
    true
}

pub fn has_prefix(s: &str, p: &str) -> (b: bool)
    ensures
        b == starts_with(s@, p@),
{
    let x = chars_of(s);
    let y = chars_of(p);
    y.len() <= x.len() && occurs_in(&x, &y, 0)
}

pub fn has_suffix(s: &str, p: &str) -> (b: bool)
    ensures
        b == ends_with(s@, p@),
{
    let x = chars_of(s);
    let y = chars_of(p);
    y.len() <= x.len() && occurs_in(&x, &y, x.len() - y.len())
}

/// `s` without the prefix `p`, if it starts with it.
pub fn after_prefix(s: &str, p: &str) -> (r: Option<String>)
    ensures
        match r {
            Some(t) => starts_with(s@, p@) && t@ == s@.skip(p@.len() as int),
            None => !starts_with(s@, p@),
        },
{
    let x = chars_of(s);
    let y = chars_of(p);
    if y.len() <= x.len() && occurs_in(&x, &y, 0) {
        Some(text_of(&x, y.len(), x.len()))
    } else {
        None
    }
}

/// `s` without the suffix `p`, if it ends with it.
pub fn before_suffix(s: &str, p: &str) -> (r: Option<String>)
    ensures
        match r {
            Some(t) => ends_with(s@, p@) && t@ == s@.take(s@.len() - p@.len()),
            None => !ends_with(s@, p@),
        },
{
    let x = chars_of(s);
    let y = chars_of(p);
    if y.len() <= x.len() && occurs_in(&x, &y, x.len() - y.len()) {
        Some(text_of(&x, 0, x.len() - y.len()))
    } else {
        None
    }
}

pub fn has_part(s: &str, p: &str) -> (b: bool)
    ensures
        b == contains(s@, p@),
{
    let x = chars_of(s);
    let y = chars_of(p);
    if y.len() > x.len() {
        return false;
    }
    let mut i: usize = 0;
    while i <= x.len() - y.len()
        invariant
            y@.len() <= x@.len(),
            i <= x@.len() - y@.len() + 1,
            x@ == s@,
            y@ == p@,
            forall|k: int| 0 <= k < i ==> !occurs_at(s@, p@, k),
        decreases x@.len() - i,
    {
        if occurs_in(&x, &y, i) {
            return true;
        }
        if i == x.len() - y.len() {
            assert forall|k: int| !occurs_at(s@, p@, k) by {}
            return false;
        }
        i += 1;
    }
    false
}

/// Position of the first `c` in `s`; the length of `s` where there is none.
pub open spec fn first_of(s: Seq<char>, c: char) -> int
    decreases s.len(),
{
    if s.len() == 0 || s[0] == c {
        0
    } else {
        1 + first_of(s.skip(1), c)
    }
}

pub proof fn lemma_first_of(s: Seq<char>, c: char)
    ensures
        0 <= first_of(s, c) <= s.len(),
        forall|k: int| 0 <= k < first_of(s, c) ==> s[k] != c,
        first_of(s, c) < s.len() ==> s[first_of(s, c)] == c,
    decreases s.len(),
{
    if s.len() > 0 && s[0] != c {
        let t = s.skip(1);
        lemma_first_of(t, c);
        assert forall|k: int| 0 <= k < first_of(s, c) implies s[k] != c by {
            if k > 0 {
                assert(t[k - 1] == s[k]);
            }
        }
        if first_of(s, c) < s.len() {
            assert(t[first_of(t, c)] == s[first_of(s, c)]);
        }
    }
}

/// Position of the first `c` in `s`; the length of `s` where there is none.
pub fn find_char(s: &Vec<char>, c: char) -> (r: usize)
    ensures
        r == first_of(s@, c),
{
    let mut i: usize = 0;
    assert(s@.skip(0) =~= s@);
    while i < s.len()
        invariant
            i <= s@.len(),
            first_of(s@, c) == i + first_of(s@.skip(i as int), c),
        decreases s@.len() - i,
    {
        if s[i] == c {
            return i;
        }
        assert(s@.skip(i as int).skip(1) =~= s@.skip(i + 1));
        i += 1;
    }
    i
}

/// The part of `s` before its first `c`, or all of `s`.
pub fn before_char(s: &str, c: char) -> (r: String)
    ensures
        r@ == s@.take(first_of(s@, c)),
{
    let v = chars_of(s);
    let n = find_char(&v, c);
    proof {
        lemma_first_of(s@, c);
    }
    text_of(&v, 0, n)
}

/// The part of `s` after its first `c`, if there is one.
pub fn after_char(s: &str, c: char) -> (r: Option<String>)
    ensures
        match r {
            Some(t) => first_of(s@, c) < s@.len() && t@ == s@.skip(first_of(s@, c) + 1),
            None => first_of(s@, c) == s@.len(),
        },
{
    let v = chars_of(s);
    let n = find_char(&v, c);
    proof {
        lemma_first_of(s@, c);
    }
    if n < v.len() {
        Some(text_of(&v, n + 1, v.len()))
    } else {
        None
    }
}

/// Where `p` first occurs in `s`; the length of `s` where it does not.
pub open spec fn first_at(s: Seq<char>, p: Seq<char>) -> int
    decreases s.len(),
{
    if occurs_at(s, p, 0) || s.len() == 0 {
        0
    } else {
        1 + first_at(s.skip(1), p)
    }
}

/// The part of `s` before `p` first occurs, or all of `s`.
pub fn before_part(s: &str, p: &str) -> (r: String)
    ensures
        r@ == s@.take(first_at(s@, p@)),
{
    let x = chars_of(s);
    let y = chars_of(p);
    let mut i: usize = 0;
    assert(x@.skip(0) =~= x@);
    while i < x.len()
        invariant
            i <= x@.len(),
            x@ == s@,
            y@ == p@,
            first_at(s@, p@) == i + first_at(s@.skip(i as int), p@),
        decreases x@.len() - i,
    {
        let ghost t = s@.skip(i as int);
        if y.len() <= x.len() - i && occurs_in(&x, &y, i) {
            assert(t.take(p@.len() as int) =~= s@.subrange(i as int, i + p@.len()));
            return text_of(&x, 0, i);
        }
        proof {
            if p@.len() <= t.len() {
                assert(t.take(p@.len() as int) =~= s@.subrange(i as int, i + p@.len()));
            }
            assert(t.skip(1) =~= s@.skip(i + 1));
        }
        i += 1;
    }
    assert(s@.skip(i as int).len() == 0);
    text_of(&x, 0, i)
}

/// The part of `s` after `p` first occurs, if it does.
pub fn after_part(s: &str, p: &str) -> (r: Option<String>)
    requires
        p@.len() > 0,
    ensures
        match r {
            Some(t) => first_at(s@, p@) < s@.len() && t@ == s@.skip(first_at(s@, p@) + p@.len()),
            None => first_at(s@, p@) == s@.len(),
        },
{
    let x = chars_of(s);
    let y = chars_of(p);
    let mut i: usize = 0;
    assert(x@.skip(0) =~= x@);
    while i < x.len()
        invariant
            i <= x@.len(),
            x@ == s@,
            y@ == p@,
            p@.len() > 0,
            first_at(s@, p@) == i + first_at(s@.skip(i as int), p@),
        decreases x@.len() - i,
    {
        let ghost t = s@.skip(i as int);
        if y.len() <= x.len() - i && occurs_in(&x, &y, i) {
            assert(t.take(p@.len() as int) =~= s@.subrange(i as int, i + p@.len()));
            return Some(text_of(&x, i + y.len(), x.len()));
        }
        proof {
            if p@.len() <= t.len() {
                assert(t.take(p@.len() as int) =~= s@.subrange(i as int, i + p@.len()));
            }
            assert(t.skip(1) =~= s@.skip(i + 1));
        }
        i += 1;
    }
    assert(s@.skip(i as int).len() == 0);
    None
}

/// What follows the last character of `s` that `seps` holds; all of `s` where
/// none is.
pub open spec fn after_last(s: Seq<char>, seps: Seq<char>) -> Seq<char>
    decreases s.len(),
{
    if s.len() == 0 || seps.contains(s.last()) {
        Seq::empty()
    } else {
        after_last(s.drop_last(), seps).push(s.last())
    }
}

pub fn last_piece(s: &str, seps: &str) -> (r: String)
    ensures
        r@ == after_last(s@, seps@),
{
    let v = chars_of(s);
    let sep = chars_of(seps);
    let mut i: usize = v.len();
    assert(v@.take(i as int) =~= v@);
    assert(v@.skip(i as int) =~= Seq::empty());
    assert(after_last(v@, sep@) =~= after_last(v@.take(i as int), sep@) + v@.skip(i as int));
    while i > 0 && !among(v[i - 1], &sep)
        invariant
            i <= v@.len(),
            after_last(v@, sep@) == after_last(v@.take(i as int), sep@) + v@.skip(i as int),
        decreases i,
    {
        proof {
            let t = v@.take(i as int);
            assert(t.last() == v@[i - 1]);
            assert(t.drop_last() =~= v@.take(i - 1));
            let a = after_last(v@.take(i - 1), sep@);
            assert(a.push(v@[i - 1]) + v@.skip(i as int) =~= a + v@.skip(i - 1));
        }
        i -= 1;
    }
    proof {
        let t = v@.take(i as int);
        if i > 0 {
            assert(t.last() == v@[i - 1]);
        }
        assert(after_last(t, sep@) =~= Seq::empty());
        assert(Seq::<char>::empty() + v@.skip(i as int) =~= v@.skip(i as int));
    }
    text_of(&v, i, v.len())
}

// ───────────────────────────── trimming ─────────────────────────────

pub open spec fn trim_start(s: Seq<char>) -> Seq<char>
    decreases s.len(),
{
    if s.len() > 0 && is_white(s[0]) {
        trim_start(s.skip(1))
    } else {
        s
    }
}

pub open spec fn trim_end(s: Seq<char>) -> Seq<char>
    decreases s.len(),
{
    if s.len() > 0 && is_white(s.last()) {
        trim_end(s.drop_last())
    } else {
        s
    }
}

/// `s` without white space at either end.
pub open spec fn trim(s: Seq<char>) -> Seq<char> {
    trim_end(trim_start(s))
}

pub proof fn lemma_trim_start_suffix(s: Seq<char>)
    ensures
        trim_start(s).len() <= s.len(),
        trim_start(s) == s.skip(s.len() - trim_start(s).len()),
        trim_start(s).len() == 0 || !is_white(trim_start(s)[0]),
        forall|k: int| 0 <= k < s.len() - trim_start(s).len() ==> is_white(#[trigger] s[k]),
    decreases s.len(),
{
    if s.len() > 0 && is_white(s[0]) {
        lemma_trim_start_suffix(s.skip(1));
        assert forall|k: int| 0 <= k < s.len() - trim_start(s).len() implies is_white(
            #[trigger] s[k],
        ) by {
            if k > 0 {
                assert(s.skip(1)[k - 1] == s[k]);
            }
        }
        assert(s.skip(1).skip(s.len() - 1 - trim_start(s).len()) =~= s.skip(
            s.len() - trim_start(s).len(),
        ));
    } else {
        assert(s.skip(0) =~= s);
    }
}

/// How many white-space characters a text starts with.
pub fn white_run(v: &Vec<char>) -> (n: usize)
    ensures
        n <= v@.len(),
        v@.skip(n as int) == trim_start(v@),
{
    let mut i: usize = 0;
    assert(v@.skip(0) =~= v@);
    while i < v.len()
        invariant
            i <= v@.len(),
            trim_start(v@) == trim_start(v@.skip(i as int)),
        decreases v@.len() - i,
    {
        if !v[i].is_whitespace() {
            return i;
        }
        assert(v@.skip(i as int).skip(1) =~= v@.skip(i + 1));
        i += 1;
    }
    i
}

pub fn trimmed(s: &str) -> (r: String)
    ensures
        r@ == trim(s@),
{
    let v = chars_of(s);
    let a = white_run(&v);
    let mut b: usize = v.len();
    let ghost t = v@.skip(a as int);
    assert(v@.subrange(a as int, b as int) =~= t);
    while b > a
        invariant
            a <= b <= v@.len(),
            trim(s@) == trim_end(t),
            trim_end(t) == trim_end(v@.subrange(a as int, b as int)),
        decreases b,
    {
        if !v[b - 1].is_whitespace() {
            assert(v@.subrange(a as int, b as int).last() == v@[b - 1]);
            return text_of(&v, a, b);
        }
        assert(v@.subrange(a as int, b as int).drop_last() =~= v@.subrange(a as int, b - 1));
        b -= 1;
    }
    text_of(&v, a, b)
}

/// `s` with every trailing `p` taken off.
pub open spec fn strip_all_suffix(s: Seq<char>, p: Seq<char>) -> Seq<char>
    decreases s.len(),
{
    if p.len() > 0 && ends_with(s, p) {
        strip_all_suffix(s.take(s.len() - p.len()), p)
    } else {
        s
    }
}

pub fn without_suffixes(s: &str, p: &str) -> (r: String)
    ensures
        r@ == strip_all_suffix(s@, p@),
{
    let y = chars_of(p);
    let mut x = chars_of(s);
    while y.len() > 0 && y.len() <= x.len() && occurs_in(&x, &y, x.len() - y.len())
        invariant
            y@ == p@,
            strip_all_suffix(s@, p@) == strip_all_suffix(x@, p@),
        decreases x@.len(),
    {
        let n: usize = x.len() - y.len();
        x.truncate(n);
    }
    text_of(&x, 0, x.len())
}

/// `s` with every leading `p` taken off.
pub open spec fn strip_all_prefix(s: Seq<char>, p: Seq<char>) -> Seq<char>
    decreases s.len(),
{
    if p.len() > 0 && starts_with(s, p) {
        strip_all_prefix(s.skip(p.len() as int), p)
    } else {
        s
    }
}

pub fn without_prefixes(s: &str, p: &str) -> (r: String)
    ensures
        r@ == strip_all_prefix(s@, p@),
{
    let y = chars_of(p);
    let x = chars_of(s);
    let mut i: usize = 0;
    assert(x@.skip(0) =~= x@);
    while y.len() > 0 && y.len() <= x.len() - i && occurs_in(&x, &y, i)
        invariant
            i <= x@.len(),
            y@ == p@,
            strip_all_prefix(s@, p@) == strip_all_prefix(x@.skip(i as int), p@),
        decreases x@.len() - i,
    {
        assert(x@.skip(i as int).take(y@.len() as int) =~= x@.subrange(i as int, i + y@.len()));
        assert(x@.skip(i as int).skip(y@.len() as int) =~= x@.skip(i + y@.len()));
        i += y.len();
    }
    proof {
        if p@.len() > 0 && starts_with(x@.skip(i as int), p@) {
            assert(x@.skip(i as int).take(y@.len() as int) =~= x@.subrange(i as int, i + y@.len()));
        }
    }
    text_of(&x, i, x.len())
}

// ───────────────────────────── splitting and joining ─────────────────────────────

/// The pieces of `s` between the characters that `seps` holds.
pub open spec fn split(s: Seq<char>, seps: Seq<char>) -> Seq<Seq<char>>
    decreases s.len(),
{
    if s.len() == 0 {
        seq![Seq::empty()]
    } else {
        let before = split(s.drop_last(), seps);
        if seps.contains(s.last()) {
            before.push(Seq::empty())
        } else {
            before.drop_last().push(before.last().push(s.last()))
        }
    }
}

fn among(c: char, seps: &Vec<char>) -> (b: bool)
    ensures
        b == seps@.contains(c),
{
    let mut i: usize = 0;
    while i < seps.len()
        invariant
            i <= seps@.len(),
            forall|k: int| 0 <= k < i ==> seps@[k] != c,
        decreases seps@.len() - i,
    {
        if seps[i] == c {
            return true;
        }
        i += 1;
    }
    false
}

pub fn pieces(s: &str, seps: &str) -> (r: Vec<String>)
    ensures
        texts(r@) == split(s@, seps@),
        r@.len() >= 1,
{
    let sep = chars_of(seps);
    let v = chars_of(s);
    let mut out: Vec<String> = Vec::new();
    let mut cur = String::new();
    let mut i: usize = 0;
    assert(texts(out@).push(cur@) =~= split(v@.take(0), seps@));
    while i < v.len()
        invariant
            i <= v@.len(),
            sep@ == seps@,
            texts(out@).push(cur@) == split(v@.take(i as int), seps@),
        decreases v@.len() - i,
    {
        let c = v[i];
        let ghost before = split(v@.take(i as int), seps@);
        proof {
            assert(v@.take(i + 1).drop_last() =~= v@.take(i as int));
        }
        if among(c, &sep) {
            let ghost o = texts(out@);
            out.push(cur);
            assert(texts(out@) =~= before);
            cur = String::new();
        } else {
            let ghost o = cur@;
            cur.push(c);
            assert(before.drop_last() =~= texts(out@));
            assert(before.last() =~= o);
        }
        i += 1;
        assert(texts(out@).push(cur@) =~= split(v@.take(i as int), seps@));
    }
    assert(v@.take(v@.len() as int) =~= v@);
    let ghost o = texts(out@);
    let ghost c = cur@;
    out.push(cur);
    assert(texts(out@) =~= o.push(c));
    out
}

/// A line without the carriage return that ends it.
pub open spec fn strip_cr(s: Seq<char>) -> Seq<char> {
    if s.len() > 0 && s.last() == '\r' {
        s.drop_last()
    } else {
        s
    }
}

/// The lines of `s`: what stands between line feeds, each without the carriage
/// return before its line feed; no empty line after the last one.
pub open spec fn lines(s: Seq<char>) -> Seq<Seq<char>> {
    let p = split(s, seq!['\n']);
    let ended = Seq::new((p.len() - 1) as nat, |i: int| strip_cr(p[i]));
    if p.last().len() == 0 {
        ended
    } else {
        ended.push(p.last())
    }
}

pub fn lines_of(s: &str) -> (r: Vec<String>)
    ensures
        texts(r@) == lines(s@),
{
    proof {
        reveal_strlit("\n");
    }
    let p = pieces(s, "\n");
    assert("\n"@ =~= seq!['\n']);
    let ghost sp = split(s@, seq!['\n']);
    let mut out: Vec<String> = Vec::new();
    let mut i: usize = 0;
    while i < p.len() - 1
        invariant
            p@.len() >= 1,
            i <= p@.len() - 1,
            texts(p@) == sp,
            out@.len() == i,
            forall|k: int| 0 <= k < i ==> out@[k]@ == strip_cr(#[trigger] sp[k]),
        decreases p@.len() - i,
    {
        assert(sp[i as int] == p@[i as int]@);
        let v = chars_of(p[i].as_str());
        if v.len() > 0 && v[v.len() - 1] == '\r' {
            out.push(text_of(&v, 0, v.len() - 1));
        } else {
            out.push(p[i].clone());
        }
        i += 1;
    }
    let last = p[p.len() - 1].clone();
    assert(sp.last() == last@);
    if !last.as_str().is_empty() {
        out.push(last);
    }
    assert(texts(out@) =~= lines(s@));
    out
}

/// The first line of `s`; empty where it has none.
pub open spec fn first_line(s: Seq<char>) -> Seq<char> {
    if lines(s).len() > 0 {
        lines(s)[0]
    } else {
        Seq::empty()
    }
}

pub fn first_line_of(s: &str) -> (r: String)
    ensures
        r@ == first_line(s@),
{
    let l = lines_of(s);
    assert(texts(l@).len() == l@.len());
    if l.len() > 0 {
        let r = l[0].clone();
        assert(texts(l@)[0] == r@);
        r
    } else {
        String::new()
    }
}

/// The texts of `v` with `sep` between them.
pub open spec fn join(v: Seq<Seq<char>>, sep: Seq<char>) -> Seq<char>
    decreases v.len(),
{
    if v.len() == 0 {
        Seq::empty()
    } else if v.len() == 1 {
        v[0]
    } else {
        join(v.drop_last(), sep) + sep + v.last()
    }
}

pub fn joined(v: &Vec<String>, sep: &str) -> (r: String)
    ensures
        r@ == join(texts(v@), sep@),
{
    let mut out = String::new();
    let mut i: usize = 0;
    let ghost t = texts(v@);
    while i < v.len()
        invariant
            i <= v@.len(),
            t == texts(v@),
            out@ == join(t.take(i as int), sep@),
        decreases v@.len() - i,
    {
        assert(t.take(i + 1).drop_last() =~= t.take(i as int));
        if i > 0 {
            out.append(sep);
        }
        out.append(v[i].as_str());
        i += 1;
        assert(out@ =~= join(t.take(i as int), sep@));
    }
    assert(t.take(t.len() as int) =~= t);
    out
}

// ───────────────────────────── rewriting ─────────────────────────────

/// `s` with `to` in place of every `c`.
pub open spec fn replace_char(s: Seq<char>, c: char, to: Seq<char>) -> Seq<char>
    decreases s.len(),
{
    if s.len() == 0 {
        Seq::empty()
    } else if s.last() == c {
        replace_char(s.drop_last(), c, to) + to
    } else {
        replace_char(s.drop_last(), c, to).push(s.last())
    }
}

pub fn with_char_replaced(s: &str, c: char, to: &str) -> (r: String)
    ensures
        r@ == replace_char(s@, c, to@),
{
    let v = chars_of(s);
    let mut out = String::new();
    let mut i: usize = 0;
    while i < v.len()
        invariant
            i <= v@.len(),
            out@ == replace_char(v@.take(i as int), c, to@),
        decreases v@.len() - i,
    {
        assert(v@.take(i + 1).drop_last() =~= v@.take(i as int));
        if v[i] == c {
            out.append(to);
        } else {
            out.push(v[i]);
        }
        i += 1;
    }
    assert(v@.take(v@.len() as int) =~= v@);
    out
}

/// The ASCII lower-case form of a character.
pub open spec fn ascii_lower(c: char) -> char {
    if 'A' <= c <= 'Z' {
        ((c as u8) + 32) as u8 as char
    } else {
        c
    }
}

pub fn lower_char(c: char) -> (r: char)
    ensures
        r == ascii_lower(c),
{
    if 'A' <= c && c <= 'Z' {
        ((c as u8) + 32) as char
    } else {
        c
    }
}

/// `s` in ASCII lower case.
pub open spec fn ascii_lowercase(s: Seq<char>) -> Seq<char> {
    Seq::new(s.len(), |i: int| ascii_lower(s[i]))
}

pub fn lowered(s: &str) -> (r: String)
    ensures
        r@ == ascii_lowercase(s@),
{
    let v = chars_of(s);
    let mut out = String::new();
    let mut i: usize = 0;
    while i < v.len()
        invariant
            i <= v@.len(),
            out@.len() == i,
            forall|k: int| 0 <= k < i ==> out@[k] == ascii_lower(v@[k]),
        decreases v@.len() - i,
    {
        out.push(lower_char(v[i]));
        i += 1;
    }
    assert(out@ =~= ascii_lowercase(s@));
    out
}

pub open spec fn all_ascii(s: Seq<char>) -> bool {
    forall|i: int| 0 <= i < s.len() ==> (#[trigger] s[i] as u32) < 128
}

/// What `str::to_lowercase` makes of a text.
pub uninterp spec fn lowercase(s: Seq<char>) -> Seq<char>;

/// `str::to_lowercase`: a function of the text alone. On a text of ASCII
/// characters it is the ASCII lower-case form. The mapping of other characters
/// is not spelled out.
pub assume_specification[ str::to_lowercase ](s: &str) -> (r: String)
    ensures
        r@ == lowercase(s@),
        all_ascii(s@) ==> r@ == ascii_lowercase(s@),
;

/// Whether a character is an ASCII letter or digit.
pub open spec fn is_ascii_word(c: char) -> bool {
    ('a' <= c <= 'z') || ('A' <= c <= 'Z') || ('0' <= c <= '9')
}

/// Whether a character counts as a letter or digit.
pub uninterp spec fn alphanumeric(c: char) -> bool;

/// `char::is_alphanumeric`: a function of the character alone. Among the ASCII
/// characters it is the letters and digits; which others it covers is not
/// spelled out.
pub assume_specification[ char::is_alphanumeric ](c: char) -> (b: bool)
    ensures
        b == alphanumeric(c),
        (c as u32) < 128 ==> b == is_ascii_word(c),
;

/// At most the first `n` characters of `s`.
pub open spec fn clip(s: Seq<char>, n: int) -> Seq<char> {
    if s.len() <= n {
        s
    } else {
        s.take(n)
    }
}

pub fn clipped(s: &str, n: usize) -> (r: String)
    ensures
        r@ == clip(s@, n as int),
{
    let v = chars_of(s);
    if v.len() <= n {
        assert(v@.subrange(0, v@.len() as int) =~= v@);
        text_of(&v, 0, v.len())
    } else {
        text_of(&v, 0, n)
    }
}

// ───────────────────────────── numbers ─────────────────────────────

pub open spec fn digit(d: nat) -> char
    recommends
        d < 10,
{
    (48 + d) as u8 as char
}

/// Decimal notation.
pub open spec fn decimal(n: nat) -> Seq<char>
    decreases n,
{
    if n < 10 {
        seq![digit(n)]
    } else {
        decimal(n / 10).push(digit(n % 10))
    }
}

pub fn decimal_of(n: u64) -> (s: String)
    ensures
        s@ == decimal(n as nat),
    decreases n,
{
    if n < 10 {
        let mut s = String::new();
        s.push((48 + n as u8) as char);
        assert(s@ =~= decimal(n as nat));
        s
    } else {
        let mut s = decimal_of(n / 10);
        s.push((48 + (n % 10) as u8) as char);
        s
    }
}

pub open spec fn hex_digit(d: nat) -> char
    recommends
        d < 16,
{
    if d < 10 {
        digit(d)
    } else {
        (87 + d) as u8 as char
    }
}

/// The last `width` hexadecimal digits of a number.
pub open spec fn hex(n: nat, width: nat) -> Seq<char>
    decreases width,
{
    if width == 0 {
        Seq::empty()
    } else {
        hex(n / 16, (width - 1) as nat).push(hex_digit(n % 16))
    }
}

fn hex_char(d: u8) -> (c: char)
    requires
        d < 16,
    ensures
        c == hex_digit(d as nat),
{
    if d < 10 {
        (48 + d) as char
    } else {
        (87 + d) as char
    }
}

/// A number as `width` hexadecimal digits.
pub fn hex_of(n: u64, width: usize) -> (s: String)
    ensures
        s@ == hex(n as nat, width as nat),
    decreases width,
{
    if width == 0 {
        String::new()
    } else {
        let mut s = hex_of(n / 16, width - 1);
        s.push(hex_char((n % 16) as u8));
        s
    }
}

// ───────────────────────────── order ─────────────────────────────

/// Lexicographic order by code point, which is the order of `String`.
pub open spec fn lex_lt(a: Seq<char>, b: Seq<char>) -> bool
    decreases b.len(),
{
    if b.len() == 0 {
        false
    } else if a.len() == 0 {
        true
    } else if a[0] != b[0] {
        a[0] < b[0]
    } else {
        lex_lt(a.skip(1), b.skip(1))
    }
}

pub proof fn lemma_lex_irreflexive(a: Seq<char>)
    ensures
        !lex_lt(a, a),
    decreases a.len(),
{
    if a.len() > 0 {
        lemma_lex_irreflexive(a.skip(1));
    }
}

pub proof fn lemma_lex_transitive(a: Seq<char>, b: Seq<char>, c: Seq<char>)
    requires
        lex_lt(a, b),
        lex_lt(b, c),
    ensures
        lex_lt(a, c),
    decreases b.len(),
{
    if a.len() > 0 && a[0] == b[0] && b[0] == c[0] {
        lemma_lex_transitive(a.skip(1), b.skip(1), c.skip(1));
    }
}

pub proof fn lemma_lex_total(a: Seq<char>, b: Seq<char>)
    ensures
        a == b || lex_lt(a, b) || lex_lt(b, a),
    decreases a.len(),
{
    if a.len() == 0 || b.len() == 0 {
        assert(a.len() == 0 && b.len() == 0 ==> a =~= b);
    } else if a[0] == b[0] {
        lemma_lex_total(a.skip(1), b.skip(1));
        if a.skip(1) == b.skip(1) {
            assert(a =~= seq![a[0]] + a.skip(1));
            assert(b =~= seq![b[0]] + b.skip(1));
        }
    }
}

pub fn text_less(a: &str, b: &str) -> (r: bool)
    ensures
        r == lex_lt(a@, b@),
{
    let x = chars_of(a);
    let y = chars_of(b);
    let mut i: usize = 0;
    assert(x@.skip(0) =~= x@);
    assert(y@.skip(0) =~= y@);
    while i < x.len() && i < y.len()
        invariant
            i <= x@.len(),
            i <= y@.len(),
            x@ == a@,
            y@ == b@,
            lex_lt(x@, y@) == lex_lt(x@.skip(i as int), y@.skip(i as int)),
        decreases x@.len() - i,
    {
        if x[i] != y[i] {
            assert(x@.skip(i as int)[0] == x@[i as int] && y@.skip(i as int)[0] == y@[i as int]);
            return x[i] < y[i];
        }
        assert(x@.skip(i as int).skip(1) =~= x@.skip(i + 1));
        assert(y@.skip(i as int).skip(1) =~= y@.skip(i + 1));
        i += 1;
    }
    i < y.len()
}

pub open spec fn is_digit(c: char) -> bool {
    48 <= c as u32 && c as u32 <= 57
}

/// The value of a text of decimal digits.
pub open spec fn digits_value(s: Seq<char>) -> nat
    decreases s.len(),
{
    if s.len() == 0 {
        0
    } else {
        digits_value(s.drop_last()) * 10 + (s.last() as u32 - 48) as nat
    }
}

/// The number that a text of decimal digits stands for, where it is at most `max`.
pub open spec fn number_in(s: Seq<char>, max: nat) -> Option<nat> {
    if s.len() > 0 && (forall|i: int| 0 <= i < s.len() ==> is_digit(#[trigger] s[i]))
        && digits_value(s) <= max {
        Some(digits_value(s))
    } else {
        None
    }
}

pub fn number_of(s: &str, max: u64) -> (r: Option<u64>)
    ensures
        match r {
            Some(n) => number_in(s@, max as nat) == Some(n as nat),
            None => number_in(s@, max as nat) is None,
        },
{
    let v = chars_of(s);
    if v.len() == 0 {
        return None;
    }
    let mut n: u128 = 0;
    let mut i: usize = 0;
    let mut over = false;
    while i < v.len()
        invariant
            i <= v@.len(),
            v@ == s@,
            forall|k: int| 0 <= k < i ==> is_digit(#[trigger] v@[k]),
            !over ==> n == digits_value(v@.take(i as int)) && n <= max,
            over ==> digits_value(v@.take(i as int)) > max,
        decreases v@.len() - i,
    {
        let c = v[i] as u32;
        if c < 48 || c > 57 {
            assert(!is_digit(s@[i as int]));
            return None;
        }
        assert(v@.take(i + 1).drop_last() =~= v@.take(i as int));
        if !over {
            n = n * 10 + (c - 48) as u128;
            if n > max as u128 {
                over = true;
            }
        }
        i += 1;
    }
    assert(v@.take(i as int) =~= v@);
    if over {
        None
    } else {
        Some(n as u64)
    }
}

// ───────────────────────────── columns ─────────────────────────────

/// The blanks that bring a text to `width` characters.
pub open spec fn blanks(s: Seq<char>, width: nat) -> Seq<char> {
    Seq::new(
        if s.len() < width {
            (width - s.len()) as nat
        } else {
            0
        },
        |i: int| ' ',
    )
}

/// A text at the left of a column. A longer one is not cut.
pub open spec fn pad_right(s: Seq<char>, width: nat) -> Seq<char> {
    s + blanks(s, width)
}

/// A text at the right of a column. A longer one is not cut.
pub open spec fn pad_left(s: Seq<char>, width: nat) -> Seq<char> {
    blanks(s, width) + s
}

fn blanks_of(s: &str, width: usize) -> (r: String)
    ensures
        r@ == blanks(s@, width as nat),
{
    let n: usize = s.unicode_len();
    let mut r = String::new();
    let mut i: usize = n;
    while i < width
        invariant
            n == s@.len(),
            n <= i,
            i <= width || i == n,
            r@ == blanks(s@, i as nat),
        decreases width - i,
    {
        r.push(' ');
        i += 1;
        assert(r@ =~= blanks(s@, i as nat));
    }
    assert(r@ =~= blanks(s@, width as nat));
    r
}

pub fn padded_right(s: &str, width: usize) -> (r: String)
    ensures
        r@ == pad_right(s@, width as nat),
{
    let mut r = s.to_owned();
    r.append(blanks_of(s, width).as_str());
    r
}

pub fn padded_left(s: &str, width: usize) -> (r: String)
    ensures
        r@ == pad_left(s@, width as nat),
{
    let mut r = blanks_of(s, width);
    r.append(s);
    r
}

} // verus!
