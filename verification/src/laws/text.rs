//! Texts, numbers and paths.

use crate::path::{counts, extension, file_name, joined_path, last_of, rooted, runs, spans};
use crate::paths::{expanded, resolved};
use crate::text::{
    after_last, ascii_lower, contains, decimal, digit, digits_value, ends_with, first_at, first_line, hex,
    hex_digit, is_digit, is_white, join, lines, number_in, occurs_at, pad_left, pad_right, replace_char, split,
    starts_with, strip_all_prefix, strip_all_suffix, strip_cr, trim, trim_end, trim_start,
};
use vstd::prelude::*;

verus! {

// ───────────────────────────── trimming ─────────────────────────────

proof fn lemma_trim_end(s: Seq<char>)
    ensures
        trim_end(s).len() <= s.len(),
        trim_end(s) == s.take(trim_end(s).len() as int),
        trim_end(s).len() == 0 || !is_white(trim_end(s).last()),
        forall|k: int| trim_end(s).len() <= k < s.len() ==> is_white(#[trigger] s[k]),
    decreases s.len(),
{
    if s.len() > 0 && is_white(s.last()) {
        let d = s.drop_last();
        lemma_trim_end(d);
        assert(d.take(trim_end(d).len() as int) =~= s.take(trim_end(s).len() as int));
        assert forall|k: int| trim_end(s).len() <= k < s.len() implies is_white(#[trigger] s[k]) by {
            if k < d.len() {
                assert(d[k] == s[k]);
            }
        }
    } else {
        assert(s.take(s.len() as int) =~= s);
    }
}

/// Trimming takes blanks off both ends, all of them, and nothing else.
pub proof fn trimming_takes_blanks_off(s: Seq<char>) -> (from: int)
    ensures
        0 <= from <= from + trim(s).len() <= s.len(),
        trim(s) == s.subrange(from, from + trim(s).len()),
        trim(s).len() > 0 ==> !is_white(trim(s)[0]) && !is_white(trim(s).last()),
        forall|k: int| 0 <= k < from || from + trim(s).len() <= k < s.len() ==> is_white(#[trigger] s[k]),
{
    let a = trim_start(s);
    let t = trim(s);
    crate::text::lemma_trim_start_suffix(s);
    lemma_trim_end(a);
    let from = s.len() - a.len();
    assert(t =~= s.subrange(from, from + t.len()));
    if t.len() > 0 {
        assert(t[0] == a[0]);
    }
    assert forall|k: int| 0 <= k < from || from + t.len() <= k < s.len() implies is_white(#[trigger] s[k]) by {
        if k >= from {
            assert(a[k - from] == s[k]);
        }
    }
    from
}

/// Repeated marks at an end are all taken off.
pub proof fn repeated_marks_are_taken_off(s: Seq<char>, p: Seq<char>)
    requires
        p.len() > 0,
    ensures
        !starts_with(strip_all_prefix(s, p), p) && !ends_with(strip_all_suffix(s, p), p),
        strip_all_prefix(p + s, p) == strip_all_prefix(s, p),
        strip_all_suffix(s + p, p) == strip_all_suffix(s, p),
        !starts_with(s, p) ==> strip_all_prefix(s, p) == s,
        !ends_with(s, p) ==> strip_all_suffix(s, p) == s,
    decreases s.len(),
{
    assert((p + s).subrange(0, p.len() as int) =~= p);
    assert((p + s).skip(p.len() as int) =~= s);
    assert((s + p).subrange(s.len() as int, (s + p).len() as int) =~= p);
    assert((s + p).take(s.len() as int) =~= s);
    if starts_with(s, p) {
        repeated_marks_are_taken_off(s.skip(p.len() as int), p);
    }
    if ends_with(s, p) {
        repeated_marks_are_taken_off(s.take(s.len() - p.len()), p);
    }
}

// ───────────────────────────── lines ─────────────────────────────

/// Lines that were joined come back, with or without a line feed at the end.
pub proof fn joined_lines_come_back(v: Seq<Seq<char>>)
    requires
        v.len() > 0,
        forall|i: int, k: int| 0 <= i < v.len() && 0 <= k < v[i].len() ==> #[trigger] v[i][k] != '\n',
        forall|i: int| 0 <= i < v.len() ==> (#[trigger] v[i]).len() == 0 || v[i].last() != '\r',
    ensures
        lines(join(v, seq!['\n']) + seq!['\n']) == v,
        v.last().len() > 0 ==> lines(join(v, seq!['\n'])) == v,
        first_line(join(v, seq!['\n']) + seq!['\n']) == v[0],
{
    let nl = seq!['\n'];
    let s = join(v, nl);
    crate::edit::lemma_split_joined(v);
    let p = split(s, nl);
    assert(p == v);
    if v.last().len() > 0 {
        let ended = Seq::new((p.len() - 1) as nat, |i: int| strip_cr(p[i]));
        assert(ended.push(p.last()) =~= v);
    }
    let t = s + nl;
    assert(t.drop_last() =~= s);
    assert(nl[0] == '\n');
    assert(nl.contains(t.last()));
    let q = split(t, nl);
    assert(q == v.push(Seq::empty()));
    let ended = Seq::new((q.len() - 1) as nat, |i: int| strip_cr(q[i]));
    assert(ended =~= v);
}

/// The piece behind the last mark.
pub proof fn last_pieces_are_last(a: Seq<char>, c: char, b: Seq<char>, seps: Seq<char>)
    requires
        seps.contains(c),
        forall|i: int| 0 <= i < b.len() ==> !seps.contains(#[trigger] b[i]),
    ensures
        after_last(a.push(c) + b, seps) == b,
        after_last(b, seps) == b,
    decreases b.len(),
{
    let s = a.push(c) + b;
    if b.len() == 0 {
        assert(s =~= a.push(c));
    } else {
        let d = b.drop_last();
        assert forall|i: int| 0 <= i < d.len() implies !seps.contains(#[trigger] d[i]) by {
            assert(b[i] == d[i]);
        }
        last_pieces_are_last(a, c, d, seps);
        assert(s.drop_last() =~= a.push(c) + d);
        assert(s.last() == b[b.len() - 1]);
        assert(d.push(b.last()) =~= b);
    }
}

/// A part is found where it first stands.
pub proof fn parts_are_found_first(s: Seq<char>, p: Seq<char>)
    requires
        p.len() > 0,
    ensures
        0 <= first_at(s, p) <= s.len(),
        contains(s, p) ==> occurs_at(s, p, first_at(s, p)),
        !contains(s, p) ==> first_at(s, p) == s.len(),
        forall|i: int| 0 <= i < first_at(s, p) ==> !occurs_at(s, p, i),
    decreases s.len(),
{
    if !occurs_at(s, p, 0) && s.len() > 0 {
        let t = s.skip(1);
        parts_are_found_first(t, p);
        assert forall|i: int| 1 <= i implies occurs_at(s, p, i) == occurs_at(t, p, i - 1) by {
            if i + p.len() <= s.len() {
                assert(s.subrange(i, i + p.len()) =~= t.subrange(i - 1, i - 1 + p.len()));
            }
        }
        if contains(s, p) {
            let i = choose|i: int| occurs_at(s, p, i);
            assert(occurs_at(t, p, i - 1));
        }
        if contains(t, p) {
            let i = choose|i: int| occurs_at(t, p, i);
            assert(occurs_at(s, p, i + 1));
        }
        assert forall|i: int| 0 <= i < first_at(s, p) implies !occurs_at(s, p, i) by {
            if i >= 1 {
                assert(!occurs_at(t, p, i - 1));
            }
        }
    } else if contains(s, p) && s.len() == 0 {
        let i = choose|i: int| occurs_at(s, p, i);
    }
}

/// Each character is replaced for itself.
pub proof fn characters_are_replaced(s: Seq<char>, t: Seq<char>, c: char, to: Seq<char>)
    ensures
        replace_char(s + t, c, to) == replace_char(s, c, to) + replace_char(t, c, to),
        replace_char(seq![c], c, to) == to,
        (forall|i: int| 0 <= i < t.len() ==> #[trigger] t[i] != c) ==> replace_char(t, c, to) == t,
    decreases t.len(),
{
    let one = seq![c];
    assert(one.drop_last() =~= Seq::empty());
    assert(replace_char(one.drop_last(), c, to) =~= Seq::empty());
    assert(one.last() == c);
    assert(replace_char(one, c, to) =~= to);
    if t.len() == 0 {
        assert(s + t =~= s);
        assert(replace_char(s, c, to) + replace_char(t, c, to) =~= replace_char(s, c, to));
        assert(replace_char(t, c, to) =~= t);
    } else {
        let d = t.drop_last();
        characters_are_replaced(s, d, c, to);
        assert((s + t).drop_last() =~= s + d);
        assert((s + t).last() == t.last());
        if t.last() == c {
            assert(replace_char(s, c, to) + replace_char(d, c, to) + to =~= replace_char(s, c, to) + (replace_char(d, c, to)
                + to));
        } else {
            assert((replace_char(s, c, to) + replace_char(d, c, to)).push(t.last()) =~= replace_char(s, c, to)
                + replace_char(d, c, to).push(t.last()));
        }
        if forall|i: int| 0 <= i < t.len() ==> #[trigger] t[i] != c {
            assert forall|i: int| 0 <= i < d.len() implies #[trigger] d[i] != c by {
                assert(t[i] == d[i]);
            }
            assert(t[t.len() - 1] != c);
            assert(d.push(t.last()) =~= t);
        }
    }
}

/// Lower case is for the letters of ASCII.
pub proof fn capitals_are_lowered(c: char)
    ensures
        'A' <= c <= 'Z' ==> 'a' <= ascii_lower(c) <= 'z' && ascii_lower(c) as int - 'a' as int == c as int - 'A' as int,
        !('A' <= c <= 'Z') ==> ascii_lower(c) == c,
        ascii_lower(ascii_lower(c)) == ascii_lower(c),
{
}

// ───────────────────────────── numbers ─────────────────────────────

/// A number that is written is read as itself.
pub proof fn numbers_are_read_back(n: nat, max: nat)
    requires
        n <= max,
    ensures
        number_in(decimal(n), max) == Some(n),
        n >= 10 ==> decimal(n)[0] != '0',
{
    lemma_decimal(n);
}

proof fn lemma_decimal(n: nat)
    ensures
        decimal(n).len() > 0,
        forall|i: int| 0 <= i < decimal(n).len() ==> is_digit(#[trigger] decimal(n)[i]),
        digits_value(decimal(n)) == n,
        n > 0 ==> decimal(n)[0] != '0',
    decreases n,
{
    let d = decimal(n);
    if n < 10 {
        assert(d.drop_last() =~= Seq::empty());
        assert(digits_value(d.drop_last()) == 0);
        assert(d.last() == digit(n));
    } else {
        lemma_decimal(n / 10);
        assert(d.drop_last() =~= decimal(n / 10));
        assert(d.last() == digit(n % 10));
        assert forall|i: int| 0 <= i < d.len() implies is_digit(#[trigger] d[i]) by {
            if i < d.len() - 1 {
                assert(d[i] == decimal(n / 10)[i]);
            }
        }
        assert(d[0] == decimal(n / 10)[0]);
    }
}

/// A hexadecimal digit is one of sixteen characters, in order.
pub proof fn hexadecimal_digits(d: nat)
    requires
        d < 16,
    ensures
        hex_digit(d) == "0123456789abcdef"@[d as int],
{
    reveal_strlit("0123456789abcdef");
    let all = "0123456789abcdef"@;
    assert(all[0] == '0' && all[1] == '1' && all[2] == '2' && all[3] == '3' && all[4] == '4' && all[5] == '5' && all[6] == '6'
        && all[7] == '7' && all[8] == '8' && all[9] == '9' && all[10] == 'a' && all[11] == 'b' && all[12] == 'c' && all[13]
        == 'd' && all[14] == 'e' && all[15] == 'f');
}

/// A number in hexadecimal has as many digits as were asked for, the lowest last.
pub proof fn hexadecimal_numbers(n: nat, width: nat)
    ensures
        hex(n, width).len() == width,
        width > 0 ==> hex(n, width).last() == hex_digit(n % 16) && hex(n, width).drop_last() == hex(
            n / 16,
            (width - 1) as nat,
        ),
    decreases width,
{
    if width > 0 {
        hexadecimal_numbers(n / 16, (width - 1) as nat);
        assert(hex(n, width).drop_last() =~= hex(n / 16, (width - 1) as nat));
    }
}

/// A column is as wide as was asked for, or as its text.
pub proof fn columns_are_filled_up(s: Seq<char>, width: nat, i: int)
    ensures
        pad_right(s, width).len() == (if s.len() < width {
            width
        } else {
            s.len()
        }),
        pad_left(s, width).len() == pad_right(s, width).len(),
        0 <= i < s.len() ==> pad_right(s, width)[i] == s[i] && pad_left(s, width)[pad_left(s, width).len() - s.len() + i]
            == s[i],
        s.len() <= i < width ==> pad_right(s, width)[i] == ' ',
        0 <= i < width - s.len() ==> pad_left(s, width)[i] == ' ',
{
}

// ───────────────────────────── paths ─────────────────────────────

proof fn lemma_last_run(s: Seq<char>, k: int, n: int)
    requires
        -1 <= k,
        k + 1 < n <= s.len(),
        k >= 0 ==> s[k] == '/',
        forall|i: int| k < i < n ==> s[i] != '/',
    ensures
        runs(s, n).len() > 0,
        runs(s, n).last() == (k + 1, n),
    decreases n,
{
    if n > k + 2 {
        lemma_last_run(s, k, n - 1);
        assert(s[n - 2] != '/');
    }
}

proof fn lemma_last_span(s: Seq<char>, k: int)
    requires
        -1 <= k,
        k + 1 < s.len(),
        k >= 0 ==> s[k] == '/',
        forall|i: int| k < i < s.len() ==> s[i] != '/',
        s.skip(k + 1) != seq!['.'],
    ensures
        spans(s).len() > 0,
        spans(s).last() == (k + 1, s.len() as int),
{
    let n = s.len() as int;
    lemma_last_run(s, k, n);
    let r = runs(s, n);
    let pred = |x: (int, int)| counts(s, x);
    assert(counts(s, r.last())) by {
        if n - (k + 1) == 1 && s[k + 1] == '.' {
            assert(s.skip(k + 1) =~= seq!['.']);
        }
    }
    reveal(Seq::filter);
    assert(r.filter(pred) == r.drop_last().filter(pred).push(r.last()));
}

/// The name of a file is what stands behind the last slash of its path.
pub proof fn file_names_are_last(dir: Seq<char>, name: Seq<char>)
    requires
        name.len() > 0,
        forall|i: int| 0 <= i < name.len() ==> #[trigger] name[i] != '/',
        name != seq!['.'],
        name != seq!['.', '.'],
    ensures
        file_name(dir.push('/') + name) == Some(name),
        file_name(name) == Some(name),
{
    let s = dir.push('/') + name;
    let k = dir.len() as int;
    assert(s[k] == '/');
    assert forall|i: int| k < i < s.len() implies s[i] != '/' by {
        assert(s[i] == name[i - k - 1]);
    }
    assert(s.skip(k + 1) =~= name);
    lemma_last_span(s, k);
    assert(s.subrange(k + 1, s.len() as int) =~= name);
    assert(name.skip(0) =~= name);
    lemma_last_span(name, -1);
    assert(name.subrange(0, name.len() as int) =~= name);
}

/// An extension is what stands behind the last dot of a file's name, unless that dot starts
/// it.
pub proof fn extensions_are_last(dir: Seq<char>, stem: Seq<char>, ext: Seq<char>)
    requires
        stem.len() > 0,
        ext.len() > 0,
        forall|i: int| 0 <= i < stem.len() ==> #[trigger] stem[i] != '/',
        forall|i: int| 0 <= i < ext.len() ==> #[trigger] ext[i] != '/' && ext[i] != '.',
    ensures
        extension(dir.push('/') + (stem.push('.') + ext)) == Some(ext),
        extension(stem.push('.') + ext) == Some(ext),
        extension(dir.push('/') + (seq!['.'] + ext)) is None,
{
    let name = stem.push('.') + ext;
    assert forall|i: int| 0 <= i < name.len() implies #[trigger] name[i] != '/' by {
        if i > stem.len() {
            assert(name[i] == ext[i - stem.len() - 1]);
        } else if i < stem.len() {
            assert(name[i] == stem[i]);
        }
    }
    assert(name.last() == ext.last());
    assert(ext[ext.len() - 1] != '.');
    assert(name.len() >= 3);
    file_names_are_last(dir, name);
    lemma_last_of(name, '.', stem.len() as int);
    assert(name.skip(stem.len() as int + 1) =~= ext);
    let dotted = seq!['.'] + ext;
    assert forall|i: int| 0 <= i < dotted.len() implies #[trigger] dotted[i] != '/' by {
        if i > 0 {
            assert(dotted[i] == ext[i - 1]);
        }
    }
    assert(dotted.last() == ext.last());
    assert(dotted != seq!['.', '.']) by {
        if dotted == seq!['.', '.'] {
            assert(dotted.last() == '.');
        }
    }
    assert(dotted != seq!['.']) by {
        assert(dotted.len() > 1);
    }
    file_names_are_last(dir, dotted);
    lemma_last_of(dotted, '.', 0);
}

proof fn lemma_last_of(s: Seq<char>, c: char, k: int)
    requires
        0 <= k < s.len(),
        s[k] == c,
        forall|i: int| k < i < s.len() ==> s[i] != c,
    ensures
        last_of(s, c) == k,
    decreases s.len(),
{
    if k < s.len() - 1 {
        let d = s.drop_last();
        assert(d[k] == c);
        assert forall|i: int| k < i < d.len() implies d[i] != c by {
            assert(s[i] == d[i]);
        }
        lemma_last_of(d, c, k);
    }
}

/// A path within another is written behind it, with one slash between; an absolute one
/// stands for itself.
pub proof fn paths_are_joined_by_a_slash(a: Seq<char>, b: Seq<char>)
    ensures
        b.len() > 0 && b[0] == '/' ==> joined_path(a, b) == b,
        !(b.len() > 0 && b[0] == '/') && a.len() == 0 ==> joined_path(a, b) == b,
        !(b.len() > 0 && b[0] == '/') && a.len() > 0 && a.last() == '/' ==> joined_path(a, b) == a + b,
        !(b.len() > 0 && b[0] == '/') && a.len() > 0 && a.last() != '/' ==> joined_path(a, b) == a + seq!['/'] + b,
{
    assert(a.push('/') =~= a + seq!['/']);
    assert(Seq::<char>::empty() + b =~= b);
    if a.len() == 0 {
        assert(a + b =~= b);
    }
}

/// A tilde or `$HOME` in front stands for the home directory, alone or before a slash; no
/// other path changes.
pub proof fn home_is_expanded(rest: Seq<char>, home: Seq<char>, p: Seq<char>)
    ensures
        expanded("~"@, home) == home,
        expanded("$HOME"@, home) == home,
        expanded("~/"@ + rest, home) == joined_path(home, rest),
        expanded("$HOME/"@ + rest, home) == joined_path(home, rest),
        !starts_with(p, "~"@) && !starts_with(p, "$HOME"@) ==> expanded(p, home) == p,
        resolved(p, home, rest) == joined_path(rest, expanded(p, home)),
{
    reveal_strlit("~");
    reveal_strlit("~/");
    reveal_strlit("$HOME");
    reveal_strlit("$HOME/");
    let a = "~/"@ + rest;
    let b = "$HOME/"@ + rest;
    assert("~/"@.len() == 2 && "$HOME/"@.len() == 6 && "~"@.len() == 1 && "$HOME"@.len() == 5);
    assert(a.subrange(0, 2) =~= "~/"@);
    assert(a.skip(2) =~= rest);
    assert(b.subrange(0, 6) =~= "$HOME/"@);
    assert(b.skip(6) =~= rest);
    assert(b.subrange(0, 2)[0] == '$' && "~/"@[0] == '~');
    assert("$HOME"@.subrange(0, 2)[0] == '$');
    assert(b != "~"@ && b != "$HOME"@) by {
        assert(b.len() >= 6);
    }
    assert("~"@ != "$HOME"@);
    if starts_with(p, "~/"@) {
        assert(p.subrange(0, 1) =~= "~"@) by {
            assert(p.subrange(0, 2)[0] == p[0]);
        }
    }
    if p == "~"@ {
        assert(p.subrange(0, 1) =~= p);
    }
    if p == "$HOME"@ {
        assert(p.subrange(0, 5) =~= p);
    }
    if starts_with(p, "$HOME/"@) {
        assert(p.subrange(0, 5) =~= "$HOME"@) by {
            assert(p.subrange(0, 6).subrange(0, 5) =~= p.subrange(0, 5));
            assert("$HOME/"@.subrange(0, 5) =~= "$HOME"@);
        }
    }
}

// ───────────────────────────── components ─────────────────────────────

/// The runs of a path do not look ahead.
proof fn lemma_runs_prefix(a: Seq<char>, s: Seq<char>, n: int)
    requires
        0 <= n <= a.len() <= s.len(),
        s.take(a.len() as int) == a,
    ensures
        runs(s, n) == runs(a, n),
    decreases n,
{
    if n > 0 {
        lemma_runs_prefix(a, s, n - 1);
        assert(s[n - 1] == s.take(a.len() as int)[n - 1]);
        if n > 1 {
            assert(s[n - 2] == s.take(a.len() as int)[n - 2]);
        }
    }
}

spec fn moved(r: Seq<(int, int)>, by: int) -> Seq<(int, int)> {
    Seq::new(r.len(), |i: int| (r[i].0 + by, r[i].1 + by))
}

proof fn lemma_runs_nonempty(s: Seq<char>, n: int)
    requires
        0 < n <= s.len(),
        s[n - 1] != '/',
    ensures
        runs(s, n).len() > 0,
    decreases n,
{
    if n > 1 && s[n - 2] != '/' {
        lemma_runs_nonempty(s, n - 1);
    }
}

/// Behind a slash the runs start anew.
proof fn lemma_runs_behind(a: Seq<char>, b: Seq<char>, j: int)
    requires
        0 <= j <= b.len(),
    ensures
        runs(a.push('/') + b, a.len() + 1 + j) == runs(a, a.len() as int) + moved(runs(b, j), a.len() as int + 1),
    decreases j,
{
    let s = a.push('/') + b;
    let n = a.len() as int;
    let m = n + 1 + j;
    if j == 0 {
        assert(s[n] == '/');
        assert(s.take(n) =~= a);
        lemma_runs_prefix(a, s, n);
        assert(moved(runs(b, 0), n + 1) =~= Seq::empty());
        assert(runs(s, n + 1) == runs(s, n));
        assert(runs(a, n) + Seq::<(int, int)>::empty() =~= runs(a, n));
    } else {
        lemma_runs_behind(a, b, j - 1);
        let before = runs(s, m - 1);
        let old = runs(a, n);
        let own = runs(b, j - 1);
        assert(s[m - 1] == b[j - 1]);
        assert(m >= 2);
        if b[j - 1] != '/' {
            if j == 1 {
                assert(s[m - 2] == '/');
                assert(runs(b, 1) == own.push((0, 1)));
                assert(before.push((m - 1, m)) =~= old + moved(own.push((0, 1)), n + 1));
            } else {
                assert(s[m - 2] == b[j - 2]);
                if b[j - 2] == '/' {
                    assert(before.push((m - 1, m)) =~= old + moved(own.push((j - 1, j)), n + 1));
                } else {
                    lemma_runs_nonempty(b, j - 1);
                    let grown = own.drop_last().push((own.last().0, j));
                    assert(before.last() == (own.last().0 + n + 1, own.last().1 + n + 1));
                    assert(before.drop_last().push((before.last().0, m)) =~= old + moved(grown, n + 1));
                }
            }
        }
    }
}

proof fn lemma_filter_add(a: Seq<(int, int)>, b: Seq<(int, int)>, pred: spec_fn((int, int)) -> bool)
    ensures
        (a + b).filter(pred) == a.filter(pred) + b.filter(pred),
    decreases b.len(),
{
    reveal(Seq::filter);
    if b.len() == 0 {
        assert(a + b =~= a);
        assert(a.filter(pred) + b.filter(pred) =~= a.filter(pred));
    } else {
        let d = b.drop_last();
        lemma_filter_add(a, d, pred);
        assert((a + b).drop_last() =~= a + d);
        assert((a + b).last() == b.last());
        assert((a + b).filter(pred) =~= a.filter(pred) + b.filter(pred));
    }
}

proof fn lemma_runs_bounds(s: Seq<char>, n: int)
    requires
        0 <= n <= s.len(),
    ensures
        forall|i: int| 0 <= i < runs(s, n).len() ==> 0 <= (#[trigger] runs(s, n)[i]).0 < runs(s, n)[i].1 <= n,
    decreases n,
{
    if n > 0 {
        lemma_runs_bounds(s, n - 1);
        let before = runs(s, n - 1);
        if n > 1 && s[n - 1] != '/' && s[n - 2] != '/' {
            lemma_runs_nonempty(s, n - 1);
            assert(0 <= before[before.len() - 1].0 < n - 1);
        }
        assert forall|i: int| 0 <= i < runs(s, n).len() implies 0 <= (#[trigger] runs(s, n)[i]).0 < runs(s, n)[i].1
            <= n by {
            if i < before.len() {
                assert(0 <= before[i].0 < before[i].1 <= n - 1);
            }
        }
    }
}

proof fn lemma_kept_alike(a: Seq<char>, s: Seq<char>, r: Seq<(int, int)>)
    requires
        a.len() <= s.len(),
        s.take(a.len() as int) == a,
        forall|i: int| 0 <= i < r.len() ==> 0 <= (#[trigger] r[i]).0 < r[i].1 <= a.len(),
    ensures
        r.filter(|x: (int, int)| counts(s, x)) == r.filter(|x: (int, int)| counts(a, x)),
    decreases r.len(),
{
    reveal(Seq::filter);
    if r.len() > 0 {
        let d = r.drop_last();
        assert forall|i: int| 0 <= i < d.len() implies 0 <= (#[trigger] d[i]).0 < d[i].1 <= a.len() by {
            assert(r[i] == d[i]);
        }
        lemma_kept_alike(a, s, d);
        let x = r[r.len() - 1];
        assert(s[x.0] == s.take(a.len() as int)[x.0]);
    }
}

proof fn lemma_kept_moved(b: Seq<char>, s: Seq<char>, r: Seq<(int, int)>, by: int)
    requires
        by > 0,
        s.len() == by + b.len(),
        forall|i: int| 0 <= i < b.len() ==> s[by + i] == #[trigger] b[i],
        b.len() > 0 && b[0] != '.',
        forall|i: int| 0 <= i < r.len() ==> 0 <= (#[trigger] r[i]).0 < r[i].1 <= b.len(),
    ensures
        moved(r, by).filter(|x: (int, int)| counts(s, x)) == moved(r.filter(|x: (int, int)| counts(b, x)), by),
    decreases r.len(),
{
    reveal(Seq::filter);
    let ps = |x: (int, int)| counts(s, x);
    let pb = |x: (int, int)| counts(b, x);
    if r.len() == 0 {
        assert(moved(r, by).filter(ps) =~= moved(r.filter(pb), by));
    } else {
        let d = r.drop_last();
        assert forall|i: int| 0 <= i < d.len() implies 0 <= (#[trigger] d[i]).0 < d[i].1 <= b.len() by {
            assert(r[i] == d[i]);
        }
        lemma_kept_moved(b, s, d, by);
        let x = r[r.len() - 1];
        let y = (x.0 + by, x.1 + by);
        assert(moved(r, by).drop_last() =~= moved(d, by));
        assert(moved(r, by).last() == y);
        assert(s[by + x.0] == b[x.0]);
        assert(ps(y) == pb(x));
        if pb(x) {
            assert(moved(d.filter(pb), by).push(y) =~= moved(d.filter(pb).push(x), by));
        }
    }
}

/// The parts of a path that was joined are the parts of both, so it lies below the first.
pub proof fn joined_paths_lie_below(a: Seq<char>, b: Seq<char>)
    requires
        a.len() > 0,
        a.last() != '/',
        b.len() > 0,
        b[0] != '/',
        b[0] != '.',
    ensures
        crate::path::components(joined_path(a, b)) == crate::path::components(a) + crate::path::components(b),
        crate::path::under(joined_path(a, b), a),
{
    let s = a.push('/') + b;
    let n = a.len() as int;
    let by = n + 1;
    let k = b.len() as int;
    assert(joined_path(a, b) == s);
    lemma_runs_behind(a, b, k);
    let ra = runs(a, n);
    let rb = runs(b, k);
    let ps = |x: (int, int)| counts(s, x);
    lemma_filter_add(ra, moved(rb, by), ps);
    assert(s.take(n) =~= a);
    lemma_runs_bounds(a, n);
    lemma_runs_bounds(b, k);
    lemma_kept_alike(a, s, ra);
    assert forall|i: int| 0 <= i < b.len() implies s[by + i] == #[trigger] b[i] by {}
    lemma_kept_moved(b, s, rb, by);
    let sa = spans(a);
    let sb = spans(b);
    let ss = spans(s);
    assert(ss == sa + moved(sb, by));
    crate::path::lemma_spans(a);
    crate::path::lemma_spans(b);
    let ca = crate::path::components(a);
    let cb = crate::path::components(b);
    let cs = crate::path::components(s);
    assert(s[0] == a[0]);
    let h = if rooted(a) {
        1int
    } else {
        0int
    };
    assert(cs.len() == h + ss.len() && ca.len() == h + sa.len() && cb.len() == sb.len());
    assert forall|i: int| 0 <= i < cs.len() implies cs[i] == (ca + cb)[i] by {
        if h <= i < ca.len() {
            let x = sa[i - h];
            assert(ss[i - h] == x);
            assert(s.subrange(x.0, x.1) =~= a.subrange(x.0, x.1));
        } else if i >= ca.len() {
            let x = sb[i - ca.len()];
            assert(ss[i - h] == (x.0 + by, x.1 + by));
            assert(s.subrange(x.0 + by, x.1 + by) =~= b.subrange(x.0, x.1));
        }
    }
    assert(cs =~= ca + cb);
    assert(cs.take(ca.len() as int) =~= ca);
}

/// A text is cut to so many characters, from its first on.
pub proof fn texts_are_cut(s: Seq<char>, n: int)
    requires
        n >= 0,
    ensures
        crate::text::clip(s, n).len() == (if s.len() <= n {
            s.len() as int
        } else {
            n
        }),
        crate::text::clip(s, n) == s.take(crate::text::clip(s, n).len() as int),
{
    if s.len() <= n {
        assert(s.take(s.len() as int) =~= s);
    }
}

/// A carriage return before a line feed is no part of its line.
pub proof fn lines_lose_carriage_returns(l: Seq<char>)
    requires
        forall|k: int| 0 <= k < l.len() ==> #[trigger] l[k] != '\n',
    ensures
        lines(l.push('\r').push('\n')).len() == 1,
        lines(l.push('\r').push('\n'))[0] == l,
{
    let nl = seq!['\n'];
    let a = l.push('\r');
    let s = a.push('\n');
    let v = seq![a];
    assert forall|i: int, k: int| 0 <= i < v.len() && 0 <= k < v[i].len() implies #[trigger] v[i][k] != '\n' by {
        if k < l.len() {
            assert(a[k] == l[k]);
        }
    }
    crate::edit::lemma_split_joined(v);
    assert(join(v, nl) == a);
    assert(s.drop_last() =~= a);
    assert(nl[0] == '\n');
    assert(nl.contains(s.last()));
    let q = split(s, nl);
    assert(q == v.push(Seq::empty()));
    assert(strip_cr(q[0]) =~= l);
}

proof fn lemma_spans_joined(a: Seq<char>, b: Seq<char>)
    requires
        a.len() > 0,
        a.last() != '/',
        b.len() > 0,
        b[0] != '/',
        b[0] != '.',
    ensures
        spans(a.push('/') + b) == spans(a) + moved(spans(b), a.len() as int + 1),
{
    let s = a.push('/') + b;
    let n = a.len() as int;
    let by = n + 1;
    let k = b.len() as int;
    lemma_runs_behind(a, b, k);
    let ra = runs(a, n);
    let rb = runs(b, k);
    lemma_filter_add(ra, moved(rb, by), |x: (int, int)| counts(s, x));
    assert(s.take(n) =~= a);
    lemma_runs_bounds(a, n);
    lemma_runs_bounds(b, k);
    lemma_kept_alike(a, s, ra);
    assert forall|i: int| 0 <= i < b.len() implies s[by + i] == #[trigger] b[i] by {}
    lemma_kept_moved(b, s, rb, by);
}

proof fn lemma_span_to_end(a: Seq<char>)
    requires
        a.len() > 0,
        a.last() != '/',
        a.last() != '.',
    ensures
        spans(a).len() > 0,
        spans(a).last().1 == a.len(),
{
    let n = a.len() as int;
    let r = runs(a, n);
    lemma_runs_nonempty(a, n);
    lemma_runs_bounds(a, n);
    assert(r.last().1 == n);
    let x = r[r.len() - 1];
    assert(counts(a, x)) by {
        if x.1 - x.0 == 1 {
            assert(a[x.0] == a.last());
        }
    }
    let pred = |y: (int, int)| counts(a, y);
    reveal(Seq::filter);
    assert(r.filter(pred) == r.drop_last().filter(pred).push(r.last()));
}

proof fn lemma_one_run(b: Seq<char>, n: int)
    requires
        0 < n <= b.len(),
        forall|i: int| 0 <= i < b.len() ==> #[trigger] b[i] != '/',
    ensures
        runs(b, n) == seq![(0int, n)],
    decreases n,
{
    assert(b[n - 1] != '/');
    if n == 1 {
        assert(runs(b, 0) =~= Seq::empty());
        assert(runs(b, 1) =~= seq![(0int, 1int)]);
    } else {
        lemma_one_run(b, n - 1);
        assert(b[n - 2] != '/');
        assert(runs(b, n) =~= seq![(0int, n)]);
    }
}

/// A path within another is shown without it, and the folder of a file is what stands before its
/// name.
pub proof fn paths_are_shown_from_the_folder(a: Seq<char>, b: Seq<char>)
    requires
        a.len() > 0,
        a.last() != '/',
        a.last() != '.',
        b.len() > 0,
        b[0] != '/',
        b[0] != '.',
        b.last() != '/',
        b.last() != '.',
    ensures
        crate::path::shown(joined_path(a, b), a) == b,
        (forall|i: int| 0 <= i < b.len() ==> #[trigger] b[i] != '/') ==> crate::path::parent(joined_path(a, b)) == Some(a),
{
    let s = a.push('/') + b;
    let by = a.len() as int + 1;
    assert(joined_path(a, b) == s);
    joined_paths_lie_below(a, b);
    lemma_spans_joined(a, b);
    lemma_span_to_end(a);
    lemma_span_to_end(b);
    let sa = spans(a);
    let sb = spans(b);
    let ss = spans(s);
    assert(s[0] == a[0]);
    assert(ss.last() == (sb.last().0 + by, sb.last().1 + by));
    assert(ss.last().1 == s.len());
    lemma_first_span(b);
    assert(ss[sa.len() as int] == (sb[0].0 + by, sb[0].1 + by));
    assert(s.subrange(by, s.len() as int) =~= b);
    assert(crate::path::components(a).len() == sa.len() + (if rooted(a) {
        1int
    } else {
        0int
    }));
    assert(crate::path::shown(s, a) == b);
    if forall|i: int| 0 <= i < b.len() ==> #[trigger] b[i] != '/' {
        lemma_one_run(b, b.len() as int);
        let pred = |y: (int, int)| counts(b, y);
        let r = runs(b, b.len() as int);
        reveal(Seq::filter);
        assert(r.drop_last() =~= Seq::empty());
        assert(r.drop_last().filter(pred) =~= Seq::empty());
        assert(sb.len() <= 1);
        assert(ss[ss.len() - 2] == sa[sa.len() - 1]);
        assert(s.take(a.len() as int) =~= a);
    }
}

proof fn lemma_first_run(b: Seq<char>, n: int)
    requires
        0 < n <= b.len(),
        b[0] != '/',
    ensures
        runs(b, n).len() > 0,
        runs(b, n)[0].0 == 0,
    decreases n,
{
    if n > 1 {
        lemma_first_run(b, n - 1);
        if b[n - 1] != '/' && b[n - 2] != '/' {
            let before = runs(b, n - 1);
            if before.len() == 1 {
                assert(runs(b, n)[0].0 == before[0].0);
            } else {
                assert(runs(b, n)[0] == before[0]);
            }
        }
    } else {
        assert(runs(b, 0).len() == 0);
    }
}

proof fn lemma_filter_first(r: Seq<(int, int)>, pred: spec_fn((int, int)) -> bool)
    requires
        r.len() > 0,
        pred(r[0]),
    ensures
        r.filter(pred).len() > 0,
        r.filter(pred)[0] == r[0],
    decreases r.len(),
{
    reveal(Seq::filter);
    let d = r.drop_last();
    if d.len() > 0 {
        assert(d[0] == r[0]);
        lemma_filter_first(d, pred);
    } else {
        assert(d.filter(pred) =~= Seq::empty());
    }
}

proof fn lemma_first_span(b: Seq<char>)
    requires
        b.len() > 0,
        b[0] != '/',
        b[0] != '.',
    ensures
        spans(b).len() > 0,
        spans(b)[0].0 == 0,
{
    let n = b.len() as int;
    lemma_first_run(b, n);
    lemma_filter_first(runs(b, n), |y: (int, int)| counts(b, y));
}

} // verus!
