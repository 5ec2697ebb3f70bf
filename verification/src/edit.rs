//! `edit` and `write` tools: what they read, what they write, and what they show
//! of it. Their caller reads and writes the files and asks for permission.

use crate::path::{shown, shown_path};
use crate::paths::{resolve_path, resolved};
use crate::task::ToolError;
use crate::text::{
    chars_of, contains, has_part, has_prefix, join, joined, lines, lines_of,
    replace_char, same, split, starts_with, text_of, texts, trim, trim_start, trimmed, white_run, with_char_replaced,
};
use vstd::prelude::*;

verus! {

// ───────────────────────────── byte order mark ─────────────────────────────

pub open spec fn has_bom(s: Seq<char>) -> bool {
    s.len() > 0 && s[0] == '\u{feff}'
}

pub open spec fn without_bom(s: Seq<char>) -> Seq<char> {
    if has_bom(s) {
        s.skip(1)
    } else {
        s
    }
}

/// `s` with a byte order mark in front where `bom` asks for it.
pub open spec fn with_bom(bom: bool, s: Seq<char>) -> Seq<char> {
    if bom {
        seq!['\u{feff}'] + s
    } else {
        s
    }
}

/// Whether a text starts with a byte order mark, and the text without it.
pub fn split_bom(s: &str) -> (r: (bool, String))
    ensures
        r.0 == has_bom(s@),
        r.1@ == without_bom(s@),
{
    let v = chars_of(s);
    if v.len() > 0 && v[0] == '\u{feff}' {
        (true, text_of(&v, 1, v.len()))
    } else {
        (false, s.to_owned())
    }
}

fn put_bom(bom: bool, s: &str) -> (r: String)
    ensures
        r@ == with_bom(bom, s@),
{
    let mut r = String::new();
    if bom {
        r.push('\u{feff}');
    }
    r.append(s);
    assert(r@ =~= with_bom(bom, s@));
    r
}

/// Splitting off the mark and putting it back gives the text again.
pub proof fn bom_roundtrip(s: Seq<char>)
    ensures
        with_bom(has_bom(s), without_bom(s)) == s,
{
    if has_bom(s) {
        assert(seq!['\u{feff}'] + s.skip(1) =~= s);
    }
}

// ───────────────────────────── line endings ─────────────────────────────

/// Every carriage return that stands right before a line feed dropped.
pub open spec fn normalized(s: Seq<char>) -> Seq<char>
    decreases s.len(),
{
    if s.len() == 0 {
        Seq::empty()
    } else if s.len() >= 2 && s.last() == '\n' && s[s.len() - 2] == '\r' {
        normalized(s.take(s.len() - 2)).push('\n')
    } else {
        normalized(s.drop_last()).push(s.last())
    }
}

pub fn normalize_line_endings(s: &str) -> (r: String)
    ensures
        r@ == normalized(s@),
{
    let v = chars_of(s);
    let mut out = String::new();
    let mut i: usize = 0;
    assert(v@.take(0) =~= Seq::empty());
    while i < v.len()
        invariant
            i <= v@.len(),
            out@ == normalized(v@.take(i as int)),
            i > 0 && i < v@.len() && v@[i as int] == '\n' ==> v@[i - 1] != '\r',
        decreases v@.len() - i,
    {
        if v[i] == '\r' && i < v.len() - 1 && v[i + 1] == '\n' {
            proof {
                let t = v@.take(i + 2);
                assert(t.last() == '\n' && t[t.len() - 2] == '\r');
                assert(t.take(t.len() - 2) =~= v@.take(i as int));
            }
            out.push('\n');
            i += 2;
        } else {
            proof {
                let t = v@.take(i + 1);
                assert(t.drop_last() =~= v@.take(i as int));
                if t.len() >= 2 {
                    assert(t[t.len() - 2] == v@[i - 1]);
                }
            }
            out.push(v[i]);
            i += 1;
        }
    }
    assert(v@.take(i as int) =~= v@);
    out
}

/// The line ending that a text uses: with a carriage return where it has one
/// anywhere before a line feed.
pub open spec fn line_ending(s: Seq<char>) -> Seq<char> {
    if contains(s, "\r\n"@) {
        "\r\n"@
    } else {
        "\n"@
    }
}

pub fn detect_line_ending(s: &str) -> (r: &'static str)
    ensures
        r@ == line_ending(s@),
{
    if has_part(s, "\r\n") {
        "\r\n"
    } else {
        "\n"
    }
}

/// A text with its line ends written as `ending`.
pub open spec fn with_ending(s: Seq<char>, ending: Seq<char>) -> Seq<char> {
    if ending == "\r\n"@ {
        replace_char(normalized(s), '\n', "\r\n"@)
    } else {
        normalized(s)
    }
}

pub fn to_line_ending(s: &str, ending: &str) -> (r: String)
    ensures
        r@ == with_ending(s@, ending@),
{
    let n = normalize_line_endings(s);
    if same(ending, "\r\n") {
        with_char_replaced(n.as_str(), '\n', "\r\n")
    } else {
        n
    }
}

/// No carriage return stands right before a line feed.
pub open spec fn is_normal(s: Seq<char>) -> bool {
    forall|i: int| 0 < i < s.len() && #[trigger] s[i] == '\n' ==> s[i - 1] != '\r'
}

/// A text whose lines end in line feeds alone stays as it is.
pub proof fn normal_text_is_kept(s: Seq<char>)
    requires
        is_normal(s),
    ensures
        normalized(s) == s,
    decreases s.len(),
{
    if s.len() > 0 {
        let d = s.drop_last();
        assert(is_normal(d)) by {
            assert forall|i: int| 0 < i < d.len() && #[trigger] d[i] == '\n' implies d[i - 1]
                != '\r' by {
                assert(s[i] == '\n');
            }
        }
        assert(s.len() >= 2 && s[s.len() - 1] == '\n' ==> s[s.len() - 2] != '\r');
        normal_text_is_kept(d);
        assert(d.push(s.last()) =~= s);
    } else {
        assert(normalized(s) =~= s);
    }
}

proof fn lemma_crlf_back(t: Seq<char>)
    ensures
        normalized(replace_char(t, '\n', seq!['\r', '\n'])) == t,
    decreases t.len(),
{
    let w = seq!['\r', '\n'];
    if t.len() > 0 {
        let d = t.drop_last();
        lemma_crlf_back(d);
        let r = replace_char(t, '\n', w);
        let q = replace_char(d, '\n', w);
        if t.last() == '\n' {
            assert(r.len() == q.len() + 2);
            assert(r.last() == '\n' && r[r.len() - 2] == '\r');
            assert(r.take(r.len() - 2) =~= q);
            assert(normalized(r) =~= d.push('\n'));
        } else {
            assert(r.drop_last() =~= q);
            assert(normalized(r) =~= d.push(t.last()));
        }
        assert(d.push(t.last()) =~= t);
    } else {
        assert(normalized(replace_char(t, '\n', w)) =~= t);
    }
}

/// Writing a text with carriage returns loses nothing of it.
pub proof fn line_endings_roundtrip(s: Seq<char>)
    ensures
        normalized(with_ending(s, "\r\n"@)) == normalized(s),
{
    reveal_strlit("\r\n");
    assert("\r\n"@ =~= seq!['\r', '\n']);
    lemma_crlf_back(normalized(s));
}

// ───────────────────────────── diffs ─────────────────────────────

/// Whether a line of a diff is one of the file's: added, removed or kept.
pub open spec fn is_content(l: Seq<char>) -> bool {
    &&& starts_with(l, "+"@) || starts_with(l, "-"@) || starts_with(l, " "@)
    &&& !starts_with(l, "---"@)
    &&& !starts_with(l, "+++"@)
}

/// How many blanks a text starts with.
pub open spec fn indent(s: Seq<char>) -> nat {
    (s.len() - trim_start(s).len()) as nat
}

/// The least indent of the file's lines in a diff, blank ones aside.
pub open spec fn least_indent(ls: Seq<Seq<char>>) -> Option<nat>
    decreases ls.len(),
{
    if ls.len() == 0 {
        None
    } else {
        let before = least_indent(ls.drop_last());
        let l = ls.last();
        if is_content(l) && trim(l.skip(1)).len() > 0 {
            let n = indent(l.skip(1));
            match before {
                Some(m) => Some(
                    if m <= n {
                        m
                    } else {
                        n
                    },
                ),
                None => Some(n),
            }
        } else {
            before
        }
    }
}

/// A line of a diff with `n` characters taken off behind its mark.
pub open spec fn outdented(l: Seq<char>, n: nat) -> Seq<char> {
    if is_content(l) {
        let rest = l.skip(1);
        l.take(1) + (if n <= rest.len() {
            rest.skip(n as int)
        } else {
            Seq::empty()
        })
    } else {
        l
    }
}

pub open spec fn trimmed_diff(diff: Seq<char>) -> Seq<char> {
    let ls = lines(diff);
    match least_indent(ls) {
        Some(n) if n > 0 => join(Seq::new(ls.len(), |i: int| outdented(ls[i], n)), "\n"@),
        _ => diff,
    }
}

fn is_content_line(l: &str) -> (b: bool)
    ensures
        b == is_content(l@),
        b ==> l@.len() >= 1,
{
    proof {
        reveal_strlit("+");
        reveal_strlit("-");
        reveal_strlit(" ");
    }
    (has_prefix(l, "+") || has_prefix(l, "-") || has_prefix(l, " ")) && !has_prefix(l, "---")
        && !has_prefix(l, "+++")
}

fn indent_of(v: &Vec<char>) -> (n: usize)
    ensures
        n == indent(v@),
{
    let k = white_run(v);
    proof {
        crate::text::lemma_trim_start_suffix(v@);
        assert(v@.skip(k as int).len() == v@.len() - k);
    }
    k
}

proof fn lemma_least_indent(ls: Seq<Seq<char>>, i: int)
    requires
        0 <= i < ls.len(),
        is_content(ls[i]),
        trim(ls[i].skip(1)).len() > 0,
    ensures
        least_indent(ls) matches Some(n) && n <= indent(ls[i].skip(1)),
    decreases ls.len(),
{
    if i < ls.len() - 1 {
        lemma_least_indent(ls.drop_last(), i);
    }
}

/// What is taken off a line of a diff is blank, and where it is less than the
/// common indentation the line is blank to its end.
pub proof fn only_indentation_is_trimmed(diff: Seq<char>, i: int)
    requires
        0 <= i < lines(diff).len(),
        is_content(lines(diff)[i]),
        least_indent(lines(diff)) is Some,
    ensures
        ({
            let l = lines(diff)[i];
            let n = least_indent(lines(diff))->0;
            forall|k: int| 1 <= k <= n && k < l.len() ==> crate::text::is_white(#[trigger] l[k])
        }),
{
    let ls = lines(diff);
    let l = ls[i];
    let rest = l.skip(1);
    let n = least_indent(ls)->0;
    reveal_strlit("+");
    reveal_strlit("-");
    reveal_strlit(" ");
    crate::text::lemma_trim_start_suffix(rest);
    if trim(rest).len() > 0 {
        lemma_least_indent(ls, i);
    } else {
        lemma_blank(rest);
    }
    assert forall|k: int| 1 <= k <= n && k < l.len() implies crate::text::is_white(
        #[trigger] l[k],
    ) by {
        assert(rest[k - 1] == l[k]);
    }
}

proof fn lemma_blank(s: Seq<char>)
    requires
        trim(s).len() == 0,
    ensures
        forall|k: int| 0 <= k < s.len() ==> crate::text::is_white(#[trigger] s[k]),
{
    crate::text::lemma_trim_start_suffix(s);
    let t = trim_start(s);
    lemma_blank_end(t);
    if t.len() > 0 {
        assert(crate::text::is_white(t[0]));
    }
}

proof fn lemma_blank_end(s: Seq<char>)
    requires
        crate::text::trim_end(s).len() == 0,
    ensures
        forall|k: int| 0 <= k < s.len() ==> crate::text::is_white(#[trigger] s[k]),
    decreases s.len(),
{
    if s.len() > 0 {
        let d = s.drop_last();
        lemma_blank_end(d);
        assert forall|k: int| 0 <= k < s.len() implies crate::text::is_white(#[trigger] s[k]) by {
            if k < d.len() {
                assert(d[k] == s[k]);
            }
        }
    }
}

pub(crate) proof fn lemma_split_whole(s: Seq<char>)
    ensures
        split(s, seq!['\n']).len() > 0,
        forall|i: int, k: int|
            0 <= i < split(s, seq!['\n']).len() && 0 <= k < split(s, seq!['\n'])[i].len()
                ==> #[trigger] split(s, seq!['\n'])[i][k] != '\n',
    decreases s.len(),
{
    let nl = seq!['\n'];
    if s.len() > 0 {
        lemma_split_whole(s.drop_last());
        let before = split(s.drop_last(), nl);
        let r = split(s, nl);
        assert(nl[0] == '\n');
        assert forall|i: int, k: int| 0 <= i < r.len() && 0 <= k < r[i].len() implies #[trigger] r[i][k]
            != '\n' by {
            if nl.contains(s.last()) {
                if i < before.len() {
                    assert(r[i] == before[i]);
                    assert(before[i][k] != '\n');
                }
            } else if i < before.len() - 1 {
                assert(r[i] == before[i]);
                assert(before[i][k] != '\n');
            } else if k < before.last().len() {
                assert(before[before.len() - 1][k] != '\n');
            }
        }
    }
}

/// Text without a line feed goes to the last piece.
pub(crate) proof fn lemma_split_more(s: Seq<char>, t: Seq<char>)
    requires
        forall|k: int| 0 <= k < t.len() ==> #[trigger] t[k] != '\n',
    ensures
        split(s + t, seq!['\n']) == split(s, seq!['\n']).drop_last().push(
            split(s, seq!['\n']).last() + t,
        ),
    decreases t.len(),
{
    let nl = seq!['\n'];
    let p = split(s, nl);
    lemma_split_whole(s);
    if t.len() == 0 {
        assert(s + t =~= s);
        assert(p.last() + t =~= p.last());
        assert(p =~= p.drop_last().push(p.last()));
    } else {
        let d = t.drop_last();
        assert forall|k: int| 0 <= k < d.len() implies #[trigger] d[k] != '\n' by {
            assert(t[k] == d[k]);
        }
        lemma_split_more(s, d);
        assert((s + t).drop_last() =~= s + d);
        assert((s + t).last() == t[t.len() - 1]);
        let before = split(s + d, nl);
        assert(before.drop_last() =~= p.drop_last());
        assert((p.last() + d).push(t.last()) =~= p.last() + t);
    }
}

/// Pieces without line feeds come back from the text that they were joined to.
pub(crate) proof fn lemma_split_joined(v: Seq<Seq<char>>)
    requires
        v.len() > 0,
        forall|i: int, k: int| 0 <= i < v.len() && 0 <= k < v[i].len() ==> #[trigger] v[i][k] != '\n',
    ensures
        split(join(v, seq!['\n']), seq!['\n']) == v,
    decreases v.len(),
{
    let nl = seq!['\n'];
    let last = v[v.len() - 1];
    assert forall|k: int| 0 <= k < last.len() implies #[trigger] last[k] != '\n' by {
        assert(v[v.len() - 1][k] != '\n');
    }
    if v.len() == 1 {
        let none = Seq::<char>::empty();
        lemma_split_more(none, last);
        assert(none + last =~= last);
        assert(split(none, nl) =~= seq![none]);
        assert(split(last, nl) =~= v);
    } else {
        let d = v.drop_last();
        assert forall|i: int, k: int| 0 <= i < d.len() && 0 <= k < d[i].len() implies #[trigger] d[i][k]
            != '\n' by {
            assert(v[i][k] != '\n');
        }
        lemma_split_joined(d);
        let head = join(d, nl) + nl;
        assert(head.drop_last() =~= join(d, nl));
        assert(nl[0] == '\n');
        assert(nl.contains(head.last()));
        assert(split(head, nl) =~= d.push(Seq::empty()));
        lemma_split_more(head, last);
        assert(Seq::<char>::empty() + last =~= last);
        assert(split(head + last, nl) =~= v);
    }
}

proof fn lemma_not_blank(s: Seq<char>)
    requires
        s.len() > 0,
        !crate::text::is_white(s[0]),
    ensures
        crate::text::trim_end(s).len() > 0,
    decreases s.len(),
{
    if crate::text::is_white(s.last()) {
        assert(s.len() > 1);
        lemma_not_blank(s.drop_last());
    }
}

/// Some line has the least indent.
proof fn lemma_least_indent_found(ls: Seq<Seq<char>>) -> (i: int)
    requires
        least_indent(ls) is Some,
    ensures
        0 <= i < ls.len(),
        is_content(ls[i]),
        trim(ls[i].skip(1)).len() > 0,
        least_indent(ls) == Some(indent(ls[i].skip(1))),
    decreases ls.len(),
{
    let d = ls.drop_last();
    let l = ls.last();
    if is_content(l) && trim(l.skip(1)).len() > 0 && least_indent(ls) == Some(indent(l.skip(1))) {
        ls.len() - 1
    } else {
        lemma_least_indent_found(d)
    }
}

/// Whether a line of a diff, without its indentation, would pass for the head of
/// the diff: its text repeats its mark twice.
pub open spec fn looks_like_head(l: Seq<char>) -> bool {
    let text = trim_start(l.skip(1));
    is_content(l) && ((l[0] == '-' && starts_with(text, "--"@)) || (l[0] == '+' && starts_with(
        text,
        "++"@,
    )))
}

/// Trimming a trimmed diff changes nothing, where no line's text repeats the
/// line's mark.
pub proof fn trimming_twice_is_once(diff: Seq<char>)
    requires
        forall|i: int| 0 <= i < lines(diff).len() ==> !looks_like_head(#[trigger] lines(diff)[i]),
    ensures
        trimmed_diff(trimmed_diff(diff)) == trimmed_diff(diff),
{
    let ls = lines(diff);
    let r = trimmed_diff(diff);
    match least_indent(ls) {
        Some(n) if n > 0 => {
            let nl = seq!['\n'];
            let out = Seq::new(ls.len(), |i: int| outdented(ls[i], n));
            let i = lemma_least_indent_found(ls);
            reveal_strlit("\n");
            assert("\n"@ =~= nl);
            let p = split(diff, nl);
            lemma_split_whole(diff);
            assert forall|j: int, k: int| 0 <= j < out.len() && 0 <= k < out[j].len() implies #[trigger] out[j][k]
                != '\n' by {
                lemma_outdented_from(ls[j], n, k);
                let x = choose|x: int| 0 <= x < ls[j].len() && ls[j][x] == out[j][k];
                assert(ls[j][x] == p[j][x]);
            }
            lemma_split_joined(out);
            assert(split(r, nl) == out);
            lemma_outdented_starts(ls[i], n);
            let l = lines(r)[i];
            assert(l == out[i] || l == out[i].drop_last()) by {
                if i == out.len() - 1 {
                    assert(out.last() == out[i]);
                }
            }
            assert(l[0] == out[i][0] && l[1] == out[i][1]);
            lemma_head(l, out[i], ls[i], n);
            lemma_least_indent(lines(r), i);
        },
        _ => {},
    }
}

proof fn lemma_outdented_from(l: Seq<char>, n: nat, k: int)
    requires
        0 <= k < outdented(l, n).len(),
    ensures
        exists|x: int| 0 <= x < l.len() && l[x] == outdented(l, n)[k],
{
    reveal_strlit("+");
    reveal_strlit("-");
    reveal_strlit(" ");
    let o = outdented(l, n);
    if is_content(l) {
        assert(l.len() >= 1);
        if k == 0 {
            assert(l[0] == o[k]);
        } else {
            assert(l[k + n] == o[k]);
        }
    } else {
        assert(l[k] == o[k]);
    }
}

/// A line with the least indent starts with its text, once it is trimmed.
proof fn lemma_outdented_starts(l: Seq<char>, n: nat)
    requires
        is_content(l),
        trim(l.skip(1)).len() > 0,
        n == indent(l.skip(1)),
    ensures
        l.len() >= 2,
        outdented(l, n) == l.take(1) + trim_start(l.skip(1)),
        trim_start(l.skip(1)).len() > 0,
        !crate::text::is_white(trim_start(l.skip(1))[0]),
{
    reveal_strlit("+");
    reveal_strlit("-");
    reveal_strlit(" ");
    crate::text::lemma_trim_start_suffix(l.skip(1));
}

/// Such a line is still one of the file's, and not indented.
proof fn lemma_head(l: Seq<char>, o: Seq<char>, before: Seq<char>, n: nat)
    requires
        is_content(before),
        !looks_like_head(before),
        trim(before.skip(1)).len() > 0,
        n == indent(before.skip(1)),
        o == outdented(before, n),
        l == o || (l == o.drop_last() && o.last() == '\r'),
    ensures
        is_content(l),
        trim(l.skip(1)).len() > 0,
        indent(l.skip(1)) == 0,
{
    let text = trim_start(before.skip(1));
    lemma_outdented_starts(before, n);
    reveal_strlit("+");
    reveal_strlit("-");
    reveal_strlit(" ");
    reveal_strlit("--");
    reveal_strlit("++");
    reveal_strlit("---");
    reveal_strlit("+++");
    assert(o[0] == before[0] && o[1] == text[0]);
    assert(o.len() >= 3 || o.last() == o[1]);
    assert(l.len() >= 2 && l[0] == o[0] && l[1] == o[1]);
    let rest = l.skip(1);
    assert(rest[0] == text[0]);
    lemma_not_blank(rest);
    assert(trim_start(rest) == rest);
    if starts_with(before, "+"@) {
        assert(before[0] == before.subrange(0, 1)[0]);
        assert(l.subrange(0, 1) =~= "+"@);
    } else if starts_with(before, "-"@) {
        assert(before[0] == before.subrange(0, 1)[0]);
        assert(l.subrange(0, 1) =~= "-"@);
    } else {
        assert(before[0] == before.subrange(0, 1)[0]);
        assert(l.subrange(0, 1) =~= " "@);
    }
    if starts_with(l, "---"@) {
        let h = l.subrange(0, 3);
        assert(h[0] == l[0] && h[1] == l[1] && h[2] == l[2]);
        assert(l[2] == text[1]);
        assert(text.subrange(0, 2) =~= "--"@);
    }
    if starts_with(l, "+++"@) {
        let h = l.subrange(0, 3);
        assert(h[0] == l[0] && h[1] == l[1] && h[2] == l[2]);
        assert(l[2] == text[1]);
        assert(text.subrange(0, 2) =~= "++"@);
    }
}

/// Unified diff with the common leading indentation stripped from content lines
/// so permission prompts stay narrow.
pub fn trim_diff(diff: &str) -> (r: String)
    ensures
        r@ == trimmed_diff(diff@),
{
    let ls = lines_of(diff);
    let ghost g = lines(diff@);
    let mut least: Option<usize> = None;
    let mut i: usize = 0;
    while i < ls.len()
        invariant
            i <= ls@.len(),
            texts(ls@) == g,
            least_indent(g.take(i as int)) == (match least {
                Some(n) => Some(n as nat),
                None => None,
            }),
        decreases ls@.len() - i,
    {
        let l = ls[i].as_str();
        assert(g[i as int] == l@);
        assert(g.take(i + 1).drop_last() =~= g.take(i as int));
        assert(g.take(i + 1).last() == l@);
        if is_content_line(l) {
            let v = chars_of(l);
            let rest = text_of(&v, 1, v.len());
            assert(rest@ =~= l@.skip(1));
            if !trimmed(rest.as_str()).as_str().is_empty() {
                let n = indent_of(&chars_of(rest.as_str()));
                least = match least {
                    Some(m) => if m <= n {
                        Some(m)
                    } else {
                        Some(n)
                    },
                    None => Some(n),
                };
            }
        }
        i += 1;
    }
    assert(g.take(i as int) =~= g);
    assert(g.len() == ls@.len());
    let n = match least {
        Some(n) => n,
        None => {
            return diff.to_owned();
        },
    };
    if n == 0 {
        return diff.to_owned();
    }
    let mut out: Vec<String> = Vec::new();
    let mut j: usize = 0;
    while j < ls.len()
        invariant
            j <= ls@.len(),
            texts(ls@) == g,
            out@.len() == j,
            forall|k: int| 0 <= k < j ==> (#[trigger] out@[k])@ == outdented(g[k], n as nat),
        decreases ls@.len() - j,
    {
        let l = ls[j].as_str();
        assert(g[j as int] == l@);
        if is_content_line(l) {
            let v = chars_of(l);
            let mut line = text_of(&v, 0, 1);
            if n <= v.len() - 1 {
                let tail = text_of(&v, n + 1, v.len());
                assert(tail@ =~= l@.skip(1).skip(n as int));
                line.append(tail.as_str());
            }
            assert(line@ =~= outdented(l@, n as nat));
            out.push(line);
        } else {
            out.push(l.to_owned());
        }
        j += 1;
    }
    assert(texts(out@) =~= Seq::new(g.len(), |k: int| outdented(g[k], n as nat)));
    joined(&out, "\n")
}

/// The unified diff of two texts under a path.
pub uninterp spec fn unified(path: Seq<char>, old: Seq<char>, new: Seq<char>) -> Seq<char>;

/// `similar::TextDiff::from_lines` and its `unified_diff` with three lines of
/// context, headed by the path on both sides: a function of the three texts. It
/// is empty where the texts are the same, since only changes open a hunk.
#[verifier::external_body]
pub fn unified_diff(path: &str, old_text: &str, new_text: &str) -> (r: String)
    ensures
        r@ == unified(path@, old_text@, new_text@),
        old_text@ == new_text@ ==> r@.len() == 0,
{
    let d = similar::TextDiff::from_lines(old_text, new_text);
    d.unified_diff().context_radius(3).header(path, path).to_string()
}

/// What became of a line.
#[derive(Debug, Clone, Copy, PartialEq, Eq, Structural)]
pub enum LineChange {
    Kept,
    Added,
    Removed,
}

/// The lines of a text, as a diff counts them: a line ends behind a line feed,
/// behind a carriage return that no line feed follows, or at the end.
pub open spec fn line_count(s: Seq<char>) -> nat
    decreases s.len(),
{
    if s.len() == 0 {
        0
    } else {
        let before = line_count(s.drop_last());
        let c = s.last();
        let fresh = s.len() == 1 || s[s.len() - 2] == '\n' || (s[s.len() - 2] == '\r' && c != '\n');
        if fresh {
            before + 1
        } else {
            before
        }
    }
}

pub open spec fn tally(v: Seq<LineChange>, what: LineChange) -> nat
    decreases v.len(),
{
    if v.len() == 0 {
        0
    } else {
        tally(v.drop_last(), what) + (if v.last() == what {
            1nat
        } else {
            0
        })
    }
}

/// What a diff of two texts makes of each line.
pub uninterp spec fn line_changes(old: Seq<char>, new: Seq<char>) -> Seq<LineChange>;

/// `similar::TextDiff::from_lines` and the tags of its `iter_all_changes`: a
/// function of the two texts. Every line of the old text is kept or removed,
/// every line of the new one kept or added. Which lines are kept is not spelled
/// out, but all are where the texts are the same.
#[verifier::external_body]
fn changes_of(old_text: &str, new_text: &str) -> (r: Vec<LineChange>)
    ensures
        r@ == line_changes(old_text@, new_text@),
        tally(r@, LineChange::Kept) + tally(r@, LineChange::Removed) == line_count(old_text@),
        tally(r@, LineChange::Kept) + tally(r@, LineChange::Added) == line_count(new_text@),
        old_text@ == new_text@ ==> tally(r@, LineChange::Added) == 0,
{
    let d = similar::TextDiff::from_lines(old_text, new_text);
    d.iter_all_changes()
        .map(|c| match c.tag() {
            similar::ChangeTag::Equal => LineChange::Kept,
            similar::ChangeTag::Insert => LineChange::Added,
            similar::ChangeTag::Delete => LineChange::Removed,
        })
        .collect()
}

/// How many lines were added and removed.
pub fn count_changes(v: &Vec<LineChange>) -> (r: (u64, u64))
    ensures
        r.0 == tally(v@, LineChange::Added),
        r.1 == tally(v@, LineChange::Removed),
{
    let mut add: u64 = 0;
    let mut del: u64 = 0;
    let mut i: usize = 0;
    while i < v.len()
        invariant
            i <= v@.len(),
            add <= i,
            del <= i,
            add == tally(v@.take(i as int), LineChange::Added),
            del == tally(v@.take(i as int), LineChange::Removed),
        decreases v@.len() - i,
    {
        assert(v@.take(i + 1).drop_last() =~= v@.take(i as int));
        assert(v@.take(i + 1).last() == v@[i as int]);
        match v[i] {
            LineChange::Added => {
                add += 1;
            },
            LineChange::Removed => {
                del += 1;
            },
            LineChange::Kept => {},
        }
        i += 1;
    }
    assert(v@.take(i as int) =~= v@);
    (add, del)
}

/// How many lines a change adds and removes. What is added less what is removed
/// is what the text grows by, and an unchanged text has neither.
pub fn diff_stats(old_text: &str, new_text: &str) -> (r: (u64, u64))
    ensures
        r.0 == tally(line_changes(old_text@, new_text@), LineChange::Added),
        r.1 == tally(line_changes(old_text@, new_text@), LineChange::Removed),
        r.0 <= line_count(new_text@),
        r.1 <= line_count(old_text@),
        r.0 + line_count(old_text@) == r.1 + line_count(new_text@),
        old_text@ == new_text@ ==> r.0 == 0 && r.1 == 0,
{
    let v = changes_of(old_text, new_text);
    count_changes(&v)
}

/// The diff that a permission prompt shows.
pub open spec fn prompt_diff(path: Seq<char>, old: Seq<char>, new: Seq<char>) -> Seq<char> {
    trimmed_diff(unified(path, old, new))
}

fn diff_for_prompt(path: &str, old_text: &str, new_text: &str) -> (r: String)
    ensures
        r@ == prompt_diff(path@, old_text@, new_text@),
{
    let d = unified_diff(path, old_text, new_text);
    trim_diff(d.as_str())
}

// ───────────────────────────── edit ─────────────────────────────

#[derive(Debug)]
pub struct EditArgs {
    pub file_path: String,
    pub old_string: String,
    pub new_string: String,
    pub replace_all: bool,
}

/// A write that waits for permission.
pub struct WritePlan {
    /// the diff that is shown
    pub diff: String,
    /// what goes to disk
    pub out: String,
    /// the text before, without its mark
    pub before: String,
    /// the text after, without its mark
    pub after: String,
}

pub struct EditTool;

/// What the tool goes to work on.
pub struct EditTarget {
    pub path: String,
    /// the path as it is shown and asked for
    pub shown: String,
}

impl EditTool {
    pub fn id(&self) -> (s: &'static str)
        ensures
            s@ == "edit"@,
    {
        "edit"
    }

    /// The schema of its arguments, as JSON text.
    pub fn parameters(&self) -> (s: &'static str)
        ensures
            s@
                == "{\"type\":\"object\",\"properties\":{\"filePath\":{\"type\":\"string\",\"description\":\"Absolute path\"},\"oldString\":{\"type\":\"string\",\"description\":\"Exact text to find\"},\"newString\":{\"type\":\"string\",\"description\":\"Replacement\"},\"replaceAll\":{\"type\":\"boolean\",\"description\":\"Replace every match\"}},\"required\":[\"filePath\",\"oldString\",\"newString\"]}"@,
    {
        "{\"type\":\"object\",\"properties\":{\"filePath\":{\"type\":\"string\",\"description\":\"Absolute path\"},\"oldString\":{\"type\":\"string\",\"description\":\"Exact text to find\"},\"newString\":{\"type\":\"string\",\"description\":\"Replacement\"},\"replaceAll\":{\"type\":\"boolean\",\"description\":\"Replace every match\"}},\"required\":[\"filePath\",\"oldString\",\"newString\"]}"
    }

    /// Checks a call and settles the file that it is for. `identical` is what is
    /// said of a replacement that changes nothing.
    pub fn target(args: &EditArgs, home: &str, directory: &str, worktree: &str, identical: &str) -> (r: Result<
        EditTarget,
        ToolError,
    >)
        ensures
            match r {
                Err(ToolError::Invalid(why)) => {
                    ||| args.file_path@.len() == 0 && why@ == "filePath is required"@
                    ||| args.file_path@.len() > 0 && args.old_string@ == args.new_string@ && why@
                        == identical@
                },
                Ok(t) => args.file_path@.len() > 0 && args.old_string@ != args.new_string@
                    && t.path@ == resolved(args.file_path@, home@, directory@) && t.shown@ == shown(
                    resolved(args.file_path@, home@, directory@),
                    worktree@,
                ),
                Err(_) => false,
            },
    {
        if args.file_path.as_str().is_empty() {
            return Err(ToolError::Invalid("filePath is required".to_owned()));
        }
        if same(args.old_string.as_str(), args.new_string.as_str()) {
            return Err(ToolError::Invalid(identical.to_owned()));
        }
        let path = resolve_path(args.file_path.as_str(), home, directory);
        let shown = shown_path(path.as_str(), worktree);
        Ok(EditTarget { path, shown })
    }

    /// With nothing to replace, the call makes a new file; `exists` says whether
    /// there is one, and `taken` what is said then.
    pub fn create(args: &EditArgs, path: &str, exists: bool, taken: &str) -> (r: Result<WritePlan, ToolError>)
        requires
            args.old_string@.len() == 0,
        ensures
            match r {
                Err(ToolError::Invalid(why)) => exists && why@ == taken@,
                Ok(p) => !exists && p.before@.len() == 0 && p.after@ == without_bom(
                    args.new_string@,
                ) && p.out@ == args.new_string@ && p.diff@ == prompt_diff(
                    path@,
                    ""@,
                    without_bom(args.new_string@),
                ),
                Err(_) => false,
            },
    {
        if exists {
            return Err(ToolError::Invalid(taken.to_owned()));
        }
        let (bom, text) = split_bom(args.new_string.as_str());
        let diff = diff_for_prompt(path, "", text.as_str());
        let out = put_bom(bom, text.as_str());
        proof {
            bom_roundtrip(args.new_string@);
        }
        Ok(WritePlan { diff, out, before: String::new(), after: text })
    }

    /// Refuses what is no file. `is_dir` is none where there is nothing.
    pub fn check_file(path: &str, is_dir: Option<bool>) -> (r: Result<(), ToolError>)
        ensures
            match r {
                Ok(_) => is_dir == Some(false),
                Err(ToolError::Other(why)) => {
                    ||| is_dir is None && why@ == "File "@ + path@ + " not found"@
                    ||| is_dir == Some(true) && why@ == "Path is a directory, not a file: "@ + path@
                },
                Err(_) => false,
            },
    {
        match is_dir {
            None => {
                let mut s = "File ".to_owned();
                s.append(path);
                s.append(" not found");
                Err(ToolError::Other(s))
            },
            Some(true) => {
                let mut s = "Path is a directory, not a file: ".to_owned();
                s.append(path);
                Err(ToolError::Other(s))
            },
            Some(false) => Ok(()),
        }
    }

    /// The text to search, what to look for and what to put there: both in the
    /// line endings of the file.
    pub fn search(args: &EditArgs, raw: &str) -> (r: (String, String, String))
        ensures
            r.0@ == without_bom(raw@),
            r.1@ == with_ending(args.old_string@, line_ending(without_bom(raw@))),
            r.2@ == with_ending(args.new_string@, line_ending(without_bom(raw@))),
    {
        let (_, source) = split_bom(raw);
        let ending = detect_line_ending(source.as_str());
        let old_text = to_line_ending(args.old_string.as_str(), ending);
        let new_text = to_line_ending(args.new_string.as_str(), ending);
        (source, old_text, new_text)
    }

    /// What to write, from the file as it is and its text with the replacement
    /// made. A mark that either has is kept.
    pub fn replace(path: &str, raw: &str, replaced: &str) -> (p: WritePlan)
        ensures
            p.before@ == without_bom(raw@),
            p.after@ == without_bom(replaced@),
            p.out@ == with_bom(has_bom(raw@) || has_bom(replaced@), without_bom(replaced@)),
            p.diff@ == prompt_diff(
                path@,
                normalized(without_bom(raw@)),
                normalized(without_bom(replaced@)),
            ),
    {
        let (had_bom, source) = split_bom(raw);
        let (new_bom, next) = split_bom(replaced);
        let a = normalize_line_endings(source.as_str());
        let b = normalize_line_endings(next.as_str());
        let diff = diff_for_prompt(path, a.as_str(), b.as_str());
        let out = put_bom(had_bom || new_bom, next.as_str());
        WritePlan { diff, out, before: source, after: next }
    }

    /// The diff of an edit after the file was formatted.
    pub fn final_diff(path: &str, before: &str, formatted: &str) -> (r: String)
        ensures
            r@ == prompt_diff(path@, normalized(before@), normalized(formatted@)),
    {
        let a = normalize_line_endings(before);
        let b = normalize_line_endings(formatted);
        diff_for_prompt(path, a.as_str(), b.as_str())
    }

    /// What an edit comes to once the file was written. `formatted` is what a
    /// formatter made of it, if one ran; the diff of a change is drawn up again,
    /// that of a new file stays.
    pub fn finish(args: &EditArgs, path: &str, plan: WritePlan, formatted: Option<String>) -> (p: WritePlan)
        ensures
            p.before == plan.before,
            p.out == plan.out,
            p.after@ == (match formatted {
                Some(f) => f@,
                None => plan.after@,
            }),
            p.diff@ == (if args.old_string@.len() == 0 {
                plan.diff@
            } else {
                prompt_diff(path@, normalized(plan.before@), normalized(p.after@))
            }),
    {
        let after = match formatted {
            Some(f) => f,
            None => plan.after,
        };
        let diff = if args.old_string.as_str().is_empty() {
            plan.diff
        } else {
            Self::final_diff(path, plan.before.as_str(), after.as_str())
        };
        WritePlan { diff, out: plan.out, before: plan.before, after }
    }
}

// ───────────────────────────── write ─────────────────────────────

#[derive(Debug)]
pub struct WriteArgs {
    pub file_path: String,
    pub content: String,
}

pub struct WriteTool;

impl WriteTool {
    pub fn id(&self) -> (s: &'static str)
        ensures
            s@ == "write"@,
    {
        "write"
    }

    /// The schema of its arguments, as JSON text.
    pub fn parameters(&self) -> (s: &'static str)
        ensures
            s@
                == "{\"type\":\"object\",\"properties\":{\"filePath\":{\"type\":\"string\",\"description\":\"Absolute path\"},\"content\":{\"type\":\"string\",\"description\":\"Full file content\"}},\"required\":[\"filePath\",\"content\"]}"@,
    {
        "{\"type\":\"object\",\"properties\":{\"filePath\":{\"type\":\"string\",\"description\":\"Absolute path\"},\"content\":{\"type\":\"string\",\"description\":\"Full file content\"}},\"required\":[\"filePath\",\"content\"]}"
    }

    pub fn target(args: &WriteArgs, home: &str, directory: &str, worktree: &str) -> (t: EditTarget)
        ensures
            t.path@ == resolved(args.file_path@, home@, directory@),
            t.shown@ == shown(resolved(args.file_path@, home@, directory@), worktree@),
    {
        let path = resolve_path(args.file_path.as_str(), home, directory);
        let shown = shown_path(path.as_str(), worktree);
        EditTarget { path, shown }
    }

    /// What to write over `raw`, which is empty where there is no file yet. A
    /// mark that either has is kept.
    pub fn plan(args: &WriteArgs, path: &str, raw: &str) -> (p: WritePlan)
        ensures
            p.before@ == without_bom(raw@),
            p.after@ == without_bom(args.content@),
            p.out@ == with_bom(has_bom(raw@) || has_bom(args.content@), without_bom(args.content@)),
            p.diff@ == prompt_diff(path@, without_bom(raw@), without_bom(args.content@)),
    {
        let (had_bom, before) = split_bom(raw);
        let (new_bom, after) = split_bom(args.content.as_str());
        let diff = diff_for_prompt(path, before.as_str(), after.as_str());
        let out = put_bom(had_bom || new_bom, after.as_str());
        WritePlan { diff, out, before, after }
    }

    /// What a write comes to once the file was written. `formatted` is what a
    /// formatter made of it, if one ran.
    pub fn finish(plan: WritePlan, formatted: Option<String>) -> (p: WritePlan)
        ensures
            p.before == plan.before,
            p.out == plan.out,
            p.diff == plan.diff,
            p.after@ == (match formatted {
                Some(f) => f@,
                None => plan.after@,
            }),
    {
        let after = match formatted {
            Some(f) => f,
            None => plan.after,
        };
        WritePlan { diff: plan.diff, out: plan.out, before: plan.before, after }
    }
}

// ───────────────────────────── after the write ─────────────────────────────

/// What a write tells: the file's title, what the model is told, and of the file
/// the diff and the counts of lines.
pub struct WriteReport {
    pub title: String,
    pub output: String,
    pub file: String,
    pub diff: String,
    pub additions: u64,
    pub deletions: u64,
}

/// What is told of a write. `diagnostics` are the errors that the language
/// server found in the file afterwards, if any.
pub fn after_write(
    path: &str,
    worktree: &str,
    diff: &str,
    before: &str,
    after: &str,
    first_line: &str,
    diagnostics: &Option<String>,
) -> (r: WriteReport)
    ensures
        r.title@ == shown(path@, worktree@),
        r.output@ == first_line@ + (match *diagnostics {
            Some(block) => "\n\nLSP errors detected in this file, please fix:\n"@ + block@,
            None => Seq::empty(),
        }),
        r.file@ == path@,
        r.diff@ == diff@,
        r.additions == tally(line_changes(before@, after@), LineChange::Added),
        r.deletions == tally(line_changes(before@, after@), LineChange::Removed),
{
    let (additions, deletions) = diff_stats(before, after);
    let mut output = first_line.to_owned();
    if let Some(block) = diagnostics {
        output.append("\n\nLSP errors detected in this file, please fix:\n");
        output.append(block.as_str());
    }
    assert(output@ =~= first_line@ + (match *diagnostics {
        Some(block) => "\n\nLSP errors detected in this file, please fix:\n"@ + block@,
        None => Seq::empty(),
    }));
    WriteReport {
        title: shown_path(path, worktree),
        output,
        file: path.to_owned(),
        diff: diff.to_owned(),
        additions,
        deletions,
    }
}

} // verus!
