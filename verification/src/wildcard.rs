//! Glob-ish matcher used by permission rules: `*` stands for any text, `?` for
//! any character, and a trailing `" *"` is optional (so `git *` also matches
//! bare `git`). A pattern is matched as a regular expression.

use crate::text::{replace_char, same, with_char_replaced};
use vstd::prelude::*;

verus! {

// ───────────────────────────── what a pattern means ─────────────────────────────

/// A piece of a pattern.
pub enum Piece {
    /// this character
    Lit(char),
    /// any one character
    One,
    /// any text
    Star,
}

/// Whether the pieces, one after the other, make up the whole of `t`.
pub open spec fn accepts(p: Seq<Piece>, t: Seq<char>) -> bool
    decreases p.len(), t.len(),
{
    if p.len() == 0 {
        t.len() == 0
    } else {
        match p[0] {
            Piece::Lit(c) => t.len() > 0 && t[0] == c && accepts(p.skip(1), t.skip(1)),
            Piece::One => t.len() > 0 && accepts(p.skip(1), t.skip(1)),
            Piece::Star => accepts(p.skip(1), t) || (t.len() > 0 && accepts(p, t.skip(1))),
        }
    }
}

/// As `accepts`, where `tail` adds an optional space and anything behind it.
pub open spec fn accepts_with(p: Seq<Piece>, tail: bool, t: Seq<char>) -> bool {
    accepts(p, t) || (tail && accepts(p + seq![Piece::Lit(' '), Piece::Star], t))
}

pub open spec fn piece(c: char) -> Piece {
    if c == '*' {
        Piece::Star
    } else if c == '?' {
        Piece::One
    } else {
        Piece::Lit(c)
    }
}

pub open spec fn pieces_of(s: Seq<char>) -> Seq<Piece> {
    Seq::new(s.len(), |i: int| piece(s[i]))
}

/// Backslashes count as slashes, in patterns and in what they are matched with.
pub open spec fn slashed(s: Seq<char>) -> Seq<char> {
    replace_char(s, '\\', seq!['/'])
}

/// Whether a pattern ends in a space and a star.
pub open spec fn open_ended(s: Seq<char>) -> bool {
    s.len() >= 2 && s[s.len() - 2] == ' ' && s[s.len() - 1] == '*'
}

/// Whether `pattern` matches `input`.
pub open spec fn glob(input: Seq<char>, pattern: Seq<char>) -> bool {
    let s = slashed(pattern);
    if open_ended(s) {
        accepts_with(pieces_of(s.take(s.len() - 2)), true, slashed(input))
    } else {
        accepts(pieces_of(s), slashed(input))
    }
}

// ───────────────────────────── the regular expression ─────────────────────────────

/// Characters that a regular expression gives a meaning of their own.
pub open spec fn is_meta(c: char) -> bool {
    c == '\\' || c == '.' || c == '+' || c == '*' || c == '?' || c == '(' || c == ')' || c == '|'
        || c == '[' || c == ']' || c == '{' || c == '}' || c == '^' || c == '$'
}

pub open spec fn written_piece(p: Piece) -> Seq<char> {
    match p {
        Piece::Lit(c) => if is_meta(c) {
            seq!['\\', c]
        } else {
            seq![c]
        },
        Piece::One => seq!['.'],
        Piece::Star => seq!['.', '*'],
    }
}

pub open spec fn written_pieces(p: Seq<Piece>) -> Seq<char>
    decreases p.len(),
{
    if p.len() == 0 {
        Seq::empty()
    } else {
        written_pieces(p.drop_last()) + written_piece(p.last())
    }
}

/// The regular expression for the pieces, anchored at both ends, where a dot
/// also stands for a line feed.
pub open spec fn written(p: Seq<Piece>, tail: bool) -> Seq<char> {
    seq!['(', '?', 's', ')', '^'] + written_pieces(p) + (if tail {
        seq!['(', ' ', '.', '*', ')', '?']
    } else {
        Seq::empty()
    }) + seq!['$']
}

/// What the regular expression `source` says of `text`: nothing where it does
/// not build, otherwise whether it finds a match.
pub uninterp spec fn regex_verdict(source: Seq<char>, text: Seq<char>) -> Option<bool>;

/// `regex::Regex::new` on `source` and, where that builds, `Regex::is_match` on
/// `text`. Both go by their arguments alone. Of the regular expressions that
/// `written` gives it says what the syntax of the crate says: an escaped or
/// plain character stands for itself, a dot under the `s` flag for any
/// character, a starred dot for any text, a group with a question mark may be
/// left out, and the anchors tie the match to both ends. These are well formed,
/// so only the limit of ten mebibytes on the compiled program can keep one from
/// building; each character takes about a kibibyte of it at most, so those of up
/// to 4096 characters build.
#[verifier::external_body]
fn regex_test(source: &str, text: &str) -> (r: Option<bool>)
    ensures
        r == regex_verdict(source@, text@),
        forall|p: Seq<Piece>, tail: bool|
            source@ == #[trigger] written(p, tail) ==> (r matches Some(b) ==> b == accepts_with(
                p,
                tail,
                text@,
            )) && (source@.len() <= 4096 ==> r is Some),
{
    match regex::Regex::new(source) {
        Ok(re) => Some(re.is_match(text)),
        Err(_) => None,
    }
}

/// What `compile` writes for one character of a pattern.
fn write_char(out: &mut String, c: char)
    requires
        c != '\\',
    ensures
        final(out)@ == old(out)@ + written_piece(piece(c)),
{
    if c == '*' {
        out.push('.');
        out.push('*');
        assert(out@ =~= old(out)@ + seq!['.', '*']);
    } else if c == '?' {
        out.push('.');
        assert(out@ =~= old(out)@ + seq!['.']);
    } else if c == '.' || c == '+' || c == '^' || c == '$' || c == '{' || c == '}' || c == '('
        || c == ')' || c == '|' || c == '[' || c == ']' {
        out.push('\\');
        out.push(c);
        assert(out@ =~= old(out)@ + seq!['\\', c]);
    } else {
        out.push(c);
        assert(out@ =~= old(out)@ + seq![c]);
    }
}

/// The pieces and the optional tail that a pattern stands for.
pub open spec fn parsed(pattern: Seq<char>) -> (Seq<Piece>, bool) {
    let s = slashed(pattern);
    if open_ended(s) {
        (pieces_of(s.take(s.len() - 2)), true)
    } else {
        (pieces_of(s), false)
    }
}

proof fn lemma_slashed(s: Seq<char>)
    ensures
        slashed(s).len() == s.len(),
        forall|i: int|
            0 <= i < s.len() ==> #[trigger] slashed(s)[i] == (if s[i] == '\\' {
                '/'
            } else {
                s[i]
            }),
    decreases s.len(),
{
    if s.len() > 0 {
        lemma_slashed(s.drop_last());
    }
}

fn slash(s: &str) -> (r: String)
    ensures
        r@ == slashed(s@),
{
    proof {
        reveal_strlit("/");
        assert("/"@ =~= seq!['/']);
    }
    with_char_replaced(s, '\\', "/")
}

/// The regular expression for a pattern.
pub fn compile(pattern: &str) -> (source: String)
    ensures
        source@ == written(parsed(pattern@).0, parsed(pattern@).1),
{
    let normal = slash(pattern);
    let v = crate::text::chars_of(normal.as_str());
    proof {
        lemma_slashed(pattern@);
        reveal_strlit("(?s)^");
        reveal_strlit("( .*)?");
    }
    let tail = v.len() >= 2 && v[v.len() - 2] == ' ' && v[v.len() - 1] == '*';
    let n: usize = if tail {
        v.len() - 2
    } else {
        v.len()
    };
    let ghost s = v@.take(n as int);
    let mut out = "(?s)^".to_owned();
    let ghost head = out@;
    let mut i: usize = 0;
    assert(pieces_of(s).take(0) =~= Seq::empty());
    assert(head + Seq::<char>::empty() =~= head);
    while i < n
        invariant
            i <= n <= v@.len(),
            s == v@.take(n as int),
            v@ == slashed(pattern@),
            forall|j: int| 0 <= j < v@.len() ==> v@[j] != '\\',
            out@ == head + written_pieces(pieces_of(s).take(i as int)),
        decreases n - i,
    {
        let ghost p = pieces_of(s);
        assert(p.take(i + 1).drop_last() =~= p.take(i as int));
        assert(p.take(i + 1).last() == piece(v@[i as int]));
        let ghost was = out@;
        write_char(&mut out, v[i]);
        assert(out@ =~= head + written_pieces(p.take(i + 1)));
        i += 1;
    }
    assert(pieces_of(s).take(n as int) =~= pieces_of(s));
    if tail {
        out.append("( .*)?");
    } else {
        assert(s =~= v@);
    }
    out.push('$');
    assert(out@ =~= written(parsed(pattern@).0, parsed(pattern@).1));
    out
}

/// Whether `pattern` matches `input`. A pattern too large to compile matches the
/// empty text alone; none of up to 2000 characters is.
pub fn matches(input: &str, pattern: &str) -> (b: bool)
    ensures
        b == (match regex_verdict(
            written(parsed(pattern@).0, parsed(pattern@).1),
            slashed(input@),
        ) {
            Some(found) => found,
            None => input@.len() == 0,
        }),
        regex_verdict(written(parsed(pattern@).0, parsed(pattern@).1), slashed(input@)) is Some
            ==> b == glob(input@, pattern@),
        pattern@.len() <= 2000 ==> b == glob(input@, pattern@),
{
    let normal = slash(input);
    let source = compile(pattern);
    proof {
        lemma_slashed(input@);
        lemma_slashed(pattern@);
        lemma_written_len(parsed(pattern@).0);
        reveal_strlit("");
        assert(normal@.len() == 0 ==> normal@ =~= ""@);
    }
    match regex_test(source.as_str(), normal.as_str()) {
        Some(found) => found,
        None => same(normal.as_str(), ""),
    }
}

proof fn lemma_written_len(p: Seq<Piece>)
    ensures
        written_pieces(p).len() <= 2 * p.len(),
    decreases p.len(),
{
    if p.len() > 0 {
        lemma_written_len(p.drop_last());
    }
}

// ───────────────────────────── laws ─────────────────────────────

proof fn lemma_star_accepts(t: Seq<char>)
    ensures
        accepts(seq![Piece::Star], t),
    decreases t.len(),
{
    let p = seq![Piece::Star];
    assert(p.skip(1).len() == 0);
    reveal_with_fuel(accepts, 2);
    if t.len() > 0 {
        lemma_star_accepts(t.skip(1));
    }
}

/// A lone star matches everything.
pub proof fn star_matches_everything(input: Seq<char>)
    ensures
        glob(input, seq!['*']),
{
    lemma_slashed(seq!['*']);
    let s = slashed(seq!['*']);
    assert(pieces_of(s) =~= seq![Piece::Star]);
    lemma_star_accepts(slashed(input));
}

/// A text without wildcards.
pub open spec fn plain(s: Seq<char>) -> bool {
    forall|i: int| 0 <= i < s.len() ==> #[trigger] s[i] != '*' && s[i] != '?'
}

proof fn lemma_plain_accepts(s: Seq<char>, t: Seq<char>)
    requires
        plain(s),
    ensures
        accepts(pieces_of(s), t) <==> s == t,
    decreases s.len(),
{
    let p = pieces_of(s);
    if s.len() > 0 {
        assert(p.skip(1) =~= pieces_of(s.skip(1)));
        assert(p[0] == Piece::Lit(s[0]));
        if t.len() > 0 {
            lemma_plain_accepts(s.skip(1), t.skip(1));
            assert(s =~= seq![s[0]] + s.skip(1));
            assert(t =~= seq![t[0]] + t.skip(1));
        }
    } else {
        assert(t.len() == 0 ==> s =~= t);
    }
}

proof fn lemma_plain_slashed(s: Seq<char>)
    requires
        plain(s),
    ensures
        plain(slashed(s)),
{
    lemma_slashed(s);
}

/// A pattern without wildcards matches its own text alone, slashes and
/// backslashes taken for the same.
pub proof fn plain_pattern_matches_itself(input: Seq<char>, pattern: Seq<char>)
    requires
        plain(pattern),
    ensures
        glob(input, pattern) <==> slashed(input) == slashed(pattern),
{
    lemma_plain_slashed(pattern);
    lemma_plain_accepts(slashed(pattern), slashed(input));
}

proof fn lemma_plain_then(s: Seq<char>, rest: Seq<Piece>, t: Seq<char>)
    requires
        plain(s),
    ensures
        accepts(pieces_of(s) + rest, t) <==> t.len() >= s.len() && t.take(s.len() as int) == s
            && accepts(rest, t.skip(s.len() as int)),
    decreases s.len(),
{
    let p = pieces_of(s) + rest;
    if s.len() == 0 {
        assert(p =~= rest);
        assert(t.take(0) =~= s);
        assert(t.skip(0) =~= t);
    } else {
        assert(p.skip(1) =~= pieces_of(s.skip(1)) + rest);
        assert(p[0] == Piece::Lit(s[0]));
        if t.len() > 0 {
            lemma_plain_then(s.skip(1), rest, t.skip(1));
            if t.len() >= s.len() {
                assert(t.skip(1).skip(s.len() - 1) =~= t.skip(s.len() as int));
                assert(t.skip(1).take(s.len() - 1) =~= t.take(s.len() as int).skip(1));
                if t.take(s.len() as int) == s {
                    assert(t[0] == t.take(s.len() as int)[0]);
                }
                if t[0] == s[0] && t.skip(1).take(s.len() - 1) == s.skip(1) {
                    assert(t.take(s.len() as int) =~= seq![t[0]] + t.skip(1).take(s.len() - 1));
                    assert(s =~= seq![s[0]] + s.skip(1));
                }
            }
        }
    }
}

/// A plain text followed by a space and a star matches that text alone, and
/// that text followed by a space and anything.
pub proof fn trailing_star_is_optional(input: Seq<char>, command: Seq<char>)
    requires
        plain(command),
    ensures
        glob(input, command + seq![' ', '*']) <==> {
            let t = slashed(input);
            let c = slashed(command);
            t == c || (t.len() > c.len() && t.take(c.len() as int) == c && t[c.len() as int] == ' ')
        },
{
    let pattern = command + seq![' ', '*'];
    lemma_slashed(pattern);
    lemma_slashed(command);
    lemma_plain_slashed(command);
    let s = slashed(pattern);
    let c = slashed(command);
    let t = slashed(input);
    assert(open_ended(s));
    assert(s.take(s.len() - 2) =~= c);
    lemma_plain_accepts(c, t);
    let rest = seq![Piece::Lit(' '), Piece::Star];
    lemma_plain_then(c, rest, t);
    if t.len() >= c.len() {
        let r = t.skip(c.len() as int);
        if r.len() > 0 {
            lemma_star_accepts(r.skip(1));
            assert(rest.skip(1) =~= seq![Piece::Star]);
            assert(r[0] == t[c.len() as int]);
        }
    }
}

} // verus!
