//! The settings that the library's decisions look at, and how a config file is
//! written.

use crate::text::{chars_of, text_of};
use vstd::prelude::*;

verus! {

#[derive(Debug)]
pub struct Config {
    /// compact a session by itself when its context is full
    pub compaction_auto: bool,
    /// tokens kept free for the reply
    pub compaction_reserved: Option<u64>,
    /// how long a session keeps the pool model that it was given
    pub sticky_minutes: Option<u64>,
    /// whether pool members fail over to one another
    pub fallback: Option<bool>,
    /// send the tools of an MCP server only where the request relates to it
    pub smart_mcp: Option<bool>,
    /// MCP servers whose tools are always sent
    pub smart_mcp_always: Option<Vec<String>>,
    pub project_map: Option<bool>,
    /// how long the project map may be
    pub project_map_chars: Option<usize>,
}

// ───────────────────────────── comments ─────────────────────────────

/// Where a string ends whose inside starts at `i`: behind its closing quote, or at
/// the end of the text.
pub open spec fn string_end(s: Seq<char>, i: int) -> int
    decreases s.len() - i,
{
    if i >= s.len() {
        s.len() as int
    } else if s[i] == '"' {
        i + 1
    } else if s[i] == '\\' && i + 2 <= s.len() {
        string_end(s, i + 2)
    } else {
        string_end(s, i + 1)
    }
}

/// Where the line ends that `i` stands in.
pub open spec fn line_end(s: Seq<char>, i: int) -> int
    decreases s.len() - i,
{
    if i >= s.len() {
        s.len() as int
    } else if s[i] == '\n' {
        i
    } else {
        line_end(s, i + 1)
    }
}

/// Behind the first `*/` from `i` on, where there is one.
pub open spec fn block_end(s: Seq<char>, i: int) -> Option<int>
    decreases s.len() - i,
{
    if i + 1 >= s.len() {
        None
    } else if s[i] == '*' && s[i + 1] == '/' {
        Some(i + 2)
    } else {
        block_end(s, i + 1)
    }
}

/// Where the piece of a text ends that starts at `i`, and what stands for it: a
/// string and any other character for themselves, a comment for a blank. A comment
/// that is never closed is none.
pub open spec fn piece_at(s: Seq<char>, i: int) -> (int, Seq<char>) {
    let slash = i + 1 < s.len() && s[i] == '/';
    if s[i] == '"' {
        (string_end(s, i + 1), s.subrange(i, string_end(s, i + 1)))
    } else if slash && s[i + 1] == '/' {
        (line_end(s, i + 2), seq![' '])
    } else if slash && s[i + 1] == '*' && block_end(s, i + 2) is Some {
        (block_end(s, i + 2)->0, seq![' '])
    } else {
        (i + 1, seq![s[i]])
    }
}

/// A text from `i` on without its comments.
pub open spec fn uncommented_from(s: Seq<char>, i: int) -> Seq<char>
    decreases s.len() - i via uncommented_goes_on
{
    if 0 <= i < s.len() {
        piece_at(s, i).1 + uncommented_from(s, piece_at(s, i).0)
    } else {
        Seq::empty()
    }
}

#[via_fn]
proof fn uncommented_goes_on(s: Seq<char>, i: int) {
    if 0 <= i < s.len() {
        lemma_piece(s, i);
    }
}

/// JSON with comments, as JSON: what stands between `//` and the end of the line,
/// or between `/*` and `*/`, is a blank, but for strings.
pub open spec fn uncommented(s: Seq<char>) -> Seq<char> {
    uncommented_from(s, 0)
}

proof fn lemma_string_end(s: Seq<char>, i: int)
    requires
        i <= s.len(),
    ensures
        i <= string_end(s, i) <= s.len(),
    decreases s.len() - i,
{
    if i < s.len() && s[i] != '"' {
        if s[i] == '\\' && i + 2 <= s.len() {
            lemma_string_end(s, i + 2);
        } else {
            lemma_string_end(s, i + 1);
        }
    }
}

proof fn lemma_line_end(s: Seq<char>, i: int)
    requires
        i <= s.len(),
    ensures
        i <= line_end(s, i) <= s.len(),
    decreases s.len() - i,
{
    if i < s.len() && s[i] != '\n' {
        lemma_line_end(s, i + 1);
    }
}

proof fn lemma_block_end(s: Seq<char>, i: int)
    ensures
        block_end(s, i) matches Some(e) ==> i + 2 <= e <= s.len(),
    decreases s.len() - i,
{
    if i + 1 < s.len() && !(s[i] == '*' && s[i + 1] == '/') {
        lemma_block_end(s, i + 1);
    }
}

proof fn lemma_piece(s: Seq<char>, i: int)
    requires
        0 <= i < s.len(),
    ensures
        i < piece_at(s, i).0 <= s.len(),
{
    lemma_string_end(s, i + 1);
    if i + 2 <= s.len() {
        lemma_line_end(s, i + 2);
    }
    lemma_block_end(s, i + 2);
}

fn find_string_end(v: &Vec<char>, from: usize) -> (e: usize)
    requires
        from <= v@.len(),
    ensures
        e == string_end(v@, from as int),
{
    let n = v.len();
    let mut i: usize = from;
    while i < n
        invariant
            n == v@.len(),
            i <= n,
            string_end(v@, from as int) == string_end(v@, i as int),
        decreases n - i,
    {
        if v[i] == '"' {
            return i + 1;
        }
        if v[i] == '\\' && n - i >= 2 {
            i += 2;
        } else {
            i += 1;
        }
    }
    n
}

fn find_line_end(v: &Vec<char>, from: usize) -> (e: usize)
    requires
        from <= v@.len(),
    ensures
        e == line_end(v@, from as int),
{
    let mut i: usize = from;
    while i < v.len() && v[i] != '\n'
        invariant
            i <= v@.len(),
            line_end(v@, from as int) == line_end(v@, i as int),
        decreases v@.len() - i,
    {
        i += 1;
    }
    i
}

fn find_block_end(v: &Vec<char>, from: usize) -> (r: Option<usize>)
    requires
        from <= v@.len(),
    ensures
        block_end(v@, from as int) == (match r {
            Some(e) => Some(e as int),
            None => None,
        }),
{
    let n = v.len();
    let mut i: usize = from;
    while i < n && n - i > 1
        invariant
            n == v@.len(),
            i <= n,
            block_end(v@, from as int) == block_end(v@, i as int),
        decreases n - i,
    {
        if v[i] == '*' && v[i + 1] == '/' {
            return Some(i + 2);
        }
        i += 1;
    }
    None
}

/// JSON with comments, as JSON.
pub fn strip_comments(text: &str) -> (r: String)
    ensures
        r@ == uncommented(text@),
{
    let v = chars_of(text);
    let n = v.len();
    let mut out = String::new();
    let mut i: usize = 0;
    assert(out@ + uncommented_from(v@, 0) =~= uncommented(text@));
    while i < n
        invariant
            i <= n,
            n == v@.len(),
            v@ == text@,
            out@ + uncommented_from(v@, i as int) == uncommented(text@),
        decreases n - i,
    {
        let ghost was = out@;
        let ghost rest = uncommented_from(v@, piece_at(v@, i as int).0);
        proof {
            lemma_piece(v@, i as int);
        }
        let slash = n - i > 1 && v[i] == '/';
        let block = if slash && v[i + 1] == '*' {
            find_block_end(&v, i + 2)
        } else {
            None
        };
        let next: usize;
        if v[i] == '"' {
            next = find_string_end(&v, i + 1);
            out.append(text_of(&v, i, next).as_str());
        } else if slash && v[i + 1] == '/' {
            next = find_line_end(&v, i + 2);
            out.push(' ');
        } else if let Some(e) = block {
            next = e;
            out.push(' ');
        } else {
            next = i + 1;
            out.push(v[i]);
        }
        assert(out@ =~= was + piece_at(v@, i as int).1);
        assert(out@ + rest =~= was + (piece_at(v@, i as int).1 + rest));
        i = next;
    }
    assert(out@ + uncommented_from(v@, n as int) =~= out@);
    out
}

/// A text without slashes has no comments.
pub proof fn nothing_is_taken_for_a_comment(s: Seq<char>, i: int)
    requires
        0 <= i <= s.len(),
        forall|k: int| 0 <= k < s.len() ==> #[trigger] s[k] != '/',
    ensures
        uncommented_from(s, i) == s.skip(i),
    decreases s.len() - i,
{
    if i < s.len() {
        let e = piece_at(s, i).0;
        lemma_piece(s, i);
        nothing_is_taken_for_a_comment(s, e);
        assert(s.skip(i) =~= s.subrange(i, e) + s.skip(e));
        assert(piece_at(s, i).1 =~= s.subrange(i, e));
    } else {
        assert(s.skip(i) =~= Seq::empty());
    }
}

} // verus!
