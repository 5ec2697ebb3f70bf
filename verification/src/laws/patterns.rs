//! Patterns, headers, titles and comments.

use crate::config::{block_end, line_end, string_end, uncommented, uncommented_from};
use crate::symbols::signature;
use crate::text::{
    clip, ends_with, first_at, first_line, lines, starts_with, strip_all_prefix, strip_all_suffix, trim,
};
use crate::title::title_in;
use crate::wildcard::{accepts, glob, open_ended, piece, pieces_of, slashed, Piece};
use vstd::prelude::*;

verus! {

// ───────────────────────────── wildcards ─────────────────────────────

/// A character stands for itself, a question mark for any one, a star for anything.
pub proof fn wildcards_stand_for_text(c: char, t: Seq<char>)
    ensures
        accepts(Seq::empty(), t) <==> t.len() == 0,
        accepts(seq![Piece::Lit(c)], t) <==> t.len() == 1 && t[0] == c,
        accepts(seq![Piece::One], t) <==> t.len() == 1,
        accepts(seq![Piece::Star], t),
        piece('*') == Piece::Star,
        piece('?') == Piece::One,
        c != '*' && c != '?' ==> piece(c) == Piece::Lit(c),
    decreases t.len(),
{
    reveal_with_fuel(accepts, 3);
    let none = Seq::<Piece>::empty();
    assert(seq![Piece::Lit(c)].skip(1) =~= none);
    assert(seq![Piece::One].skip(1) =~= none);
    assert(seq![Piece::Star].skip(1) =~= none);
    if t.len() > 0 {
        wildcards_stand_for_text(c, t.skip(1));
    }
}

/// A pattern matches a text where its first part matches the beginning and the rest what is
/// left.
pub proof fn patterns_match_piece_by_piece(p: Seq<Piece>, q: Seq<Piece>, t: Seq<char>)
    ensures
        accepts(p + q, t) <==> exists|k: int|
            0 <= k <= t.len() && accepts(p, #[trigger] t.take(k)) && accepts(q, t.skip(k)),
    decreases p.len(), t.len(),
{
    if p.len() == 0 {
        assert(p + q =~= q);
        if accepts(q, t) {
            assert(t.skip(0) =~= t);
            assert(accepts(p, t.take(0)));
        }
        if exists|k: int| 0 <= k <= t.len() && accepts(p, #[trigger] t.take(k)) && accepts(q, t.skip(k)) {
            let k = choose|k: int| 0 <= k <= t.len() && accepts(p, #[trigger] t.take(k)) && accepts(q, t.skip(k));
            assert(t.take(k).len() == k);
            assert(t.skip(0) =~= t);
        }
    } else {
        let d = p.skip(1);
        assert((p + q).skip(1) =~= d + q);
        assert((p + q)[0] == p[0]);
        let some = exists|k: int| 0 <= k <= t.len() && accepts(p, #[trigger] t.take(k)) && accepts(q, t.skip(k));
        if t.len() > 0 {
            patterns_match_piece_by_piece(d, q, t.skip(1));
        }
        match p[0] {
            Piece::Star => {
                patterns_match_piece_by_piece(d, q, t);
                if t.len() > 0 {
                    patterns_match_piece_by_piece(p, q, t.skip(1));
                }
                if accepts(d + q, t) {
                    let k = choose|k: int| 0 <= k <= t.len() && accepts(d, #[trigger] t.take(k)) && accepts(q, t.skip(k));
                    assert(accepts(p, t.take(k)));
                } else if t.len() > 0 && accepts(p + q, t.skip(1)) {
                    let u = t.skip(1);
                    let k = choose|k: int| 0 <= k <= u.len() && accepts(p, #[trigger] u.take(k)) && accepts(q, u.skip(k));
                    assert(t.take(k + 1).skip(1) =~= u.take(k));
                    assert(t.skip(k + 1) =~= u.skip(k));
                    assert(accepts(p, t.take(k + 1)));
                }
                if some {
                    let k = choose|k: int| 0 <= k <= t.len() && accepts(p, #[trigger] t.take(k)) && accepts(q, t.skip(k));
                    if accepts(d, t.take(k)) {
                        assert(accepts(d + q, t));
                    } else {
                        let u = t.skip(1);
                        assert(t.take(k).skip(1) =~= u.take(k - 1));
                        assert(t.skip(k) =~= u.skip(k - 1));
                        assert(accepts(p, u.take(k - 1)));
                        assert(accepts(p + q, u));
                    }
                }
            },
            _ => {
                if accepts(p + q, t) {
                    let u = t.skip(1);
                    let k = choose|k: int| 0 <= k <= u.len() && accepts(d, #[trigger] u.take(k)) && accepts(q, u.skip(k));
                    assert(t.take(k + 1).skip(1) =~= u.take(k));
                    assert(t.take(k + 1)[0] == t[0]);
                    assert(t.skip(k + 1) =~= u.skip(k));
                    assert(accepts(p, t.take(k + 1)));
                }
                if some {
                    let k = choose|k: int| 0 <= k <= t.len() && accepts(p, #[trigger] t.take(k)) && accepts(q, t.skip(k));
                    let u = t.skip(1);
                    assert(k > 0);
                    assert(t.take(k).skip(1) =~= u.take(k - 1));
                    assert(t.take(k)[0] == t[0]);
                    assert(t.skip(k) =~= u.skip(k - 1));
                    assert(accepts(d, u.take(k - 1)));
                }
            },
        }
    }
}

/// A pattern that does not end in a space and a star is matched piece by piece with the whole
/// text, slashes and backslashes taken for the same.
pub proof fn patterns_match_whole_texts(input: Seq<char>, pattern: Seq<char>, i: int)
    ensures
        !open_ended(slashed(pattern)) ==> (glob(input, pattern) <==> accepts(pieces_of(slashed(pattern)), slashed(input))),
        pieces_of(pattern).len() == pattern.len(),
        0 <= i < pattern.len() ==> pieces_of(pattern)[i] == piece(pattern[i]),
        slashed(input + seq!['\\']) == slashed(input) + seq!['/'],
{
    crate::laws::text::characters_are_replaced(input, seq!['\\'], '\\', seq!['/']);
}

// ───────────────────────────── headers and titles ─────────────────────────────

/// The header of a definition is short, and has no blanks around it.
pub proof fn headers_are_short(text: Seq<char>)
    ensures
        signature(text).len() <= 161,
        signature(text).len() == 161 ==> signature(text).last() == '\u{2026}',
        signature(text).len() <= 160 ==> trim(signature(text)) == signature(text),
{
    let line = trim(first_line(text));
    let head = line.take(first_at(line, " {"@));
    let raw = strip_all_suffix(strip_all_suffix(head, "{"@), ":"@);
    let bare = trim(raw);
    lemma_trim_twice(raw);
    if bare.len() > 160 {
        assert(clip(bare, 160).len() == 160);
    }
}

proof fn lemma_trim_twice(s: Seq<char>)
    ensures
        trim(trim(s)) == trim(s),
{
    let t = trim(s);
    let a = crate::laws::text::trimming_takes_blanks_off(s);
    let b = crate::laws::text::trimming_takes_blanks_off(t);
    if t.len() > 0 {
        if b > 0 {
            assert(crate::text::is_white(t[0]));
        }
        if b + trim(t).len() < t.len() {
            assert(crate::text::is_white(t[t.len() - 1]));
        }
        assert(t.subrange(0, t.len() as int) =~= t);
    } else {
        assert(trim(t) =~= t);
    }
}

proof fn lemma_one_line(s: Seq<char>)
    requires
        forall|i: int| 0 <= i < s.len() ==> #[trigger] s[i] != '\n',
        s.len() > 0,
    ensures
        first_line(s) == s,
{
    let v = seq![s];
    assert forall|i: int, k: int| 0 <= i < v.len() && 0 <= k < v[i].len() implies #[trigger] v[i][k] != '\n' by {
        assert(s[k] != '\n');
    }
    crate::edit::lemma_split_joined(v);
    assert(crate::text::join(v, seq!['\n']) == s);
    assert(lines(s)[0] == s);
}

/// A text that is its own header: one line, with nothing that opens a body.
pub open spec fn is_header(text: Seq<char>) -> bool {
    &&& 0 < text.len() <= 160
    &&& trim(text) == text
    &&& forall|i: int| 0 <= i < text.len() ==> #[trigger] text[i] != '\n'
    &&& !crate::text::contains(text, " {"@)
    &&& !ends_with(text, "{"@)
    &&& !ends_with(text, ":"@)
}

/// A line without a body is its own header.
pub proof fn plain_lines_are_their_headers(text: Seq<char>)
    requires
        is_header(text),
    ensures
        signature(text) == text,
{
    reveal_strlit(" {");
    reveal_strlit("{");
    reveal_strlit(":");
    assert(" {"@.len() == 2 && "{"@.len() == 1 && ":"@.len() == 1);
    lemma_one_line(text);
    crate::laws::text::parts_are_found_first(text, " {"@);
    assert(text.take(text.len() as int) =~= text);
    crate::laws::text::repeated_marks_are_taken_off(text, "{"@);
    crate::laws::text::repeated_marks_are_taken_off(text, ":"@);
}

/// A header stops where the body opens.
pub proof fn headers_stop_at_the_body(text: Seq<char>)
    requires
        is_header(text),
    ensures
        signature(text + " {"@) == text,
{
    reveal_strlit(" {");
    reveal_strlit("{");
    reveal_strlit(":");
    let mark = " {"@;
    assert(mark.len() == 2 && "{"@.len() == 1 && ":"@.len() == 1);
    let t = text + mark;
    assert forall|i: int| 0 <= i < t.len() implies #[trigger] t[i] != '\n' by {
        if i < text.len() {
            assert(t[i] == text[i]);
        }
    }
    lemma_one_line(t);
    let a = crate::laws::text::trimming_takes_blanks_off(text);
    assert(t[0] == text[0] && t.last() == '{');
    lemma_trimmed(t);
    lemma_body_mark(text);
    assert(t.take(text.len() as int) =~= text);
    crate::laws::text::repeated_marks_are_taken_off(text, "{"@);
    crate::laws::text::repeated_marks_are_taken_off(text, ":"@);
}

proof fn lemma_first_is(s: Seq<char>, p: Seq<char>, k: int)
    requires
        p.len() > 0,
        crate::text::occurs_at(s, p, k),
        forall|i: int| 0 <= i < k ==> !crate::text::occurs_at(s, p, i),
    ensures
        first_at(s, p) == k,
{
    crate::laws::text::parts_are_found_first(s, p);
}

proof fn lemma_no_mark_before(text: Seq<char>, t: Seq<char>, mark: Seq<char>, i: int)
    requires
        mark.len() == 2,
        mark[0] == ' ',
        mark[1] == '{',
        t == text + mark,
        0 <= i < text.len(),
        !crate::text::contains(text, mark),
    ensures
        !crate::text::occurs_at(t, mark, i),
{
    if crate::text::occurs_at(t, mark, i) {
        if i + 2 <= text.len() {
            assert(text.subrange(i, i + 2) =~= t.subrange(i, i + 2));
            assert(crate::text::occurs_at(text, mark, i));
        } else {
            assert(t.subrange(i, i + 2)[1] == t[i + 1]);
            assert(t[text.len() as int] == ' ');
        }
    }
}

proof fn lemma_body_mark(text: Seq<char>)
    requires
        !crate::text::contains(text, " {"@),
    ensures
        first_at(text + " {"@, " {"@) == text.len(),
{
    reveal_strlit(" {");
    let mark = " {"@;
    assert(mark.len() == 2 && mark[0] == ' ' && mark[1] == '{');
    let t = text + mark;
    assert(t.subrange(text.len() as int, t.len() as int) =~= mark);
    assert(crate::text::occurs_at(t, mark, text.len() as int));
    assert forall|i: int| 0 <= i < text.len() implies !crate::text::occurs_at(t, mark, i) by {
        lemma_no_mark_before(text, t, mark, i);
    }
    lemma_first_is(t, mark, text.len() as int);
}

/// A title: one line of up to a hundred characters, without quotes around it or the word for
/// it.
pub open spec fn is_title(t: Seq<char>) -> bool {
    &&& 0 < t.len() <= 100
    &&& trim(t) == t
    &&& forall|i: int| 0 <= i < t.len() ==> #[trigger] t[i] != '\n'
    &&& !starts_with(t, "Title:"@)
    &&& !starts_with(t, "\""@)
    &&& !ends_with(t, "\""@)
}

/// A title that is one is kept.
pub proof fn titles_are_kept(t: Seq<char>)
    requires
        is_title(t),
    ensures
        title_in(t) == Some(t),
{
    reveal_strlit("\"");
    reveal_strlit("Title:");
    assert("\""@.len() == 1 && "Title:"@.len() == 6);
    lemma_one_line(t);
    crate::laws::text::repeated_marks_are_taken_off(t, "Title:"@);
    crate::laws::text::repeated_marks_are_taken_off(t, "\""@);
}

/// Quotes around a title are no part of it.
pub proof fn titles_lose_their_quotes(t: Seq<char>)
    requires
        is_title(t),
    ensures
        title_in("\""@ + t + "\""@) == Some(t),
{
    reveal_strlit("\"");
    reveal_strlit("Title:");
    let q = "\""@;
    let w = "Title:"@;
    assert(q.len() == 1 && w.len() == 6 && q[0] == '"' && w[0] == 'T');
    let a = q + t + q;
    assert(a[0] == '"' && a.last() == '"');
    lemma_trimmed(a);
    if starts_with(a, w) {
        assert(a.subrange(0, 6)[0] == '"');
    }
    crate::laws::text::repeated_marks_are_taken_off(a, w);
    lemma_quotes_off(t, q);
    lemma_one_line(t);
}

proof fn lemma_quotes_off(t: Seq<char>, q: Seq<char>)
    requires
        t.len() > 0,
        q.len() == 1,
        !starts_with(t, q),
        !ends_with(t, q),
    ensures
        strip_all_suffix(strip_all_prefix(q + t + q, q), q) == t,
{
    assert(q + t + q =~= q + (t + q));
    crate::laws::text::repeated_marks_are_taken_off(t + q, q);
    if starts_with(t + q, q) {
        assert(t.subrange(0, 1) =~= (t + q).subrange(0, 1));
    }
    crate::laws::text::repeated_marks_are_taken_off(t, q);
}

/// The word for it is no part of a title.
pub proof fn titles_lose_their_word(t: Seq<char>)
    requires
        is_title(t),
    ensures
        title_in("Title:"@ + t) == Some(t),
{
    titles_are_kept(t);
    lemma_word_off(t, "Title:"@);
    assert(trim(strip_all_prefix(trim("Title:"@ + t), "Title:"@)) == trim(strip_all_prefix(trim(t), "Title:"@)));
}

proof fn lemma_word_off(t: Seq<char>, w: Seq<char>)
    requires
        t.len() > 0,
        trim(t) == t,
        w == "Title:"@,
    ensures
        strip_all_prefix(trim(w + t), w) == strip_all_prefix(trim(t), w),
{
    lemma_word_starts(w);
    lemma_ends(t);
    lemma_ends_stay(w, t);
    crate::laws::text::repeated_marks_are_taken_off(t, w);
}

proof fn lemma_word_starts(w: Seq<char>)
    requires
        w == "Title:"@,
    ensures
        w.len() == 6,
        !crate::text::is_white(w[0]),
{
    reveal_strlit("Title:");
    assert(w[0] == 'T');
}

proof fn lemma_ends(t: Seq<char>)
    requires
        t.len() > 0,
        trim(t) == t,
    ensures
        !crate::text::is_white(t[0]),
        !crate::text::is_white(t[t.len() - 1]),
{
    let k = crate::laws::text::trimming_takes_blanks_off(t);
}

proof fn lemma_ends_stay(w: Seq<char>, t: Seq<char>)
    requires
        w.len() > 0,
        !crate::text::is_white(w[0]),
        t.len() > 0,
        !crate::text::is_white(t[t.len() - 1]),
    ensures
        trim(w + t) == w + t,
{
    let s = w + t;
    assert(s[0] == w[0]);
    assert(s[s.len() - 1] == t[t.len() - 1]);
    lemma_trimmed(s);
}

proof fn lemma_trimmed(s: Seq<char>)
    requires
        s.len() > 0,
        !crate::text::is_white(s[0]),
        !crate::text::is_white(s.last()),
    ensures
        trim(s) == s,
{
    let b = crate::laws::text::trimming_takes_blanks_off(s);
    if b > 0 {
        assert(crate::text::is_white(s[0]));
    }
    if b + trim(s).len() < s.len() {
        assert(crate::text::is_white(s[s.len() - 1]));
    }
    assert(s.subrange(0, s.len() as int) =~= s);
}

// ───────────────────────────── comments ─────────────────────────────

/// A line comment is a blank, up to the end of its line; a block comment is one, up to where
/// it is closed; a string is kept whole.
pub proof fn comments_are_blanks(s: Seq<char>, i: int)
    requires
        0 <= i < s.len(),
    ensures
        i + 1 < s.len() && s[i] == '/' && s[i + 1] == '/' ==> uncommented_from(s, i) == seq![' '] + uncommented_from(
            s,
            line_end(s, i + 2),
        ),
        i + 1 < s.len() && s[i] == '/' && s[i + 1] == '*' && block_end(s, i + 2) is Some ==> uncommented_from(s, i)
            == seq![' '] + uncommented_from(s, block_end(s, i + 2)->0),
        s[i] == '"' ==> uncommented_from(s, i) == s.subrange(i, string_end(s, i + 1)) + uncommented_from(
            s,
            string_end(s, i + 1),
        ),
        s[i] != '"' && s[i] != '/' ==> uncommented_from(s, i) == seq![s[i]] + uncommented_from(s, i + 1),
        uncommented(s) == uncommented_from(s, 0),
        uncommented_from(s, s.len() as int).len() == 0,
{
}

/// A line ends before its line feed, or with the text; a block behind its mark; a string behind
/// a quote that no backslash stands before.
pub proof fn comments_end(s: Seq<char>, i: int)
    requires
        0 <= i <= s.len(),
    ensures
        i <= line_end(s, i) <= s.len(),
        line_end(s, i) < s.len() ==> s[line_end(s, i)] == '\n',
        forall|k: int| i <= k < line_end(s, i) ==> #[trigger] s[k] != '\n',
        block_end(s, i) matches Some(e) ==> i + 2 <= e <= s.len() && s[e - 2] == '*' && s[e - 1] == '/',
        string_end(s, i) < s.len() ==> i < string_end(s, i) && s[string_end(s, i) - 1] == '"',
    decreases s.len() - i,
{
    if i < s.len() {
        comments_end(s, i + 1);
        if i + 2 <= s.len() {
            comments_end(s, i + 2);
        }
    }
}

} // verus!
