//! What the symbol index answers.

use crate::index::{
    all_digits, bare, candidate_words, defined, defined_alike, entries_within, files_of, first_four, has_place,
    is_by_name, is_candidate, is_source, is_word_char, meant, mentioned, mentions, named, picked, rel_of,
    same_place, specific_first, symbol_block, symbol_entry, symbol_total, used_elsewhere, with_new, word_runs,
    Files, WalkEntry, MAX_FILES, REFRESH_SECS,
};
use crate::symbols::{language_of, SymbolView};
use crate::text::{ascii_lowercase, byte_length, contains, starts_with};
use vstd::prelude::*;

verus! {

// ───────────────────────────── what is indexed ─────────────────────────────

/// The index takes files of up to 512 kibibytes in the languages that it knows, but for
/// dependencies and build output; at most six thousand; and looks again after five
/// seconds.
pub proof fn sources_are_indexed(worktree: Seq<char>, e: WalkEntry)
    ensures
        is_source(worktree, e) <==> e.is_file && e.len <= 512 * 1024 && language_of(e.path@) is Some && !contains(
            rel_of(worktree, e.path@),
            "node_modules/"@,
        ) && !contains(rel_of(worktree, e.path@), "/target/"@) && !starts_with(rel_of(worktree, e.path@), "target/"@),
        MAX_FILES == 6_000,
        REFRESH_SECS == 5,
{
}

// ───────────────────────────── looking up ─────────────────────────────

/// The definitions of a name are the symbols of that name in any file, and no others.
pub proof fn definitions_are_found(files: Files, name: Seq<char>, s: SymbolView)
    ensures
        defined(files, name).contains(s) <==> s.name == name && exists|i: int|
            0 <= i < files.len() && (#[trigger] files[i]).1.symbols.contains(s),
    decreases files.len(),
{
    if files.len() > 0 {
        let d = files.drop_last();
        let own = files.last().1.symbols;
        let pred = |x: SymbolView| x.name == name;
        definitions_are_found(d, name, s);
        let before = defined(d, name);
        let here = named(own, name);
        let all = defined(files, name);
        if here.contains(s) {
            own.lemma_filter_contains_rev(pred, s);
            let i = choose|i: int| 0 <= i < here.len() && here[i] == s;
            own.lemma_filter_pred(pred, i);
            assert(all[before.len() + i] == s);
            assert(files[files.len() - 1].1.symbols.contains(s));
        }
        if before.contains(s) {
            let i = choose|i: int| 0 <= i < before.len() && before[i] == s;
            assert(all[i] == s);
            let k = choose|k: int| 0 <= k < d.len() && (#[trigger] d[k]).1.symbols.contains(s);
            assert(files[k] == d[k]);
        }
        if all.contains(s) {
            let i = choose|i: int| 0 <= i < all.len() && all[i] == s;
            if i < before.len() {
                assert(before[i] == s);
            } else {
                assert(here[i - before.len()] == s);
            }
        }
        if s.name == name && exists|i: int| 0 <= i < files.len() && (#[trigger] files[i]).1.symbols.contains(s) {
            let k = choose|k: int| 0 <= k < files.len() && (#[trigger] files[k]).1.symbols.contains(s);
            if k < d.len() {
                assert(d[k] == files[k]);
            } else {
                let i = choose|i: int| 0 <= i < own.len() && own[i] == s;
                assert(pred(own[i]));
                own.lemma_filter_contains(pred, i);
                assert(here.contains(s));
            }
        }
    }
}

proof fn lemma_mentions(file: Seq<char>, idents: Seq<Seq<char>>, name: Seq<char>, f: Seq<char>)
    ensures
        mentions(file, idents, name).contains(f) <==> f == file && idents.contains(name),
    decreases idents.len(),
{
    let all = mentions(file, idents, name);
    if idents.len() > 0 {
        let d = idents.drop_last();
        let before = mentions(file, d, name);
        lemma_mentions(file, d, name, f);
        if before.contains(f) {
            let i = choose|i: int| 0 <= i < before.len() && before[i] == f;
            assert(all[i] == f);
        }
        if d.contains(name) {
            let i = choose|i: int| 0 <= i < d.len() && d[i] == name;
            assert(idents[i] == name);
        }
        if idents.last() == name {
            assert(idents[idents.len() - 1] == name);
            assert(all[all.len() - 1] == file);
        }
        if all.contains(f) && !before.contains(f) {
            let i = choose|i: int| 0 <= i < all.len() && all[i] == f;
            if i < before.len() {
                assert(before[i] == f);
            }
        }
        if idents.contains(name) && idents.last() != name {
            let i = choose|i: int| 0 <= i < idents.len() && idents[i] == name;
            assert(d[i] == name);
        }
    }
}

/// The files that mention a name are those that use it as an identifier.
pub proof fn mentions_are_found(files: Files, name: Seq<char>, f: Seq<char>)
    ensures
        mentioned(files, name).contains(f) <==> exists|i: int|
            0 <= i < files.len() && (#[trigger] files[i]).0 == f && files[i].1.idents.contains(name),
    decreases files.len(),
{
    if files.len() > 0 {
        let d = files.drop_last();
        mentions_are_found(d, name, f);
        lemma_mentions(files.last().0, files.last().1.idents, name, f);
        let before = mentioned(d, name);
        let here = mentions(files.last().0, files.last().1.idents, name);
        let all = mentioned(files, name);
        if before.contains(f) {
            let i = choose|i: int| 0 <= i < before.len() && before[i] == f;
            assert(all[i] == f);
            let k = choose|k: int| 0 <= k < d.len() && (#[trigger] d[k]).0 == f && d[k].1.idents.contains(name);
            assert(files[k] == d[k]);
        }
        if here.contains(f) {
            let i = choose|i: int| 0 <= i < here.len() && here[i] == f;
            assert(all[before.len() + i] == f);
            assert(files[files.len() - 1].0 == f);
        }
        if all.contains(f) {
            let i = choose|i: int| 0 <= i < all.len() && all[i] == f;
            if i < before.len() {
                assert(before[i] == f);
            } else {
                assert(here[i - before.len()] == f);
            }
        }
        if exists|i: int| 0 <= i < files.len() && (#[trigger] files[i]).0 == f && files[i].1.idents.contains(name) {
            let k = choose|k: int|
                0 <= k < files.len() && (#[trigger] files[k]).0 == f && files[k].1.idents.contains(name);
            if k < d.len() {
                assert(d[k] == files[k]);
            }
        }
    }
}

/// A defined name is referred to by the files that mention it and do not define it.
pub proof fn references_are_elsewhere(files: Files, name: Seq<char>, f: Seq<char>)
    ensures
        used_elsewhere(files, name).contains(f) <==> {
            &&& exists|s: SymbolView| #[trigger] defined(files, name).contains(s)
            &&& exists|i: int|
                0 <= i < files.len() && (#[trigger] files[i]).0 == f && files[i].1.idents.contains(name)
            &&& forall|s: SymbolView| #[trigger] defined(files, name).contains(s) ==> s.file != f
        },
{
    mentions_are_found(files, name, f);
    let d = defined(files, name);
    let own = files_of(d);
    let pred = |x: Seq<char>| !own.contains(x);
    let m = mentioned(files, name);
    if d.len() > 0 {
        assert(d.contains(d[0]));
        assert(own.contains(f) <==> exists|s: SymbolView| #[trigger] d.contains(s) && s.file == f) by {
            if own.contains(f) {
                let i = choose|i: int| 0 <= i < own.len() && own[i] == f;
                assert(d.contains(d[i]));
            }
            if exists|s: SymbolView| #[trigger] d.contains(s) && s.file == f {
                let s = choose|s: SymbolView| #[trigger] d.contains(s) && s.file == f;
                let i = choose|i: int| 0 <= i < d.len() && d[i] == s;
                assert(own[i] == f);
            }
        }
        if used_elsewhere(files, name).contains(f) {
            m.lemma_filter_contains_rev(pred, f);
            let i = choose|i: int| 0 <= i < m.filter(pred).len() && m.filter(pred)[i] == f;
            m.lemma_filter_pred(pred, i);
        }
        if m.contains(f) && pred(f) {
            let i = choose|i: int| 0 <= i < m.len() && m[i] == f;
            m.lemma_filter_contains(pred, i);
        }
    } else {
        assert forall|s: SymbolView| !#[trigger] d.contains(s) by {}
    }
}

/// Without regard to case, the definitions of every name count that differs in case alone.
pub proof fn case_is_disregarded(names: Seq<(Seq<char>, Seq<SymbolView>)>, name: Seq<char>, s: SymbolView)
    ensures
        defined_alike(names, name).contains(s) <==> exists|i: int|
            0 <= i < names.len() && ascii_lowercase((#[trigger] names[i]).0) == ascii_lowercase(name)
                && names[i].1.contains(s),
    decreases names.len(),
{
    if names.len() > 0 {
        let d = names.drop_last();
        case_is_disregarded(d, name, s);
        let before = defined_alike(d, name);
        let here = names.last().1;
        let all = defined_alike(names, name);
        if before.contains(s) {
            let i = choose|i: int| 0 <= i < before.len() && before[i] == s;
            assert(all[i] == s);
            let k = choose|k: int|
                0 <= k < d.len() && ascii_lowercase((#[trigger] d[k]).0) == ascii_lowercase(name) && d[k].1.contains(s);
            assert(names[k] == d[k]);
        }
        if ascii_lowercase(names.last().0) == ascii_lowercase(name) {
            if here.contains(s) {
                let i = choose|i: int| 0 <= i < here.len() && here[i] == s;
                assert(all[before.len() + i] == s);
                assert(names[names.len() - 1].1.contains(s));
            }
            if all.contains(s) {
                let i = choose|i: int| 0 <= i < all.len() && all[i] == s;
                if i < before.len() {
                    assert(before[i] == s);
                } else {
                    assert(here[i - before.len()] == s);
                }
            }
        }
        if exists|i: int|
            0 <= i < names.len() && ascii_lowercase((#[trigger] names[i]).0) == ascii_lowercase(name)
                && names[i].1.contains(s) {
            let k = choose|k: int|
                0 <= k < names.len() && ascii_lowercase((#[trigger] names[k]).0) == ascii_lowercase(name)
                    && names[k].1.contains(s);
            if k < d.len() {
                assert(d[k] == names[k]);
            }
        }
    }
}

/// The count of symbols is that of all names together.
pub proof fn symbols_are_counted(names: Seq<(Seq<char>, Seq<SymbolView>)>, more: (Seq<char>, Seq<SymbolView>))
    ensures
        symbol_total(Seq::empty()) == 0,
        symbol_total(names.push(more)) == symbol_total(names) + more.1.len(),
{
    assert(names.push(more).drop_last() =~= names);
}

// ───────────────────────────── the words of a prompt ─────────────────────────────

proof fn lemma_runs(s: Seq<char>)
    ensures
        word_runs(s).len() > 0,
        forall|i: int, k: int|
            0 <= i < word_runs(s).len() && 0 <= k < word_runs(s)[i].len() ==> is_word_char(
                #[trigger] word_runs(s)[i][k],
            ),
    decreases s.len(),
{
    if s.len() > 0 {
        let d = s.drop_last();
        lemma_runs(d);
        let before = word_runs(d);
        let r = word_runs(s);
        assert forall|i: int, k: int| 0 <= i < r.len() && 0 <= k < r[i].len() implies is_word_char(
            #[trigger] r[i][k],
        ) by {
            if is_word_char(s.last()) {
                if i < before.len() - 1 {
                    assert(r[i] == before[i]);
                    assert(is_word_char(before[i][k]));
                } else if k < before.last().len() {
                    assert(is_word_char(before[before.len() - 1][k]));
                }
            } else if i < before.len() {
                assert(r[i] == before[i]);
                assert(is_word_char(before[i][k]));
            }
        }
    }
}

proof fn lemma_runs_grow(s: Seq<char>, w: Seq<char>)
    requires
        forall|k: int| 0 <= k < w.len() ==> is_word_char(#[trigger] w[k]),
    ensures
        word_runs(s + w) == word_runs(s).drop_last().push(word_runs(s).last() + w),
    decreases w.len(),
{
    lemma_runs(s);
    let p = word_runs(s);
    if w.len() == 0 {
        assert(s + w =~= s);
        assert(p.last() + w =~= p.last());
        assert(p =~= p.drop_last().push(p.last()));
    } else {
        let d = w.drop_last();
        assert forall|k: int| 0 <= k < d.len() implies is_word_char(#[trigger] d[k]) by {
            assert(w[k] == d[k]);
        }
        lemma_runs_grow(s, d);
        assert((s + w).drop_last() =~= s + d);
        assert((s + w).last() == w[w.len() - 1]);
        assert(word_runs(s + d).drop_last() =~= p.drop_last());
        assert((p.last() + d).push(w.last()) =~= p.last() + w);
    }
}

proof fn lemma_runs_stay(s: Seq<char>, t: Seq<char>, i: int)
    requires
        0 <= i < word_runs(s).len() - 1,
    ensures
        i < word_runs(s + t).len() - 1,
        word_runs(s + t)[i] == word_runs(s)[i],
    decreases t.len(),
{
    if t.len() == 0 {
        assert(s + t =~= s);
    } else {
        lemma_runs_stay(s, t.drop_last(), i);
        assert((s + t).drop_last() =~= s + t.drop_last());
        lemma_runs(s + t.drop_last());
    }
}

/// A prompt's words are its runs of letters, digits and underscores of 3 to 80 bytes that
/// are not all digits: each such run is one, wherever it stands.
pub proof fn whole_words_are_found(a: Seq<char>, w: Seq<char>, b: Seq<char>)
    requires
        forall|k: int| 0 <= k < w.len() ==> is_word_char(#[trigger] w[k]),
        a.len() == 0 || !is_word_char(a.last()),
        b.len() == 0 || !is_word_char(b[0]),
        3 <= byte_length(w) <= 80,
        exists|k: int| 0 <= k < w.len() && !('0' <= #[trigger] w[k] <= '9'),
    ensures
        candidate_words(a + w + b).contains(w),
{
    let s = a + w;
    lemma_runs_grow(a, w);
    lemma_runs(a);
    assert(word_runs(a).last().len() == 0);
    assert(word_runs(a).last() + w =~= w);
    assert(word_runs(s).last() == w);
    let runs = word_runs(s + b);
    let i = word_runs(s).len() - 1;
    if b.len() == 0 {
        assert(s + b =~= s);
        assert(runs[i] == w);
    } else {
        let t = b.take(1);
        assert((s + t).drop_last() =~= s);
        assert((s + t).last() == b[0]);
        assert(word_runs(s + t) == word_runs(s).push(Seq::empty()));
        assert(word_runs(s + t)[i] == w);
        lemma_runs_stay(s + t, b.skip(1), i);
        assert((s + t) + b.skip(1) =~= s + b);
        assert(runs[i] == w);
    }
    let pred = |x: Seq<char>| is_candidate(x);
    let k = choose|k: int| 0 <= k < w.len() && !('0' <= #[trigger] w[k] <= '9');
    assert(!all_digits(w));
    assert(pred(runs[i]));
    runs.lemma_filter_contains(pred, i);
}

/// Nothing else is a word of the prompt.
pub proof fn only_words_are_found(text: Seq<char>, w: Seq<char>, k: int)
    requires
        candidate_words(text).contains(w),
        0 <= k < w.len(),
    ensures
        crate::text::alphanumeric(w[k]) || w[k] == '_',
        3 <= byte_length(w) <= 80,
        exists|i: int| 0 <= i < w.len() && !('0' <= #[trigger] w[i] <= '9'),
{
    let pred = |x: Seq<char>| is_candidate(x);
    let runs = word_runs(text);
    let f = runs.filter(pred);
    runs.lemma_filter_contains_rev(pred, w);
    let i = choose|i: int| 0 <= i < f.len() && f[i] == w;
    runs.lemma_filter_pred(pred, i);
    let j = choose|j: int| 0 <= j < runs.len() && runs[j] == w;
    lemma_runs(text);
    assert(is_word_char(runs[j][k]));
}

// ───────────────────────────── what a prompt is shown ─────────────────────────────

/// Of each name that the words spell, up to four definitions are shown, unless sixteen
/// others already are.
pub proof fn spelled_names_are_shown(
    files: Files,
    names: Seq<(Seq<char>, Seq<SymbolView>)>,
    words: Seq<Seq<char>>,
    w: Seq<char>,
    i: int,
)
    requires
        crate::table::increasing(names),
        is_by_name(crate::table::as_map(names), files),
        words.contains(w),
        0 <= i < defined(files, w).len(),
        i < 4,
    ensures
        ({
            let v = picked(files, names, specific_first(files, words));
            v.len() >= 16 || exists|j: int|
                0 <= j < v.len() && (#[trigger] v[j]).name == defined(files, w)[i].name && v[j].file == defined(
                    files,
                    w,
                )[i].file && v[j].line == defined(files, w)[i].line
        }),
{
    let yes = |x: Seq<char>| defined(files, x).len() > 0;
    let no = |x: Seq<char>| !(defined(files, x).len() > 0);
    let exact = words.filter(yes);
    let rest = words.filter(no);
    crate::table::lemma_as_map(names);
    assert forall|k: int| 0 <= k < names.len() implies (#[trigger] names[k]).1 == defined(files, names[k].0) by {
        assert(crate::table::as_map(names).contains_key(names[k].0));
    }
    assert forall|k: int| 0 <= k < exact.len() implies defined(files, #[trigger] exact[k]).len() > 0 by {
        words.lemma_filter_pred(yes, k);
    }
    assert forall|k: int| 0 <= k < rest.len() implies defined(files, #[trigger] rest[k]).len() == 0 by {
        words.lemma_filter_pred(no, k);
    }
    let k = choose|k: int| 0 <= k < words.len() && words[k] == w;
    assert(yes(words[k]));
    words.lemma_filter_contains(yes, k);
    assert(exact.contains(w));
    crate::index::lemma_picked_exactly(files, names, exact);
    crate::index::lemma_picked_behind(files, names, exact, rest);
    let a = picked(files, names, exact);
    let v = picked(files, names, exact + rest);
    if v.len() < 16 {
        let s = first_four(defined(files, w))[i];
        assert(s == defined(files, w)[i]);
        assert(has_place(a, s));
        let j = choose|j: int| 0 <= j < a.len() && same_place(#[trigger] a[j], s);
        assert(v.take(a.len() as int)[j] == v[j]);
        assert(same_place(v[j], s));
    }
}

/// A word that is no name stands for one that differs in case and underscores alone, if
/// it takes six bytes at least.
pub proof fn long_words_are_tolerated(files: Files, names: Seq<(Seq<char>, Seq<SymbolView>)>, w: Seq<char>, i: int)
    requires
        0 <= i < names.len(),
        bare(names[i].0) == bare(w),
        forall|j: int| 0 <= j < i ==> bare((#[trigger] names[j]).0) != bare(w),
    ensures
        defined(files, w).len() > 0 ==> meant(files, names, w) == defined(files, w),
        defined(files, w).len() == 0 && byte_length(w) >= 6 ==> meant(files, names, w) == names[i].1,
        defined(files, w).len() == 0 && byte_length(w) < 6 ==> meant(files, names, w).len() == 0,
    decreases i,
{
    if i > 0 {
        let d = names.skip(1);
        assert(d[i - 1] == names[i]);
        assert forall|j: int| 0 <= j < i - 1 implies bare((#[trigger] d[j]).0) != bare(w) by {
            assert(d[j] == names[j + 1]);
        }
        long_words_are_tolerated(files, d, w, i - 1);
        assert(bare(names[0].0) != bare(w));
    }
}

/// Nothing is shown twice, and nothing after sixteen have been.
pub proof fn shown_symbols_are_few(files: Files, names: Seq<(Seq<char>, Seq<SymbolView>)>, words: Seq<Seq<char>>)
    ensures
        picked(files, names, words).len() <= 19,
        forall|i: int, j: int|
            0 <= i < j < picked(files, names, words).len() ==> !same_place(
                #[trigger] picked(files, names, words)[i],
                #[trigger] picked(files, names, words)[j],
            ),
    decreases words.len(),
{
    if words.len() > 0 {
        let d = words.drop_last();
        shown_symbols_are_few(files, names, d);
        let b = picked(files, names, d);
        if b.len() < 16 {
            lemma_new_places(b, first_four(meant(files, names, words.last())));
        }
    }
}

proof fn lemma_new_places(v: Seq<SymbolView>, more: Seq<SymbolView>)
    requires
        forall|i: int, j: int| 0 <= i < j < v.len() ==> !same_place(#[trigger] v[i], #[trigger] v[j]),
    ensures
        with_new(v, more).len() <= v.len() + more.len(),
        forall|i: int, j: int|
            0 <= i < j < with_new(v, more).len() ==> !same_place(
                #[trigger] with_new(v, more)[i],
                #[trigger] with_new(v, more)[j],
            ),
    decreases more.len(),
{
    if more.len() > 0 {
        lemma_new_places(v, more.drop_last());
    }
}

/// The block keeps to its size: what stands before the closing tag takes at most the bytes
/// that were allowed, or is the opening tag alone.
pub proof fn blocks_keep_to_their_size(files: Files, v: Seq<SymbolView>, max: int)
    ensures
        v.len() == 0 ==> symbol_block(files, v, max).len() == 0,
        v.len() > 0 ==> symbol_block(files, v, max) == entries_within(files, v, max).0 + "</symbols>"@,
        byte_length(entries_within(files, v, max).0) <= max || entries_within(files, v, max).0 == "<symbols>\n"@,
    decreases v.len(),
{
    if v.len() > 0 {
        let d = v.drop_last();
        blocks_keep_to_their_size(files, d, max);
        let t = entries_within(files, d, max).0;
        let line = symbol_entry(files, v.last());
        lemma_bytes_add(t, line);
    }
}

proof fn lemma_bytes_add(a: Seq<char>, b: Seq<char>)
    ensures
        byte_length(a + b) == byte_length(a) + byte_length(b),
    decreases a.len(),
{
    if a.len() == 0 {
        assert(a + b =~= b);
    } else {
        let d = a.drop_first();
        lemma_bytes_add(d, b);
        assert((a + b).drop_first() =~= d + b);
        assert((a + b)[0] == a[0]);
    }
}

/// While there is room, the next symbol is shown; once there is none, nothing is.
pub proof fn blocks_are_filled_in_order(files: Files, v: Seq<SymbolView>, s: SymbolView, max: int)
    ensures
        entries_within(files, Seq::empty(), max) == ("<symbols>\n"@, false),
        ({
            let (text, full) = entries_within(files, v, max);
            let line = symbol_entry(files, s);
            entries_within(files, v.push(s), max) == (if !full && byte_length(text) + byte_length(line) <= max {
                (text + line, false)
            } else {
                (text, true)
            })
        }),
{
    assert(v.push(s).drop_last() =~= v);
}

/// A symbol is shown with what it is, its name, where it stands, in how many files it is used
/// where that is more than one, and its header.
pub proof fn symbols_are_shown(files: Files, s: SymbolView)
    ensures
        ({
            let uses = mentioned(files, s.name).len();
            let used = if uses > 1 {
                " · used in "@ + crate::text::decimal(uses) + " files"@
            } else {
                Seq::empty()
            };
            symbol_entry(files, s) == s.kind + " "@ + s.name + " — "@ + s.file + ":"@ + crate::text::decimal(s.line as nat)
                + used + "\n  "@ + s.signature + "\n"@
        }),
{
}

/// A file is indexed by its path from the worktree, with slashes.
pub proof fn files_go_by_their_paths(worktree: Seq<char>, path: Seq<char>)
    ensures
        rel_of(worktree, path) == crate::text::replace_char(crate::path::shown(path, worktree), '\\', "/"@),
{
}

} // verus!
