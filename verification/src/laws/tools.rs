//! Edits, language servers and panels.

use crate::edit::{
    has_bom, indent, is_content, least_indent, line_ending, normalized, outdented, tally, with_bom, with_ending,
    without_bom, LineChange,
};
use crate::json::quoted;
use crate::lsp::{
    all_statuses, error_line, error_lines, errors_in, hex_value, kind_of, line_feeds, line_total, notice, reported,
    signed, step_for, unescaped, uri_of, wait_time, ClientStep, Diagnostic, LspClientView, LspFailureView,
    SyncCapability, Touch, DIAGNOSTICS_DEBOUNCE,
};
use crate::panels::{
    after, answer, before, body, buttons, one, option_lines, options_lines, picked_labels, question_lines, rows,
    styled_lines, tab_spans, tabs, toggled, toned, FactsView, LineView, PermChoice, Question, QuestionOption,
    QuestionPanel, QuestionRequest, Tone,
};
use crate::text::{contains, decimal, join, lines, starts_with, trim, trim_start};
use vstd::prelude::*;

verus! {

// ───────────────────────────── edits ─────────────────────────────

/// A byte order mark is the first character or none.
pub proof fn marks_come_first(s: Seq<char>)
    ensures
        has_bom(s) <==> s.len() > 0 && s[0] == '\u{feff}',
        has_bom(s) ==> without_bom(s) == s.subrange(1, s.len() as int),
        !has_bom(s) ==> without_bom(s) == s,
        with_bom(false, s) == s,
        with_bom(true, s).len() == s.len() + 1 && with_bom(true, s)[0] == '\u{feff}' && without_bom(with_bom(true, s)) == s,
{
    if has_bom(s) {
        assert(s.skip(1) =~= s.subrange(1, s.len() as int));
    }
    assert(with_bom(true, s).skip(1) =~= s);
}

proof fn lemma_normalized_end(s: Seq<char>)
    ensures
        s.len() > 0 ==> normalized(s).len() > 0 && normalized(s).last() == s.last(),
        s.len() == 0 ==> normalized(s).len() == 0,
{
}

/// Normal text ends its lines in line feeds alone where they ended in a carriage return and
/// a line feed; whatever else there is stays.
pub proof fn line_feeds_are_normal(s: Seq<char>, c: char)
    ensures
        normalized(s.push('\r').push('\n')) == normalized(s).push('\n'),
        c != '\n' ==> normalized(s.push(c)) == normalized(s).push(c),
        s.len() > 0 && s.last() != '\r' ==> normalized(s.push('\n')) == normalized(s).push('\n'),
        normalized(Seq::empty()).len() == 0,
{
    let a = s.push('\r').push('\n');
    assert(a.take(a.len() - 2) =~= s);
    assert(s.push(c).drop_last() =~= s);
    assert(s.push('\n').drop_last() =~= s);
}

/// A text keeps to carriage returns where it has any before a line feed.
pub proof fn endings_are_kept(s: Seq<char>, t: Seq<char>)
    ensures
        contains(s, "\r\n"@) <==> line_ending(s) == "\r\n"@,
        !contains(s, "\r\n"@) ==> line_ending(s) == "\n"@,
        with_ending(t, "\n"@) == normalized(t),
        with_ending(t, "\r\n"@) == crate::text::replace_char(normalized(t), '\n', "\r\n"@),
{
    reveal_strlit("\r\n");
    reveal_strlit("\n");
    assert("\r\n"@.len() == 2 && "\n"@.len() == 1);
}

/// A diff is trimmed by the least indentation of the lines of the file that are not blank,
/// and only these lines are.
pub proof fn diffs_are_trimmed_alike(ls: Seq<Seq<char>>, l: Seq<char>, n: nat)
    ensures
        least_indent(Seq::empty()) is None,
        is_content(l) <==> (starts_with(l, "+"@) || starts_with(l, "-"@) || starts_with(l, " "@)) && !starts_with(l, "---"@)
            && !starts_with(l, "+++"@),
        !(is_content(l) && trim(l.skip(1)).len() > 0) ==> least_indent(ls.push(l)) == least_indent(ls),
        is_content(l) && trim(l.skip(1)).len() > 0 ==> (least_indent(ls.push(l)) matches Some(k) && k <= indent(l.skip(1))
            && (least_indent(ls) matches Some(m) ==> k <= m && (k == m || k == indent(l.skip(1)))) && (least_indent(ls) is None
            ==> k == indent(l.skip(1)))),
        !is_content(l) ==> outdented(l, n) == l,
        is_content(l) && n < l.len() ==> outdented(l, n) == l.take(1) + l.skip(1 + n as int),
        indent(l) == l.len() - trim_start(l).len(),
{
    assert(ls.push(l).drop_last() =~= ls);
    if is_content(l) && n < l.len() {
        assert(l.skip(1).skip(n as int) =~= l.skip(1 + n as int));
    }
    crate::text::lemma_trim_start_suffix(l);
}

/// The added and the removed lines are counted apart.
pub proof fn changes_are_counted(v: Seq<LineChange>, c: LineChange, what: LineChange)
    ensures
        tally(Seq::empty(), what) == 0,
        c == what ==> tally(v.push(c), what) == tally(v, what) + 1,
        c != what ==> tally(v.push(c), what) == tally(v, what),
{
    assert(v.push(c).drop_last() =~= v);
}

// ───────────────────────────── diagnostics ─────────────────────────────

/// Only errors are reported, as many as twenty of them, and how many more there are.
pub proof fn errors_are_reported(issues: Seq<Diagnostic>, d: Diagnostic, i: int)
    ensures
        errors_in(issues).contains(d) <==> issues.contains(d) && d.severity == 1,
        error_lines(issues).len() == (if issues.len() < 20 {
            issues.len() as int
        } else {
            20
        }),
        0 <= i < error_lines(issues).len() ==> error_lines(issues)[i] == error_line(issues[i]),
        error_line(d) == "ERROR ["@ + decimal((d.line + 1) as nat) + ":"@ + decimal((d.character + 1) as nat) + "] "@
            + d.message@,
{
    let pred = |x: Diagnostic| x.severity == 1;
    let f = issues.filter(pred);
    if f.contains(d) {
        issues.lemma_filter_contains_rev(pred, d);
        let k = choose|k: int| 0 <= k < f.len() && f[k] == d;
        issues.lemma_filter_pred(pred, k);
    }
    if issues.contains(d) && pred(d) {
        let k = choose|k: int| 0 <= k < issues.len() && issues[k] == d;
        issues.lemma_filter_contains(pred, k);
    }
}

/// A report names its file and holds its errors, between its tags.
pub proof fn reports_name_their_file(file: Seq<char>, errors: Seq<Diagnostic>)
    ensures
        errors.len() <= 20 ==> reported(file, errors) == "<diagnostics file=\""@ + file + "\">\n"@ + join(
            error_lines(errors),
            "\n"@,
        ) + Seq::<char>::empty() + "\n</diagnostics>"@,
        errors.len() > 20 ==> reported(file, errors) == "<diagnostics file=\""@ + file + "\">\n"@ + join(
            error_lines(errors),
            "\n"@,
        ) + ("\n... and "@ + decimal((errors.len() - 20) as nat) + " more"@) + "\n</diagnostics>"@,
{
}

/// The value of a hexadecimal digit in ASCII, large or small.
pub proof fn hexadecimal_bytes(d: int)
    requires
        0 <= d < 16,
    ensures
        d < 10 ==> hex_value((48 + d) as u8) == Some(d),
        d >= 10 ==> hex_value((87 + d) as u8) == Some(d) && hex_value((55 + d) as u8) == Some(d),
{
}

/// A byte written by two digits behind a percent sign is read as that byte; a byte that is no
/// percent sign is read as itself.
pub proof fn escaped_bytes_are_read(a: u8, b: u8, x: int, y: int, rest: Seq<u8>, plain: u8)
    requires
        hex_value(a) == Some(x),
        hex_value(b) == Some(y),
        plain != 37,
    ensures
        unescaped(Seq::empty()).len() == 0,
        unescaped(seq![37u8, a, b] + rest) == seq![(16 * x + y) as u8] + unescaped(rest),
        unescaped(seq![plain] + rest) == seq![plain] + unescaped(rest),
{
    let s = seq![37u8, a, b] + rest;
    assert(s[0] == 37 && s[1] == a && s[2] == b);
    assert(s.skip(3) =~= rest);
    assert(a != 43);
    let t = seq![plain] + rest;
    assert(t.skip(1) =~= rest);
    assert(t[0] == plain);
}

/// How a server wants changes: as it says, by a number or within an object, else whole.
pub proof fn servers_say_how_they_sync(n: i64)
    ensures
        kind_of(SyncCapability::Number(Some(n))) == n,
        kind_of(SyncCapability::Object(Some(n))) == n,
        kind_of(SyncCapability::Number(None)) == 1,
        kind_of(SyncCapability::Object(None)) == 1,
        kind_of(SyncCapability::Other) == 1,
{
}

/// A text has one line more than it has line feeds.
pub proof fn lines_are_counted(s: Seq<char>, c: char)
    ensures
        line_feeds(Seq::empty()) == 0,
        line_feeds(s.push(c)) == line_feeds(s) + (if c == '\n' {
            1nat
        } else {
            0
        }),
        line_feeds(s) < u64::MAX ==> line_total(s) == line_feeds(s) + 1,
{
    assert(s.push(c).drop_last() =~= s);
}

/// A document is opened under its language and as its first version; a change names its
/// version, and the range where only a part is replaced.
pub proof fn documents_are_told(path: Seq<char>, language: Seq<char>, text: Seq<char>, version: i32, line: u64)
    ensures
        uri_of(path) == "file://"@ + path,
        notice(path, language, text, Touch::Open).0 == "textDocument/didOpen"@,
        notice(path, language, text, Touch::Change { version, until: None }).0 == "textDocument/didChange"@,
        notice(path, language, text, Touch::Open).1 == "{\"textDocument\":{\"uri\":"@ + quoted("file://"@ + path)
            + ",\"languageId\":"@ + quoted(language) + ",\"version\":1,\"text\":"@ + quoted(text) + "}}"@,
        notice(path, language, text, Touch::Change { version, until: Some(line) }).1 == "{\"textDocument\":{\"uri\":"@ + quoted(
            "file://"@ + path,
        ) + ",\"version\":"@ + signed(version as int) + "},\"contentChanges\":[{"@
            + ("\"range\":{\"start\":{\"line\":0,\"character\":0},\"end\":{\"line\":"@ + decimal(line as nat)
            + ",\"character\":0}},"@) + "\"text\":"@ + quoted(text) + "}]}"@,
        version >= 0 ==> signed(version as int) == decimal(version as nat),
{
}

/// A wait is as long as was set, where that is a number; it may have a plus in front.
pub proof fn waits_are_set(n: nat)
    requires
        n <= u64::MAX,
    ensures
        wait_time(Some(decimal(n))) == n,
        wait_time(Some("+"@ + decimal(n))) == n,
        wait_time(None) == 5_000,
        DIAGNOSTICS_DEBOUNCE == 150,
{
    crate::laws::text::numbers_are_read_back(n, u64::MAX as nat);
    reveal_strlit("+");
    let d = decimal(n);
    let p = "+"@ + d;
    assert("+"@.len() == 1);
    assert(p.subrange(0, 1) =~= "+"@);
    assert(p.skip(1) =~= d);
    if starts_with(d, "+"@) {
        assert(d[0] == d.subrange(0, 1)[0]);
        assert(crate::text::is_digit(d[0]));
    }
}

/// A running server is used; one that failed, or that is not there, is not started again.
pub proof fn servers_are_used_or_started(
    clients: Map<Seq<char>, LspClientView>,
    failed: Map<Seq<char>, LspFailureView>,
    key: Seq<char>,
    on_path: bool,
)
    ensures
        clients.contains_key(key) ==> step_for(clients, failed, key, on_path) == ClientStep::Use(clients[key].ticket),
        !clients.contains_key(key) && (failed.contains_key(key) || !on_path) ==> step_for(clients, failed, key, on_path)
            == ClientStep::Nobody,
        !clients.contains_key(key) && !failed.contains_key(key) && on_path ==> step_for(clients, failed, key, on_path)
            == ClientStep::Start,
{
}

/// The status names the running servers first and then those that failed, with why.
pub proof fn servers_have_a_status(
    clients: Seq<(Seq<char>, LspClientView)>,
    failed: Seq<(Seq<char>, LspFailureView)>,
    i: int,
)
    ensures
        all_statuses(clients, failed).len() == clients.len() + failed.len(),
        0 <= i < clients.len() ==> {
            let s = all_statuses(clients, failed)[i];
            s.id == clients[i].1.id && s.name == clients[i].1.name && s.root == clients[i].1.root && s.status == "connected"@
        },
        0 <= i < failed.len() ==> {
            let s = all_statuses(clients, failed)[clients.len() + i];
            s.id == failed[i].1.id && s.name == failed[i].1.id && s.root == failed[i].1.root && s.status == "error: "@
                + failed[i].1.error
        },
{
}

// ───────────────────────────── permission panel ─────────────────────────────

/// The choices are, in order: once, always, reject.
pub proof fn choices_are_in_order()
    ensures
        after(PermChoice::Once) == PermChoice::Always,
        after(PermChoice::Always) == PermChoice::Reject,
        before(PermChoice::Once) == PermChoice::Reject,
{
}

/// What is asked for is shown: of a write its file and the diff, or else the content; of a
/// command its lines and what it is for; of other directories these; of a loop that it is
/// one; of anything else its patterns and what is known of it. Full, more of it.
pub proof fn requests_show_what_is_asked(
    permission: Seq<char>,
    patterns: Seq<Seq<char>>,
    f: FactsView,
    diff: Seq<LineView>,
    full: bool,
)
    ensures
        ({
            let b = body(permission, patterns, f, diff, full);
            let text = toned(Tone::Text);
            let head = if f.file is Some {
                1int
            } else {
                0int
            };
            let write = permission == "edit"@ || permission == "write"@ || permission == "apply_patch"@;
            &&& write && f.diff is Some ==> b.len() == head + diff.len() && b.skip(head) == diff
            &&& write && (f.file matches Some(p)) ==> b.len() > 0 && b[0].len() == 1 && b[0][0].text == f.file->0
                && b[0][0].style.bold
            &&& write && f.diff is None && f.content is None ==> b.len() == head
            &&& write && f.diff is None && f.content is Some ==> b.skip(head) == styled_lines(
                lines(f.content->0),
                if full {
                    2000
                } else {
                    20
                },
                text,
            )
            &&& !write && permission == "external_directory"@ && permission != "bash"@ ==> b == styled_lines(
                patterns,
                patterns.len() as int,
                text,
            )
        }),
{
    let b = body(permission, patterns, f, diff, full);
    let head = if f.file is Some {
        1int
    } else {
        0int
    };
    let write = permission == "edit"@ || permission == "write"@ || permission == "apply_patch"@;
    if write && f.diff is Some {
        assert(b.skip(head) =~= diff);
    }
    if write && f.diff is None && f.content is Some {
        assert(b.skip(head) =~= styled_lines(
            lines(f.content->0),
            if full {
                2000
            } else {
                20
            },
            toned(Tone::Text),
        ));
    }
}

/// A command is shown line by line, each behind a dollar sign, and then what it is for.
pub proof fn commands_are_shown(patterns: Seq<Seq<char>>, f: FactsView, diff: Seq<LineView>, full: bool, c: Seq<char>, i: int)
    requires
        f.command == Some(c),
        0 <= i < lines(c).len(),
    ensures
        ({
            let b = body("bash"@, patterns, f, diff, full);
            &&& b.len() == lines(c).len() + (if f.description is Some {
                1int
            } else {
                0int
            })
            &&& b[i].len() == 2 && b[i][0].text == "$ "@ && b[i][1].text == lines(c)[i]
            &&& f.description matches Some(d) ==> b.last().len() == 1 && b.last()[0].text == d
        }),
{
    reveal_strlit("bash");
    reveal_strlit("edit");
    reveal_strlit("write");
    reveal_strlit("apply_patch");
    assert("bash"@.len() == 4 && "edit"@.len() == 4 && "write"@.len() == 5 && "apply_patch"@.len() == 11);
    assert("bash"@[0] != "edit"@[0]);
}

/// At most so many lines are shown, from the first on, in one style.
pub proof fn lines_are_cut(v: Seq<Seq<char>>, n: int, i: int)
    requires
        n >= 0,
    ensures
        styled_lines(v, n, toned(Tone::Text)).len() == (if v.len() <= n {
            v.len() as int
        } else {
            n
        }),
        0 <= i < styled_lines(v, n, toned(Tone::Text)).len() ==> styled_lines(v, n, toned(Tone::Text))[i].len() == 1
            && styled_lines(v, n, toned(Tone::Text))[i][0].text == v[i],
{
}

/// A panel takes six rows at least, and no more than there are.
pub proof fn panels_fit_the_screen(n: int, max: u16)
    requires
        max >= 6,
    ensures
        6 <= rows(n, max) <= max,
        6 <= n <= max ==> rows(n, max) == n,
        n <= 6 ==> rows(n, max) == 6,
        n >= max ==> rows(n, max) == max,
{
}

/// Of the three buttons the chosen one stands out, and no other; `always` names what it
/// covers.
pub proof fn the_chosen_button_stands_out(choice: PermChoice, always: Seq<Seq<char>>)
    ensures
        ({
            let b = buttons(choice, always);
            &&& b.len() == 6
            &&& b[0].text == " Allow once "@ && b[4].text == " Reject "@
            &&& b[0].style.bold <==> choice == PermChoice::Once
            &&& b[2].style.bold <==> choice == PermChoice::Always
            &&& b[4].style.bold <==> choice == PermChoice::Reject
            &&& always.len() == 0 ==> b[2].text == " Allow always "@
            &&& always.len() > 0 ==> b[2].text == " Always: "@ + join(always, ", "@) + " "@
        }),
{
}

// ───────────────────────────── question panel ─────────────────────────────

/// One pick takes the place of another, unless there may be many.
pub proof fn picks_are_toggled(picked: Seq<usize>, at: usize, other: usize)
    ensures
        toggled(picked, at, false).len() == 1 && toggled(picked, at, false)[0] == at,
        !picked.contains(at) ==> toggled(picked, at, true) == picked.push(at),
        picked.contains(at) ==> toggled(picked, at, true).len() == picked.len() - 1,
        picked.no_duplicates() && picked.contains(at) ==> !toggled(picked, at, true).contains(at),
{
    if picked.contains(at) {
        picked.index_of_first_ensures(at);
        let k = picked.index_of_first(at)->0;
        let r = picked.remove(k);
        if picked.no_duplicates() && r.contains(at) {
            let i = choose|i: int| 0 <= i < r.len() && r[i] == at;
            let j = if i < k {
                i
            } else {
                i + 1
            };
            assert(picked[j] == at && j != k);
        }
    }
}

/// An answer is the labels that were picked, in the order of the picks, and then what was
/// typed, if it is anything.
pub proof fn answers_are_labels(picked: Seq<usize>, more: usize, typed: Seq<char>, options: Seq<QuestionOption>)
    ensures
        picked_labels(Seq::empty(), options).len() == 0,
        more < options.len() ==> picked_labels(picked.push(more), options) == picked_labels(picked, options).push(
            options[more as int].label@,
        ),
        more >= options.len() ==> picked_labels(picked.push(more), options) == picked_labels(picked, options),
        answer(picked, None, options) == picked_labels(picked, options),
        trim(typed).len() > 0 ==> answer(picked, Some(typed), options) == picked_labels(picked, options).push(typed),
        trim(typed).len() == 0 ==> answer(picked, Some(typed), options) == picked_labels(picked, options),
{
    assert(picked.push(more).drop_last() =~= picked);
}

/// An option shows whether it is picked, in brackets where there may be many; its row stands
/// out under the cursor; what it means stands below.
pub proof fn options_are_shown(o: QuestionOption, many: bool, picked: bool, current: bool)
    ensures
        ({
            let r = option_lines(o, many, picked, current);
            &&& r.len() == (if o.description@.len() == 0 {
                1int
            } else {
                2int
            })
            &&& r[0].len() == 3
            &&& r[0][0].text == (if current {
                "▶ "@
            } else {
                "  "@
            })
            &&& many && picked ==> r[0][1].text == "[x] "@
            &&& many && !picked ==> r[0][1].text == "[ ] "@
            &&& !many && picked ==> r[0][1].text == "(•) "@
            &&& !many && !picked ==> r[0][1].text == "( ) "@
            &&& r[0][2].text == o.label@ && (r[0][2].style.bold <==> current)
            &&& o.description@.len() > 0 ==> r[1].len() == 1 && r[1][0].text == "      "@ + o.description@
        }),
{
}

/// Every option of the question has its lines, in order, picked where it is.
pub proof fn every_option_is_shown(p: QuestionPanel, q: Question, n: nat)
    ensures
        options_lines(p, q, 0).len() == 0,
        options_lines(p, q, n + 1) == options_lines(p, q, n) + option_lines(
            q.options@[n as int],
            q.multiple == Some(true),
            p.selected@[p.tab as int]@.contains(n as usize),
            n == p.cursor,
        ),
{
}

/// A question stands above its options; an answer of one's own is the last row, unless it is
/// not wanted; several questions have tabs.
pub proof fn questions_are_shown(p: QuestionPanel, req: QuestionRequest)
    requires
        p.fits(req),
    ensures
        ({
            let q = req.questions@[p.tab as int];
            let v = question_lines(p, req);
            let opts = options_lines(p, q, q.options@.len());
            let at = if req.questions@.len() > 1 {
                1int
            } else {
                0int
            };
            let own = q.custom != Some(false);
            &&& v.len() == at + 2 + opts.len() + (if own {
                1int
            } else {
                0int
            }) + 2
            &&& v[at].len() == 1 && v[at][0].text == q.question@ && v[at][0].style.bold
            &&& v.subrange(at + 2, at + 2 + opts.len() as int) == opts
            &&& own ==> v[at + 2 + opts.len() as int].len() == 3 && v[at + 2 + opts.len() as int][2].text == (
            match p.custom@[p.tab as int] {
                Some(t) => t@,
                None => "Type your own answer…"@,
            })
        }),
{
    let q = req.questions@[p.tab as int];
    let v = question_lines(p, req);
    let opts = options_lines(p, q, q.options@.len());
    let at = if req.questions@.len() > 1 {
        1int
    } else {
        0int
    };
    assert(v.subrange(at + 2, at + 2 + opts.len() as int) =~= opts);
}

/// A tab is marked where its question is answered, and stands out where it is the one that is
/// shown.
pub proof fn tabs_are_marked(header: Seq<char>, done: bool, current: bool)
    ensures
        tab_spans(header, done, current).len() == 2,
        done ==> tab_spans(header, done, current)[0].text == " "@ + header + " ✓"@ + " "@,
        !done ==> tab_spans(header, done, current)[0].text == " "@ + header + Seq::<char>::empty() + " "@,
        tab_spans(header, done, current)[0].style.bold <==> current,
{
}

/// A loop of calls is warned of; anything else shows its patterns, and then at most twelve lines
/// of what is known of it, or five hundred where there is room.
pub proof fn other_requests_are_shown(
    permission: Seq<char>,
    patterns: Seq<Seq<char>>,
    f: FactsView,
    diff: Seq<LineView>,
    full: bool,
)
    requires
        permission != "edit"@ && permission != "write"@ && permission != "apply_patch"@ && permission != "bash"@
            && permission != "external_directory"@,
    ensures
        ({
            let b = body(permission, patterns, f, diff, full);
            let shown = match f.listing {
                Some(t) => lines(t).len() as int,
                None => 0,
            };
            let most = if full {
                500
            } else {
                12
            };
            &&& permission == "doom_loop"@ ==> b.len() == 1 && b[0].len() == 1 && b[0][0].text
                == "The model is repeating the same tool call. Continue?"@ && b[0][0].style.tone == Tone::Warning
            &&& permission != "doom_loop"@ ==> b.len() == patterns.len() + (if shown < most {
                shown
            } else {
                most
            })
            &&& permission != "doom_loop"@ ==> forall|i: int|
                0 <= i < patterns.len() ==> (#[trigger] b[i]).len() == 1 && b[i][0].text == patterns[i]
            &&& permission != "doom_loop"@ ==> forall|i: int|
                patterns.len() <= i < b.len() ==> (#[trigger] b[i]).len() == 1 && b[i][0].text == lines(f.listing->0)[i
                    - patterns.len()]
        }),
{
}

/// What is known of a request is read from where it is put.
pub proof fn facts_are_read(meta: Seq<char>)
    ensures
        ({
            let f = crate::panels::facts_in(meta);
            &&& f.diff == crate::json::as_text(crate::json::json_at(meta, "/diff"@))
            &&& f.content == crate::json::as_text(crate::json::json_at(meta, "/content"@))
            &&& f.command == crate::json::as_text(crate::json::json_at(meta, "/command"@))
            &&& f.description == crate::json::as_text(crate::json::json_at(meta, "/description"@))
            &&& crate::json::json_at(meta, "/filePath"@) is Some ==> f.file == crate::json::as_text(
                crate::json::json_at(meta, "/filePath"@),
            )
            &&& crate::json::json_at(meta, "/filePath"@) is None ==> f.file == crate::json::as_text(
                crate::json::json_at(meta, "/filepath"@),
            )
        }),
{
}

/// The diff that is shown is that of the two texts under the path, trimmed.
pub proof fn shown_diffs_are_trimmed(path: Seq<char>, old_text: Seq<char>, new_text: Seq<char>)
    ensures
        crate::edit::prompt_diff(path, old_text, new_text) == crate::edit::trimmed_diff(
            crate::edit::unified(path, old_text, new_text),
        ),
{
}

/// The row under the cursor, the tab that is shown and the chosen button have a ground of their
/// own.
pub proof fn what_is_current_has_a_ground(
    o: QuestionOption,
    many: bool,
    picked: bool,
    current: bool,
    typed: Option<Seq<char>>,
    chosen: PermChoice,
    always: Seq<Seq<char>>,
)
    ensures
        forall|k: int|
            0 <= k < 3 ==> ((#[trigger] option_lines(o, many, picked, current)[0][k]).style.ground
                == crate::panels::Ground::Element <==> current),
        forall|k: int|
            0 <= k < 3 ==> ((#[trigger] crate::panels::own_row(typed, current)[k]).style.ground
                == crate::panels::Ground::Element <==> current),
        crate::panels::own_row(typed, current)[0].text == option_lines(o, many, picked, current)[0][0].text,
        buttons(chosen, always)[0].style.ground == (if chosen == PermChoice::Once {
            crate::panels::Ground::Primary
        } else {
            crate::panels::Ground::Element
        }),
        buttons(chosen, always)[2].style.ground == (if chosen == PermChoice::Always {
            crate::panels::Ground::Primary
        } else {
            crate::panels::Ground::Element
        }),
        buttons(chosen, always)[4].style.ground == (if chosen == PermChoice::Reject {
            crate::panels::Ground::Error
        } else {
            crate::panels::Ground::Element
        }),
{
}

/// A diagnostic is read from where a server puts it; its severity is that of an error where none
/// is given.
pub proof fn diagnostics_are_read(d: Diagnostic, doc: Seq<char>, at: Seq<char>)
    requires
        crate::lsp::is_diagnostic(d, doc, at),
    ensures
        crate::lsp::as_u64(crate::json::json_at(doc, at + "/severity"@)) is None ==> d.severity == 1,
        crate::lsp::as_u64(crate::json::json_at(doc, at + "/severity"@)) matches Some(n) ==> (n < 256 ==> d.severity == n),
        crate::lsp::as_u64(crate::json::json_at(doc, at + "/range/start/line"@)) matches Some(n) ==> (n < 0x1_0000_0000
            ==> d.line == n),
        crate::lsp::as_u64(crate::json::json_at(doc, at + "/range/start/character"@)) matches Some(n) ==> (n
            < 0x1_0000_0000 ==> d.character == n),
        crate::lsp::as_u64(crate::json::json_at(doc, at + "/range/start/line"@)) is None ==> d.line == 0,
        crate::lsp::as_u64(crate::json::json_at(doc, at + "/range/start/character"@)) is None ==> d.character == 0,
        crate::json::json_at(doc, at + "/message"@) matches Some(crate::json::LeafView::Text(t)) ==> d.message@ == t,
{
}

/// A number in JSON is read as itself.
pub proof fn numbers_in_json_are_read(n: nat)
    requires
        n <= i64::MAX,
    ensures
        crate::lsp::as_u64(Some(crate::json::LeafView::Number(decimal(n)))) == Some(n as u64),
        crate::lsp::as_i64(Some(crate::json::LeafView::Number(decimal(n)))) == Some(n as i64),
        crate::lsp::as_i64(Some(crate::json::LeafView::Number("-"@ + decimal(n)))) == Some((-(n as int)) as i64),
{
    reveal_strlit("-");
    crate::laws::text::numbers_are_read_back(n, u64::MAX as nat);
    crate::laws::text::numbers_are_read_back(n, i64::MAX as nat);
    crate::laws::text::numbers_are_read_back(n, 0x8000_0000_0000_0000);
    let d = decimal(n);
    let m = "-"@ + d;
    assert("-"@.len() == 1);
    assert(m.subrange(0, 1) =~= "-"@);
    assert(m.skip(1) =~= d);
    if starts_with(d, "-"@) {
        assert(d[0] == d.subrange(0, 1)[0]);
        assert(crate::text::is_digit(d[0]));
    }
}

/// How a server syncs stands in its capabilities, as a number or within an object.
pub proof fn sync_is_read(result: Seq<char>)
    ensures
        (crate::json::json_at(result, "/capabilities/textDocumentSync"@) matches Some(crate::json::LeafView::Number(_))) ==> crate::lsp::sync_in(result)
            == SyncCapability::Number(
            crate::lsp::as_i64(crate::json::json_at(result, "/capabilities/textDocumentSync"@)),
        ),
        (crate::json::json_at(result, "/capabilities/textDocumentSync"@) matches Some(crate::json::LeafView::Members(_))) ==> crate::lsp::sync_in(result)
            == SyncCapability::Object(
            crate::lsp::as_i64(crate::json::json_at(result, "/capabilities/textDocumentSync/change"@)),
        ),
{
}

} // verus!
