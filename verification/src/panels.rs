//! Bottom panels that replace the prompt: permission request and question. What
//! they show, as styled lines, and how they react; drawing is left to the
//! caller.

use crate::json::{as_text, json_at, json_indented, json_leaf, json_pretty, json_text, JsonLeaf, LeafView};
use crate::text::{join, joined, lines, lines_of, opt_text, same, texts, trim, trimmed};
use vstd::prelude::*;

verus! {

// ───────────────────────────── styled text ─────────────────────────────

#[derive(Debug, Clone, Copy, PartialEq, Eq, Structural)]
pub enum Tone {
    Plain,
    Text,
    TextMuted,
    Primary,
    Warning,
    Background,
}

#[derive(Debug, Clone, Copy, PartialEq, Eq, Structural)]
pub enum Ground {
    Plain,
    Element,
    Primary,
    Error,
}

#[derive(Debug, Clone, Copy, PartialEq, Eq, Structural)]
pub struct TextStyle {
    pub tone: Tone,
    pub ground: Ground,
    pub bold: bool,
}

pub open spec fn style(tone: Tone, ground: Ground, bold: bool) -> TextStyle {
    TextStyle { tone, ground, bold }
}

pub open spec fn toned(tone: Tone) -> TextStyle {
    style(tone, Ground::Plain, false)
}

#[derive(Debug)]
pub struct StyledSpan {
    pub text: String,
    pub style: TextStyle,
}

pub struct SpanView {
    pub text: Seq<char>,
    pub style: TextStyle,
}

impl View for StyledSpan {
    type V = SpanView;

    open spec fn view(&self) -> SpanView {
        SpanView { text: self.text@, style: self.style }
    }
}

#[derive(Debug)]
pub struct StyledLine {
    pub spans: Vec<StyledSpan>,
}

pub type LineView = Seq<SpanView>;

impl View for StyledLine {
    type V = Seq<SpanView>;

    open spec fn view(&self) -> Seq<SpanView> {
        Seq::new(self.spans@.len(), |i: int| self.spans@[i]@)
    }
}

pub open spec fn line_views(v: Seq<StyledLine>) -> Seq<LineView> {
    Seq::new(v.len(), |i: int| v[i]@)
}

pub open spec fn span(text: Seq<char>, style: TextStyle) -> SpanView {
    SpanView { text, style }
}

fn mk_style(tone: Tone, ground: Ground, bold: bool) -> (s: TextStyle)
    ensures
        s == style(tone, ground, bold),
{
    TextStyle { tone, ground, bold }
}

fn add_span(line: &mut StyledLine, text: &str, style: TextStyle)
    ensures
        final(line)@ == old(line)@.push(span(text@, style)),
{
    let ghost was = line@;
    line.spans.push(StyledSpan { text: text.to_owned(), style });
    assert(line@ =~= was.push(span(text@, style)));
}

fn empty_line() -> (l: StyledLine)
    ensures
        l@ == Seq::<SpanView>::empty(),
{
    let l = StyledLine { spans: Vec::new() };
    assert(l@ =~= Seq::empty());
    l
}

/// A line in one style.
pub open spec fn one(text: Seq<char>, style: TextStyle) -> LineView {
    seq![span(text, style)]
}

fn line_of(text: &str, style: TextStyle) -> (l: StyledLine)
    ensures
        l@ == one(text@, style),
{
    let mut l = empty_line();
    add_span(&mut l, text, style);
    assert(l@ =~= one(text@, style));
    l
}

fn add_line(out: &mut Vec<StyledLine>, l: StyledLine)
    ensures
        line_views(final(out)@) == line_views(old(out)@).push(l@),
{
    let ghost was = line_views(out@);
    let ghost lv = l@;
    out.push(l);
    assert(line_views(out@) =~= was.push(lv));
}

/// At most the first `n` of some texts, each as a line in one style.
pub open spec fn styled_lines(v: Seq<Seq<char>>, n: int, style: TextStyle) -> Seq<LineView> {
    Seq::new(
        if v.len() <= n {
            v.len()
        } else {
            n as nat
        },
        |i: int| one(v[i], style),
    )
}

fn add_styled(out: &mut Vec<StyledLine>, v: &Vec<String>, n: usize, style: TextStyle)
    ensures
        line_views(final(out)@) == line_views(old(out)@) + styled_lines(texts(v@), n as int, style),
{
    let ghost start = line_views(out@);
    let ghost all = styled_lines(texts(v@), n as int, style);
    let k: usize = if v.len() <= n {
        v.len()
    } else {
        n
    };
    let mut i: usize = 0;
    assert(start + all.take(0) =~= start);
    while i < k
        invariant
            i <= k,
            k <= v@.len(),
            k == all.len(),
            all == styled_lines(texts(v@), n as int, style),
            line_views(out@) == start + all.take(i as int),
        decreases k - i,
    {
        add_line(out, line_of(v[i].as_str(), style));
        assert(all.take(i + 1) =~= all.take(i as int).push(one(v@[i as int]@, style)));
        i += 1;
        assert(line_views(out@) =~= start + all.take(i as int));
    }
    assert(all.take(i as int) =~= all);
}

// ───────────────────────────── permission ─────────────────────────────

#[derive(Debug, Clone, Copy, PartialEq, Eq, Structural)]
pub enum PermChoice {
    Once,
    Always,
    Reject,
}

pub open spec fn after(c: PermChoice) -> PermChoice {
    match c {
        PermChoice::Once => PermChoice::Always,
        PermChoice::Always => PermChoice::Reject,
        PermChoice::Reject => PermChoice::Once,
    }
}

pub open spec fn before(c: PermChoice) -> PermChoice {
    match c {
        PermChoice::Once => PermChoice::Reject,
        PermChoice::Always => PermChoice::Once,
        PermChoice::Reject => PermChoice::Always,
    }
}

/// Forth and back, or back and forth, leads to where one was; three steps go
/// round.
pub proof fn choices_go_round(c: PermChoice)
    ensures
        before(after(c)) == c,
        after(before(c)) == c,
        after(after(after(c))) == c,
{
}

#[derive(Debug)]
pub struct PermissionPanel {
    pub choice: PermChoice,
    pub fullscreen: bool,
    pub scroll: u16,
}

impl Default for PermissionPanel {
    fn default() -> (r: Self)
        ensures
            r.choice == PermChoice::Once,
            !r.fullscreen,
            r.scroll == 0,
    {
        PermissionPanel { choice: PermChoice::Once, fullscreen: false, scroll: 0 }
    }
}

/// A request for permission. `metadata` is JSON text.
#[derive(Debug)]
pub struct PermissionRequest {
    pub permission: String,
    pub patterns: Vec<String>,
    pub always: Vec<String>,
    pub metadata: String,
}

/// Whether the request is to write a file.
pub open spec fn is_write(permission: Seq<char>) -> bool {
    permission == "edit"@ || permission == "write"@ || permission == "apply_patch"@
}

/// What is known of a request, as far as it is shown.
#[derive(Debug)]
pub struct PermissionFacts {
    /// the file that is to be written
    pub file: Option<String>,
    pub diff: Option<String>,
    pub content: Option<String>,
    pub command: Option<String>,
    pub description: Option<String>,
    /// all that is known, as indented JSON, where it is more than nothing
    pub listing: Option<String>,
}

pub struct FactsView {
    pub file: Option<Seq<char>>,
    pub diff: Option<Seq<char>>,
    pub content: Option<Seq<char>>,
    pub command: Option<Seq<char>>,
    pub description: Option<Seq<char>>,
    pub listing: Option<Seq<char>>,
}

impl View for PermissionFacts {
    type V = FactsView;

    open spec fn view(&self) -> FactsView {
        FactsView {
            file: opt_text(self.file),
            diff: opt_text(self.diff),
            content: opt_text(self.content),
            command: opt_text(self.command),
            description: opt_text(self.description),
            listing: opt_text(self.listing),
        }
    }
}

pub open spec fn meta_text(meta: Seq<char>, pointer: Seq<char>) -> Option<Seq<char>> {
    as_text(json_at(meta, pointer))
}

/// What JSON metadata says of a request. `filepath` counts only where there is no
/// `filePath`.
pub open spec fn facts_in(meta: Seq<char>) -> FactsView {
    FactsView {
        file: match json_at(meta, "/filePath"@) {
            Some(l) => as_text(Some(l)),
            None => meta_text(meta, "/filepath"@),
        },
        diff: meta_text(meta, "/diff"@),
        content: meta_text(meta, "/content"@),
        command: meta_text(meta, "/command"@),
        description: meta_text(meta, "/description"@),
        listing: match json_at(meta, ""@) {
            Some(LeafView::Members(m)) => if m.len() > 0 {
                Some(or_nothing(json_indented(meta)))
            } else {
                None
            },
            _ => None,
        },
    }
}

pub open spec fn or_nothing(t: Option<Seq<char>>) -> Seq<char> {
    match t {
        Some(t) => t,
        None => Seq::empty(),
    }
}

fn read_facts(meta: &str) -> (f: PermissionFacts)
    ensures
        f@ == facts_in(meta@),
{
    let file = match json_leaf(meta, "/filePath") {
        Some(JsonLeaf::Text(t)) => Some(t),
        Some(_) => None,
        None => json_text(meta, "/filepath"),
    };
    let filled = match json_leaf(meta, "") {
        Some(JsonLeaf::Members(m)) => {
            assert(texts(m@).len() == m@.len());
            m.len() > 0
        },
        _ => false,
    };
    let listing = if filled {
        Some(
            match json_pretty(meta) {
                Some(s) => s,
                None => String::new(),
            },
        )
    } else {
        None
    };
    PermissionFacts {
        file,
        diff: json_text(meta, "/diff"),
        content: json_text(meta, "/content"),
        command: json_text(meta, "/command"),
        description: json_text(meta, "/description"),
        listing,
    }
}

pub open spec fn maybe_line(t: Option<Seq<char>>, style: TextStyle) -> Seq<LineView> {
    match t {
        Some(t) => seq![one(t, style)],
        None => Seq::empty(),
    }
}

/// The lines of a command, each behind a prompt.
pub open spec fn command_lines(c: Seq<char>) -> Seq<LineView> {
    let l = lines(c);
    Seq::new(
        l.len(),
        |i: int| seq![span("$ "@, toned(Tone::Primary)), span(l[i], toned(Tone::Text))],
    )
}

/// What a request shows: the file and its diff, or its content; the command; the
/// directories; or whatever else is known of it. `diff` are the lines of the
/// diff, which the caller draws.
pub open spec fn body(
    permission: Seq<char>,
    patterns: Seq<Seq<char>>,
    f: FactsView,
    diff: Seq<LineView>,
    full: bool,
) -> Seq<LineView> {
    let text = toned(Tone::Text);
    let muted = toned(Tone::TextMuted);
    if is_write(permission) {
        maybe_line(f.file, style(Tone::Text, Ground::Plain, true)) + (if f.diff is Some {
            diff
        } else {
            match f.content {
                Some(c) => styled_lines(
                    lines(c),
                    if full {
                        2000
                    } else {
                        20
                    },
                    text,
                ),
                None => Seq::empty(),
            }
        })
    } else if permission == "bash"@ {
        (match f.command {
            Some(c) => command_lines(c),
            None => Seq::empty(),
        }) + maybe_line(f.description, muted)
    } else if permission == "external_directory"@ {
        styled_lines(patterns, patterns.len() as int, text)
    } else if permission == "doom_loop"@ {
        seq![
            one(
                "The model is repeating the same tool call. Continue?"@,
                toned(Tone::Warning),
            ),
        ]
    } else {
        styled_lines(patterns, patterns.len() as int, text) + (match f.listing {
            Some(s) => styled_lines(
                lines(s),
                if full {
                    500
                } else {
                    12
                },
                muted,
            ),
            None => Seq::empty(),
        })
    }
}

/// What a request shows, by its metadata.
pub open spec fn request_body(req: PermissionRequest, diff: Seq<LineView>, full: bool) -> Seq<LineView> {
    body(req.permission@, texts(req.patterns@), facts_in(req.metadata@), diff, full)
}

fn add_commands(out: &mut Vec<StyledLine>, c: &str)
    ensures
        line_views(final(out)@) == line_views(old(out)@) + command_lines(c@),
{
    let ghost start = line_views(out@);
    let ghost all = command_lines(c@);
    let l = lines_of(c);
    let ghost g = lines(c@);
    assert(g.len() == l@.len());
    let mut i: usize = 0;
    assert(start + all.take(0) =~= start);
    while i < l.len()
        invariant
            i <= l@.len(),
            texts(l@) == g,
            g == lines(c@),
            all == command_lines(c@),
            line_views(out@) == start + all.take(i as int),
        decreases l@.len() - i,
    {
        let mut line = empty_line();
        add_span(&mut line, "$ ", mk_style(Tone::Primary, Ground::Plain, false));
        add_span(&mut line, l[i].as_str(), mk_style(Tone::Text, Ground::Plain, false));
        assert(g[i as int] == l@[i as int]@);
        assert(line@ =~= all[i as int]);
        add_line(out, line);
        assert(all.take(i + 1) =~= all.take(i as int).push(all[i as int]));
        i += 1;
        assert(line_views(out@) =~= start + all.take(i as int));
    }
    assert(all.take(i as int) =~= all);
}

fn add_maybe(out: &mut Vec<StyledLine>, t: &Option<String>, style: TextStyle)
    ensures
        line_views(final(out)@) == line_views(old(out)@) + maybe_line(
            opt_text(*t),
            style,
        ),
{
    let ghost start = line_views(out@);
    if let Some(t) = t {
        add_line(out, line_of(t.as_str(), style));
        assert(line_views(out@) =~= start + seq![one(t@, style)]);
    } else {
        assert(start + Seq::<LineView>::empty() =~= start);
    }
}

fn add_lines(out: &mut Vec<StyledLine>, more: Vec<StyledLine>)
    ensures
        line_views(final(out)@) == line_views(old(out)@) + line_views(more@),
{
    let ghost start = line_views(out@);
    let ghost all = line_views(more@);
    let mut more = more;
    out.append(&mut more);
    assert(line_views(out@) =~= start + all);
}

impl PermissionPanel {
    pub fn next(&mut self)
        ensures
            final(self).choice == after(old(self).choice),
            final(self).fullscreen == old(self).fullscreen,
            final(self).scroll == old(self).scroll,
    {
        self.choice = match self.choice {
            PermChoice::Once => PermChoice::Always,
            PermChoice::Always => PermChoice::Reject,
            PermChoice::Reject => PermChoice::Once,
        };
    }

    pub fn prev(&mut self)
        ensures
            final(self).choice == before(old(self).choice),
            final(self).fullscreen == old(self).fullscreen,
            final(self).scroll == old(self).scroll,
    {
        self.choice = match self.choice {
            PermChoice::Once => PermChoice::Reject,
            PermChoice::Always => PermChoice::Once,
            PermChoice::Reject => PermChoice::Always,
        };
    }

    /// The diff that a request shows, which the caller draws: all of it in the
    /// full view, 24 lines of it otherwise.
    pub fn diff_of(req: &PermissionRequest) -> (r: Option<String>)
        ensures
            opt_text(r) == (if is_write(req.permission@) {
                meta_text(req.metadata@, "/diff"@)
            } else {
                None
            }),
    {
        let p = req.permission.as_str();
        if same(p, "edit") || same(p, "write") || same(p, "apply_patch") {
            json_text(req.metadata.as_str(), "/diff")
        } else {
            None
        }
    }

    /// The body of the panel, from what is known of the request.
    pub fn lines_for(
        permission: &str,
        patterns: &Vec<String>,
        f: &PermissionFacts,
        diff: Vec<StyledLine>,
        full: bool,
    ) -> (r: Vec<StyledLine>)
        ensures
            line_views(r@) == body(permission@, texts(patterns@), f@, line_views(diff@), full),
    {
        let mut out: Vec<StyledLine> = Vec::new();
        assert(line_views(out@) =~= Seq::empty());
        let p = permission;
        let text = mk_style(Tone::Text, Ground::Plain, false);
        let muted = mk_style(Tone::TextMuted, Ground::Plain, false);
        assert(texts(patterns@).len() == patterns@.len());
        if same(p, "edit") || same(p, "write") || same(p, "apply_patch") {
            add_maybe(&mut out, &f.file, mk_style(Tone::Text, Ground::Plain, true));
            if f.diff.is_some() {
                add_lines(&mut out, diff);
            } else if let Some(c) = &f.content {
                let l = lines_of(c.as_str());
                let n: usize = if full {
                    2000
                } else {
                    20
                };
                add_styled(&mut out, &l, n, text);
            }
        } else if same(p, "bash") {
            if let Some(c) = &f.command {
                add_commands(&mut out, c.as_str());
            }
            add_maybe(&mut out, &f.description, muted);
        } else if same(p, "external_directory") {
            add_styled(&mut out, patterns, patterns.len(), text);
        } else if same(p, "doom_loop") {
            add_line(
                &mut out,
                line_of(
                    "The model is repeating the same tool call. Continue?",
                    mk_style(Tone::Warning, Ground::Plain, false),
                ),
            );
        } else {
            add_styled(&mut out, patterns, patterns.len(), text);
            if let Some(s) = &f.listing {
                let l = lines_of(s.as_str());
                let n: usize = if full {
                    500
                } else {
                    12
                };
                add_styled(&mut out, &l, n, muted);
            }
        }
        assert(line_views(out@) =~= body(
            permission@,
            texts(patterns@),
            f@,
            line_views(diff@),
            full,
        ));
        out
    }

    pub fn body_lines(req: &PermissionRequest, diff: Vec<StyledLine>, full: bool) -> (r: Vec<StyledLine>)
        ensures
            line_views(r@) == request_body(*req, line_views(diff@), full),
    {
        let f = read_facts(req.metadata.as_str());
        Self::lines_for(req.permission.as_str(), &req.patterns, &f, diff, full)
    }
}

/// `n` kept between six and `max`.
pub open spec fn rows(n: int, max: u16) -> u16 {
    if n < 6 {
        6
    } else if n > max {
        max
    } else {
        n as u16
    }
}

fn rows_of(n: u64, max: u16) -> (r: u16)
    requires
        max >= 6,
    ensures
        r == rows(n as int, max),
{
    if n < 6 {
        6
    } else if n > max as u64 {
        max
    } else {
        n as u16
    }
}

/// The low sixteen bits of a count.
pub open spec fn as_u16(n: nat) -> int {
    (n % 65536) as int
}

impl PermissionPanel {
    /// Desired height (rows including border) for the compact view. `diff` are
    /// the lines of the compact diff.
    pub fn height(&self, req: &PermissionRequest, diff: Vec<StyledLine>, max: u16) -> (h: u16)
        requires
            max >= 6,
        ensures
            h == rows(as_u16(request_body(*req, line_views(diff@), false).len()) + 5, max),
    {
        let lines = Self::body_lines(req, diff, false);
        assert(line_views(lines@).len() == lines@.len());
        let n: u64 = (lines.len() % 65536) as u64;
        rows_of(n + 5, max)
    }
}

/// A rectangle of the screen.
#[derive(Debug, Clone, Copy, PartialEq, Eq, Structural)]
pub struct Area {
    pub x: u16,
    pub y: u16,
    pub width: u16,
    pub height: u16,
}

/// What a permission panel draws within its border.
pub struct PermissionView {
    pub title: String,
    pub body: Vec<StyledLine>,
    pub body_area: Area,
    pub buttons: StyledLine,
    pub buttons_area: Area,
}

pub open spec fn always_label(always: Seq<Seq<char>>) -> Seq<char> {
    if always.len() == 0 {
        " Allow always "@
    } else {
        " Always: "@ + join(always, ", "@) + " "@
    }
}

pub open spec fn button_style(chosen: bool, ground: Ground) -> TextStyle {
    if chosen {
        style(Tone::Background, ground, true)
    } else {
        style(Tone::Text, Ground::Element, false)
    }
}

pub open spec fn permission_help() -> Seq<char> {
    "   ←/→ tab · enter · a/y once · A always · n/esc reject · r reason · shift+tab mode · ctrl+f full"@
}

pub open spec fn buttons(choice: PermChoice, always: Seq<Seq<char>>) -> LineView {
    seq![
        span(" Allow once "@, button_style(choice == PermChoice::Once, Ground::Primary)),
        span(" "@, toned(Tone::Plain)),
        span(always_label(always), button_style(choice == PermChoice::Always, Ground::Primary)),
        span(" "@, toned(Tone::Plain)),
        span(" Reject "@, button_style(choice == PermChoice::Reject, Ground::Error)),
        span(permission_help(), toned(Tone::TextMuted)),
    ]
}

fn mk_button(chosen: bool, ground: Ground) -> (s: TextStyle)
    ensures
        s == button_style(chosen, ground),
{
    if chosen {
        TextStyle { tone: Tone::Background, ground, bold: true }
    } else {
        TextStyle { tone: Tone::Text, ground: Ground::Element, bold: false }
    }
}

pub open spec fn less(a: int, b: int) -> int {
    if a > b {
        a - b
    } else {
        0
    }
}

impl PermissionPanel {
    fn button_line(&self, always: &Vec<String>) -> (l: StyledLine)
        ensures
            l@ == buttons(self.choice, texts(always@)),
    {
        let mut label = " Allow always ".to_owned();
        assert(texts(always@).len() == always@.len());
        if always.len() > 0 {
            label = " Always: ".to_owned();
            label.append(joined(always, ", ").as_str());
            label.append(" ");
        }
        let plain = mk_style(Tone::Plain, Ground::Plain, false);
        let mut l = empty_line();
        add_span(
            &mut l,
            " Allow once ",
            mk_button(self.choice == PermChoice::Once, Ground::Primary),
        );
        add_span(&mut l, " ", plain);
        add_span(
            &mut l,
            label.as_str(),
            mk_button(self.choice == PermChoice::Always, Ground::Primary),
        );
        add_span(&mut l, " ", plain);
        add_span(
            &mut l,
            " Reject ",
            mk_button(self.choice == PermChoice::Reject, Ground::Error),
        );
        add_span(
            &mut l,
            "   ←/→ tab · enter · a/y once · A always · n/esc reject · r reason · shift+tab mode · ctrl+f full",
            mk_style(Tone::TextMuted, Ground::Plain, false),
        );
        assert(l@ =~= buttons(self.choice, texts(always@)));
        l
    }

    /// What to draw within `inner`: the body above, the buttons on the last row.
    /// The body is not scrolled past its end.
    pub fn render(&mut self, inner: Area, req: &PermissionRequest, diff: Vec<StyledLine>, full: bool) -> (v:
        PermissionView)
        requires
            inner.y + less(inner.height as int, 1) <= u16::MAX,
        ensures
            v.title@ == " Permission: "@ + req.permission@ + " "@,
            line_views(v.body@) == request_body(*req, line_views(diff@), full),
            v.body_area == (Area { height: less(inner.height as int, 2) as u16, ..inner }),
            v.buttons@ == buttons(old(self).choice, texts(req.always@)),
            v.buttons_area == (Area {
                y: (inner.y + less(inner.height as int, 1)) as u16,
                height: 1,
                ..inner
            }),
            final(self).choice == old(self).choice,
            final(self).fullscreen == old(self).fullscreen,
            ({
                let most = less(as_u16(v.body@.len()), less(inner.height as int, 2));
                final(self).scroll == (if old(self).scroll < most {
                    old(self).scroll as int
                } else {
                    most
                })
            }),
    {
        let mut title = " Permission: ".to_owned();
        title.append(req.permission.as_str());
        title.append(" ");
        let body = Self::body_lines(req, diff, full);
        let body_h: u16 = if inner.height > 2 {
            inner.height - 2
        } else {
            0
        };
        let n: u16 = (body.len() % 65536) as u16;
        let most: u16 = if n > body_h {
            n - body_h
        } else {
            0
        };
        if self.scroll > most {
            self.scroll = most;
        }
        let last: u16 = if inner.height > 1 {
            inner.height - 1
        } else {
            0
        };
        PermissionView {
            title,
            body,
            body_area: Area { x: inner.x, y: inner.y, width: inner.width, height: body_h },
            buttons: self.button_line(&req.always),
            buttons_area: Area { x: inner.x, y: inner.y + last, width: inner.width, height: 1 },
        }
    }
}

// ───────────────────────────── question ─────────────────────────────

#[derive(Debug)]
pub struct QuestionOption {
    pub label: String,
    pub description: String,
}

/// A question. It takes one answer unless `multiple`, and an answer in one's own
/// words unless `custom` is off.
#[derive(Debug)]
pub struct Question {
    pub header: String,
    pub question: String,
    pub options: Vec<QuestionOption>,
    pub multiple: Option<bool>,
    pub custom: Option<bool>,
}

#[derive(Debug)]
pub struct QuestionRequest {
    pub questions: Vec<Question>,
}

impl Question {
    pub open spec fn takes_many(&self) -> bool {
        self.multiple == Some(true)
    }

    pub open spec fn takes_own(&self) -> bool {
        self.custom != Some(false)
    }

    fn is_multiple(&self) -> (b: bool)
        ensures
            b == self.takes_many(),
    {
        match self.multiple {
            Some(b) => b,
            None => false,
        }
    }

    fn is_open(&self) -> (b: bool)
        ensures
            b == self.takes_own(),
    {
        match self.custom {
            Some(b) => b,
            None => true,
        }
    }
}

#[derive(Debug)]
pub struct QuestionPanel {
    pub tab: usize,
    pub cursor: usize,
    /// Per-question selected option indexes.
    pub selected: Vec<Vec<usize>>,
    /// Per-question custom answers.
    pub custom: Vec<Option<String>>,
}

/// What a toggle makes of the options that are picked.
pub open spec fn toggled(picked: Seq<usize>, at: usize, many: bool) -> Seq<usize> {
    if !many {
        seq![at]
    } else if picked.contains(at) {
        picked.remove(picked.index_of_first(at)->0)
    } else {
        picked.push(at)
    }
}

/// Where several options may be picked, picking one and unpicking it again
/// changes nothing.
pub proof fn toggling_twice_is_nothing(picked: Seq<usize>, at: usize)
    requires
        !picked.contains(at),
    ensures
        toggled(toggled(picked, at, true), at, true) == picked,
{
    let once = picked.push(at);
    assert(once[picked.len() as int] == at);
    once.index_of_first_ensures(at);
    let i = once.index_of_first(at)->0;
    assert(i == picked.len()) by {
        if i < picked.len() {
            assert(picked[i] == at);
        }
    }
    assert(once.remove(i) =~= picked);
}

/// No option is picked twice, however often one toggles.
pub proof fn toggling_picks_nothing_twice(picked: Seq<usize>, at: usize, many: bool)
    requires
        picked.no_duplicates(),
    ensures
        toggled(picked, at, many).no_duplicates(),
{
    if many && picked.contains(at) {
        picked.index_of_first_ensures(at);
    }
}

/// The labels of the options that are picked; an index beyond the options
/// counts for nothing.
pub open spec fn picked_labels(picked: Seq<usize>, options: Seq<QuestionOption>) -> Seq<Seq<char>>
    decreases picked.len(),
{
    if picked.len() == 0 {
        Seq::empty()
    } else {
        let rest = picked_labels(picked.drop_last(), options);
        if picked.last() < options.len() {
            rest.push(options[picked.last() as int].label@)
        } else {
            rest
        }
    }
}

/// The answers to one question: what is picked, then what was typed, unless it
/// is blank.
pub open spec fn answer(
    picked: Seq<usize>,
    typed: Option<Seq<char>>,
    options: Seq<QuestionOption>,
) -> Seq<Seq<char>> {
    match typed {
        Some(c) => if trim(c).len() > 0 {
            picked_labels(picked, options).push(c)
        } else {
            picked_labels(picked, options)
        },
        None => picked_labels(picked, options),
    }
}

fn answer_of(picked: &Vec<usize>, typed: &Option<String>, options: &Vec<QuestionOption>) -> (v: Vec<
    String,
>)
    ensures
        texts(v@) == answer(picked@, opt_text(*typed), options@),
{
    let mut v: Vec<String> = Vec::new();
    let mut i: usize = 0;
    assert(texts(v@) =~= picked_labels(picked@.take(0), options@));
    while i < picked.len()
        invariant
            i <= picked@.len(),
            texts(v@) == picked_labels(picked@.take(i as int), options@),
        decreases picked@.len() - i,
    {
        let j: usize = picked[i];
        let ghost was = texts(v@);
        assert(picked@.take(i + 1).drop_last() =~= picked@.take(i as int));
        if j < options.len() {
            v.push(options[j].label.clone());
            assert(texts(v@) =~= was.push(options@[j as int].label@));
        }
        i += 1;
    }
    assert(picked@.take(i as int) =~= picked@);
    if let Some(c) = typed {
        let t = trimmed(c.as_str());
        if t.as_str().unicode_len() > 0 {
            let ghost was = texts(v@);
            v.push(c.clone());
            assert(texts(v@) =~= was.push(c@));
        }
    }
    v
}

impl QuestionPanel {
    /// There is a question on show, and the panel keeps an entry for each.
    pub open spec fn fits(&self, req: QuestionRequest) -> bool {
        &&& self.tab < req.questions@.len()
        &&& self.selected@.len() == req.questions@.len()
        &&& self.custom@.len() == req.questions@.len()
    }

    pub fn new(req: &QuestionRequest) -> (p: Self)
        ensures
            p.tab == 0,
            p.cursor == 0,
            p.selected@.len() == req.questions@.len(),
            p.custom@.len() == req.questions@.len(),
            forall|i: int|
                0 <= i < req.questions@.len() ==> (#[trigger] p.selected@[i])@ == Seq::<
                    usize,
                >::empty(),
            forall|i: int| 0 <= i < req.questions@.len() ==> (#[trigger] p.custom@[i]) is None,
            req.questions@.len() > 0 ==> p.fits(*req),
    {
        let mut selected: Vec<Vec<usize>> = Vec::new();
        let mut custom: Vec<Option<String>> = Vec::new();
        let n: usize = req.questions.len();
        let mut i: usize = 0;
        while i < n
            invariant
                i <= n,
                selected@.len() == i,
                custom@.len() == i,
                forall|j: int|
                    0 <= j < i ==> (#[trigger] selected@[j])@ == Seq::<usize>::empty(),
                forall|j: int| 0 <= j < i ==> (#[trigger] custom@[j]) is None,
            decreases n - i,
        {
            selected.push(Vec::new());
            custom.push(None);
            i += 1;
        }
        QuestionPanel { tab: 0, cursor: 0, selected, custom }
    }

    /// The rows one can move to: the options, and the row for an own answer.
    pub fn option_count(&self, req: &QuestionRequest) -> (n: usize)
        requires
            self.tab < req.questions@.len(),
            req.questions@[self.tab as int].options@.len() < usize::MAX,
        ensures
            n == req.questions@[self.tab as int].options@.len() + (if req.questions@[
                self.tab as int
            ].takes_own() {
                1int
            } else {
                0
            }),
    {
        let q = &req.questions[self.tab];
        if q.is_open() {
            q.options.len() + 1
        } else {
            q.options.len()
        }
    }

    pub fn is_custom_row(&self, req: &QuestionRequest) -> (b: bool)
        requires
            self.tab < req.questions@.len(),
        ensures
            b == (self.cursor >= req.questions@[self.tab as int].options@.len()),
    {
        self.cursor >= req.questions[self.tab].options.len()
    }

    /// Picks or unpicks the option under the cursor. Where only one answer is
    /// taken, it replaces what was picked and typed.
    pub fn toggle(&mut self, req: &QuestionRequest)
        requires
            old(self).fits(*req),
        ensures
            final(self).fits(*req),
            final(self).tab == old(self).tab,
            final(self).cursor == old(self).cursor,
            ({
                let t = old(self).tab as int;
                let q = req.questions@[t];
                let own = old(self).cursor >= q.options@.len();
                &&& final(self).selected@[t]@ == (if own {
                    old(self).selected@[t]@
                } else {
                    toggled(old(self).selected@[t]@, old(self).cursor, q.takes_many())
                })
                &&& final(self).custom@ == (if own || q.takes_many() {
                    old(self).custom@
                } else {
                    old(self).custom@.update(t, None)
                })
                &&& forall|i: int|
                    0 <= i < old(self).selected@.len() && i != t
                        ==> #[trigger] final(self).selected@[i] == old(self).selected@[i]
            }),
    {
        let q = &req.questions[self.tab];
        if self.is_custom_row(req) {
            return ;
        }
        let at: usize = self.cursor;
        let tab: usize = self.tab;
        let ghost picked = self.selected@[tab as int]@;
        let many = q.is_multiple();
        if many {
            let place = position(&self.selected[tab], at);
            let sel = &mut self.selected[tab];
            match place {
                Some(p) => {
                    sel.remove(p);
                },
                None => {
                    sel.push(at);
                },
            }
        } else {
            let mut one: Vec<usize> = Vec::new();
            one.push(at);
            self.selected.set(tab, one);
            self.custom.set(tab, None);
            assert(self.selected@[tab as int]@ =~= seq![at]);
        }
    }

    /// The answers, question by question.
    pub fn answers(&self, req: &QuestionRequest) -> (v: Vec<Vec<String>>)
        requires
            self.selected@.len() >= req.questions@.len(),
            self.custom@.len() >= req.questions@.len(),
        ensures
            v@.len() == req.questions@.len(),
            forall|i: int|
                0 <= i < v@.len() ==> texts((#[trigger] v@[i])@) == answer(
                    self.selected@[i]@,
                    opt_text(self.custom@[i]),
                    req.questions@[i].options@,
                ),
    {
        let mut v: Vec<Vec<String>> = Vec::new();
        let mut i: usize = 0;
        while i < req.questions.len()
            invariant
                i <= req.questions@.len(),
                self.selected@.len() >= req.questions@.len(),
                self.custom@.len() >= req.questions@.len(),
                v@.len() == i,
                forall|j: int|
                    0 <= j < v@.len() ==> texts((#[trigger] v@[j])@) == answer(
                        self.selected@[j]@,
                        opt_text(self.custom@[j]),
                        req.questions@[j].options@,
                    ),
            decreases req.questions@.len() - i,
        {
            v.push(answer_of(&self.selected[i], &self.custom[i], &req.questions[i].options));
            i += 1;
        }
        v
    }

    pub fn height(&self, req: &QuestionRequest, max: u16) -> (h: u16)
        requires
            self.tab < req.questions@.len(),
            max >= 6,
        ensures
            h == rows(as_u16(req.questions@[self.tab as int].options@.len()) * 2 + 6, max),
    {
        let n: u64 = (req.questions[self.tab].options.len() % 65536) as u64;
        rows_of(n * 2 + 6, max)
    }
}

/// The first place where `at` is picked.
fn position(v: &Vec<usize>, at: usize) -> (r: Option<usize>)
    ensures
        match r {
            Some(p) => p < v@.len() && v@.contains(at) && v@.index_of_first(at) == Some(p as int),
            None => !v@.contains(at),
        },
{
    let mut i: usize = 0;
    while i < v.len()
        invariant
            i <= v@.len(),
            forall|j: int| 0 <= j < i ==> v@[j] != at,
        decreases v@.len() - i,
    {
        if v[i] == at {
            proof {
                assert(v@[i as int] == at);
                v@.index_of_first_ensures(at);
            }
            return Some(i);
        }
        i += 1;
    }
    None
}

/// The head of one tab: its title, marked once it is answered, and a gap.
pub open spec fn tab_spans(header: Seq<char>, done: bool, current: bool) -> LineView {
    seq![
        span(
            " "@ + header + (if done {
                " ✓"@
            } else {
                Seq::empty()
            }) + " "@,
            if current {
                style(Tone::Primary, Ground::Element, true)
            } else {
                toned(Tone::TextMuted)
            },
        ),
        span(" "@, toned(Tone::Plain)),
    ]
}

/// The line of tabs for the first `n` questions.
pub open spec fn tabs(p: QuestionPanel, req: QuestionRequest, n: nat) -> LineView
    decreases n,
{
    if n == 0 {
        Seq::empty()
    } else {
        let i = n - 1;
        tabs(p, req, i as nat) + tab_spans(
            req.questions@[i].header@,
            p.selected@[i]@.len() > 0 || p.custom@[i] is Some,
            i == p.tab,
        )
    }
}

pub open spec fn glyph(many: bool, picked: bool) -> Seq<char> {
    if many {
        if picked {
            "[x] "@
        } else {
            "[ ] "@
        }
    } else if picked {
        "(•) "@
    } else {
        "( ) "@
    }
}

pub open spec fn row_ground(current: bool) -> Ground {
    if current {
        Ground::Element
    } else {
        Ground::Plain
    }
}

pub open spec fn marker(current: bool) -> SpanView {
    span(
        if current {
            "▶ "@
        } else {
            "  "@
        },
        style(Tone::Primary, row_ground(current), false),
    )
}

/// What one option shows: its row, and its description below it where it has one.
pub open spec fn option_lines(
    o: QuestionOption,
    many: bool,
    picked: bool,
    current: bool,
) -> Seq<LineView> {
    let row = seq![
        marker(current),
        span(glyph(many, picked), style(Tone::Primary, row_ground(current), false)),
        span(o.label@, style(Tone::Text, row_ground(current), current)),
    ];
    if o.description@.len() == 0 {
        seq![row]
    } else {
        seq![row, one("      "@ + o.description@, toned(Tone::TextMuted))]
    }
}

/// What the first `n` options of the question on show display.
pub open spec fn options_lines(p: QuestionPanel, q: Question, n: nat) -> Seq<LineView>
    decreases n,
{
    if n == 0 {
        Seq::empty()
    } else {
        let i = n - 1;
        options_lines(p, q, i as nat) + option_lines(
            q.options@[i],
            q.takes_many(),
            p.selected@[p.tab as int]@.contains(i as usize),
            i == p.cursor,
        )
    }
}

/// The row for an own answer.
pub open spec fn own_row(typed: Option<Seq<char>>, current: bool) -> LineView {
    seq![
        marker(current),
        span("✎ "@, style(Tone::Primary, row_ground(current), false)),
        span(
            match typed {
                Some(t) => t,
                None => "Type your own answer…"@,
            },
            style(Tone::TextMuted, row_ground(current), false),
        ),
    ]
}

/// All that the panel shows within its border: the tabs where there are several
/// questions, the question, its options, the row for an own answer, and the
/// keys.
pub open spec fn question_lines(p: QuestionPanel, req: QuestionRequest) -> Seq<LineView> {
    let q = req.questions@[p.tab as int];
    let n = q.options@.len();
    (if req.questions@.len() > 1 {
        seq![tabs(p, req, req.questions@.len())]
    } else {
        Seq::empty()
    }) + seq![
        one(q.question@, style(Tone::Text, Ground::Plain, true)),
        Seq::<SpanView>::empty(),
    ] + options_lines(p, q, n) + (if q.takes_own() {
        seq![own_row(opt_text(p.custom@[p.tab as int]), p.cursor == n)]
    } else {
        Seq::empty()
    }) + seq![
        Seq::<SpanView>::empty(),
        one(
            "↑/↓ move · space toggle · ←/→ questions · enter submit · esc dismiss"@,
            toned(Tone::TextMuted),
        ),
    ]
}

fn mk_ground(current: bool) -> (g: Ground)
    ensures
        g == row_ground(current),
{
    if current {
        Ground::Element
    } else {
        Ground::Plain
    }
}

fn marker_line(current: bool) -> (l: StyledLine)
    ensures
        l@ == seq![marker(current)],
{
    let mut l = empty_line();
    let s = if current {
        "▶ "
    } else {
        "  "
    };
    add_span(&mut l, s, mk_style(Tone::Primary, mk_ground(current), false));
    assert(l@ =~= seq![marker(current)]);
    l
}

fn add_option(
    out: &mut Vec<StyledLine>,
    o: &QuestionOption,
    many: bool,
    picked: bool,
    current: bool,
)
    ensures
        line_views(final(out)@) == line_views(old(out)@) + option_lines(*o, many, picked, current),
{
    let ghost start = line_views(out@);
    let g = if many {
        if picked {
            "[x] "
        } else {
            "[ ] "
        }
    } else if picked {
        "(•) "
    } else {
        "( ) "
    };
    let ghost all = option_lines(*o, many, picked, current);
    let mut l = marker_line(current);
    add_span(&mut l, g, mk_style(Tone::Primary, mk_ground(current), false));
    add_span(&mut l, o.label.as_str(), mk_style(Tone::Text, mk_ground(current), current));
    assert(l@ =~= all[0]);
    add_line(out, l);
    if o.description.as_str().unicode_len() > 0 {
        let mut t = "      ".to_owned();
        t.append(o.description.as_str());
        add_line(out, line_of(t.as_str(), mk_style(Tone::TextMuted, Ground::Plain, false)));
    }
    assert(line_views(out@) =~= start + all);
}

impl QuestionPanel {
    fn tab_line(&self, req: &QuestionRequest) -> (l: StyledLine)
        requires
            self.fits(*req),
        ensures
            l@ == tabs(*self, *req, req.questions@.len()),
    {
        let mut l = empty_line();
        let mut i: usize = 0;
        while i < req.questions.len()
            invariant
                i <= req.questions@.len(),
                self.fits(*req),
                l@ == tabs(*self, *req, i as nat),
            decreases req.questions@.len() - i,
        {
            let ghost was = l@;
            let done = self.selected[i].len() > 0 || self.custom[i].is_some();
            let mut t = " ".to_owned();
            t.append(req.questions[i].header.as_str());
            if done {
                t.append(" ✓");
            }
            t.append(" ");
            let st = if i == self.tab {
                mk_style(Tone::Primary, Ground::Element, true)
            } else {
                mk_style(Tone::TextMuted, Ground::Plain, false)
            };
            add_span(&mut l, t.as_str(), st);
            add_span(&mut l, " ", mk_style(Tone::Plain, Ground::Plain, false));
            let ghost spans = tab_spans(req.questions@[i as int].header@, done, i == self.tab);
            assert(t@ =~= spans[0].text);
            assert(l@ =~= was + spans);
            i += 1;
        }
        l
    }

    fn option_rows(&self, req: &QuestionRequest) -> (v: Vec<StyledLine>)
        requires
            self.fits(*req),
        ensures
            line_views(v@) == options_lines(
                *self,
                req.questions@[self.tab as int],
                req.questions@[self.tab as int].options@.len(),
            ),
    {
        let q = &req.questions[self.tab];
        let mut v: Vec<StyledLine> = Vec::new();
        assert(line_views(v@) =~= options_lines(*self, *q, 0));
        let many = q.is_multiple();
        let mut i: usize = 0;
        while i < q.options.len()
            invariant
                i <= q.options@.len(),
                self.fits(*req),
                *q == req.questions@[self.tab as int],
                many == q.takes_many(),
                line_views(v@) == options_lines(*self, *q, i as nat),
            decreases q.options@.len() - i,
        {
            let picked = position(&self.selected[self.tab], i).is_some();
            add_option(&mut v, &q.options[i], many, picked, i == self.cursor);
            i += 1;
        }
        v
    }

    /// What to draw within the border.
    pub fn render(&self, req: &QuestionRequest) -> (v: Vec<StyledLine>)
        requires
            self.fits(*req),
        ensures
            line_views(v@) == question_lines(*self, *req),
    {
        let q = &req.questions[self.tab];
        let mut v: Vec<StyledLine> = Vec::new();
        assert(line_views(v@) =~= Seq::empty());
        let muted = mk_style(Tone::TextMuted, Ground::Plain, false);
        if req.questions.len() > 1 {
            add_line(&mut v, self.tab_line(req));
        }
        add_line(
            &mut v,
            line_of(q.question.as_str(), mk_style(Tone::Text, Ground::Plain, true)),
        );
        add_line(&mut v, empty_line());
        add_lines(&mut v, self.option_rows(req));
        if q.is_open() {
            let current = self.cursor == q.options.len();
            let ground = mk_ground(current);
            let mut l = marker_line(current);
            add_span(&mut l, "✎ ", mk_style(Tone::Primary, ground, false));
            let typed = match &self.custom[self.tab] {
                Some(t) => t.as_str(),
                None => "Type your own answer…",
            };
            add_span(&mut l, typed, mk_style(Tone::TextMuted, ground, false));
            assert(l@ =~= own_row(
                opt_text(self.custom@[self.tab as int]),
                self.cursor == q.options@.len(),
            ));
            add_line(&mut v, l);
        }
        add_line(&mut v, empty_line());
        add_line(
            &mut v,
            line_of("↑/↓ move · space toggle · ←/→ questions · enter submit · esc dismiss", muted),
        );
        assert(line_views(v@) =~= question_lines(*self, *req));
        v
    }
}

} // verus!
