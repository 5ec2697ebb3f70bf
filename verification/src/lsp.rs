//! Language-server client used for diagnostics after edits: what is told of
//! diagnostics, what is sent for a file, how long to wait, and which servers run
//! where. Its caller speaks to the servers.

use crate::json::{as_text, json_at, json_leaf, json_string, json_text, quoted, JsonLeaf, LeafView};
use crate::path::{components, components_of};
use crate::table::Table;
use crate::text::{
    after_prefix, chars_of, decimal, decimal_of, join, joined, number_in, number_of, opt_text, starts_with, texts,
};
use vstd::prelude::*;
use vstd::utf8::{decode_utf8, encode_utf8, valid_utf8};

verus! {

pub const MAX_PER_FILE: usize = 20;

/// How long to wait for further diagnostics once some have come, in ms.
pub const DIAGNOSTICS_DEBOUNCE: u64 = 150;

/// How long to wait for the first diagnostics, in ms.
pub const DIAGNOSTICS_WAIT: u64 = 5_000;

#[derive(Debug)]
pub struct Diagnostic {
    pub severity: u8,
    pub line: u32,
    pub character: u32,
    pub message: String,
}

// ───────────────────────────── report ─────────────────────────────

pub open spec fn errors_in(issues: Seq<Diagnostic>) -> Seq<Diagnostic> {
    issues.filter(|d: Diagnostic| d.severity == 1)
}

/// An error as it is told, with lines and columns from one.
pub open spec fn error_line(d: Diagnostic) -> Seq<char> {
    "ERROR ["@ + decimal((d.line + 1) as nat) + ":"@ + decimal((d.character + 1) as nat) + "] "@
        + d.message@
}

pub open spec fn error_lines(errors: Seq<Diagnostic>) -> Seq<Seq<char>> {
    Seq::new(
        if errors.len() < MAX_PER_FILE {
            errors.len()
        } else {
            MAX_PER_FILE as nat
        },
        |i: int| error_line(errors[i]),
    )
}

pub open spec fn reported(file: Seq<char>, errors: Seq<Diagnostic>) -> Seq<char> {
    "<diagnostics file=\""@ + file + "\">\n"@ + join(error_lines(errors), "\n"@) + (if errors.len()
        > MAX_PER_FILE {
        "\n... and "@ + decimal((errors.len() - MAX_PER_FILE) as nat) + " more"@
    } else {
        Seq::empty()
    }) + "\n</diagnostics>"@
}

/// The errors of a file for the model, the first twenty in full; nothing where
/// there are none.
pub fn report(file: &str, issues: &Vec<Diagnostic>) -> (r: Option<String>)
    ensures
        match r {
            Some(s) => errors_in(issues@).len() > 0 && s@ == reported(file@, errors_in(issues@)),
            None => errors_in(issues@).len() == 0,
        },
{
    let ghost pred = |d: Diagnostic| d.severity == 1;
    let ghost all = issues@;
    let mut lines: Vec<String> = Vec::new();
    let mut count: usize = 0;
    let ghost mut errs: Seq<Diagnostic> = Seq::empty();
    let mut i: usize = 0;
    proof {
        reveal(Seq::filter);
        assert(errs =~= all.take(0).filter(pred));
    }
    while i < issues.len()
        invariant
            i <= issues@.len(),
            all == issues@,
            pred == (|d: Diagnostic| d.severity == 1),
            errs == all.take(i as int).filter(pred),
            count == errs.len(),
            count <= i,
            texts(lines@) == error_lines(errs),
        decreases issues@.len() - i,
    {
        let d = &issues[i];
        proof {
            reveal(Seq::filter);
            assert(all.take(i + 1).drop_last() =~= all.take(i as int));
            assert(all.take(i + 1).last() == *d);
        }
        if d.severity == 1 {
            if count < MAX_PER_FILE {
                let mut s = "ERROR [".to_owned();
                s.append(decimal_of(d.line as u64 + 1).as_str());
                s.append(":");
                s.append(decimal_of(d.character as u64 + 1).as_str());
                s.append("] ");
                s.append(d.message.as_str());
                let ghost was = texts(lines@);
                lines.push(s);
                assert(texts(lines@) =~= was.push(error_line(*d)));
            }
            count += 1;
            proof {
                errs = errs.push(*d);
                assert(texts(lines@) =~= error_lines(errs));
            }
        }
        i += 1;
    }
    assert(all.take(i as int) =~= all);
    if count == 0 {
        return None;
    }
    let mut s = "<diagnostics file=\"".to_owned();
    s.append(file);
    s.append("\">\n");
    s.append(joined(&lines, "\n").as_str());
    let mut more = String::new();
    if count > MAX_PER_FILE {
        more.append("\n... and ");
        more.append(decimal_of((count - MAX_PER_FILE) as u64).as_str());
        more.append(" more");
    }
    assert(more@ =~= (if errs.len() > MAX_PER_FILE {
        "\n... and "@ + decimal((errs.len() - MAX_PER_FILE) as nat) + " more"@
    } else {
        Seq::empty()
    }));
    s.append(more.as_str());
    s.append("\n</diagnostics>");
    Some(s)
}

pub open spec fn number_or(n: Option<u64>, other: u64) -> u64 {
    match n {
        Some(n) => n,
        None => other,
    }
}

/// A diagnostic from what a server sent of it. What is missing counts as an error
/// at the start of the file; numbers are cut to the size of their fields.
pub fn diagnostic_of(
    severity: Option<u64>,
    line: Option<u64>,
    character: Option<u64>,
    message: Option<String>,
) -> (d: Diagnostic)
    ensures
        d.severity == number_or(severity, 1) % 256,
        d.line == number_or(line, 0) % 0x1_0000_0000,
        d.character == number_or(character, 0) % 0x1_0000_0000,
        d.message@ == (match message {
            Some(m) => m@,
            None => Seq::empty(),
        }),
{
    let s: u64 = match severity {
        Some(n) => n,
        None => 1,
    };
    let l: u64 = match line {
        Some(n) => n,
        None => 0,
    };
    let c: u64 = match character {
        Some(n) => n,
        None => 0,
    };
    let message = match message {
        Some(m) => m,
        None => String::new(),
    };
    Diagnostic {
        severity: (s % 256) as u8,
        line: (l % 0x1_0000_0000) as u32,
        character: (c % 0x1_0000_0000) as u32,
        message,
    }
}

// ───────────────────────────── uris ─────────────────────────────

pub open spec fn uri_of(path: Seq<char>) -> Seq<char> {
    "file://"@ + path
}

pub fn uri(path: &str) -> (s: String)
    ensures
        s@ == uri_of(path@),
{
    let mut s = "file://".to_owned();
    s.append(path);
    s
}

pub open spec fn hex_value(b: u8) -> Option<int> {
    if 48 <= b <= 57 {
        Some(b - 48)
    } else if 97 <= b <= 102 {
        Some(b - 87)
    } else if 65 <= b <= 70 {
        Some(b - 55)
    } else {
        None
    }
}

/// The value of two characters as a hexadecimal number; the first may be a plus
/// sign.
pub open spec fn hex_pair(a: u8, b: u8) -> Option<int> {
    match hex_value(b) {
        Some(y) => if a == 43 {
            Some(y)
        } else {
            match hex_value(a) {
                Some(x) => Some(16 * x + y),
                None => None,
            }
        },
        None => None,
    }
}

/// Bytes with percent escapes resolved. A percent sign that two hexadecimal
/// digits do not follow stands for itself.
pub open spec fn unescaped(s: Seq<u8>) -> Seq<u8>
    decreases s.len(),
{
    if s.len() == 0 {
        Seq::empty()
    } else if s[0] == 37 && s.len() > 2 && hex_pair(s[1], s[2]) is Some {
        seq![hex_pair(s[1], s[2])->0 as u8] + unescaped(s.skip(3))
    } else {
        seq![s[0]] + unescaped(s.skip(1))
    }
}

/// What `String::from_utf8_lossy` makes of bytes.
pub uninterp spec fn lossy(bytes: Seq<u8>) -> Seq<char>;

/// `String::from_utf8_lossy`: a function of the bytes alone, and the text that
/// they encode where they are well-formed UTF-8. What replaces other bytes is not
/// spelled out.
#[verifier::external_body]
fn lossy_text(bytes: &Vec<u8>) -> (s: String)
    ensures
        s@ == lossy(bytes@),
        valid_utf8(bytes@) ==> s@ == decode_utf8(bytes@),
{
    String::from_utf8_lossy(bytes).to_string()
}

pub open spec fn text_of_bytes(b: Seq<u8>) -> Seq<char> {
    if valid_utf8(b) {
        decode_utf8(b)
    } else {
        lossy(b)
    }
}

fn hex_value_of(b: u8) -> (r: Option<u8>)
    ensures
        match r {
            Some(v) => v < 16 && hex_value(b) == Some(v as int),
            None => hex_value(b) is None,
        },
{
    if 48 <= b && b <= 57 {
        Some(b - 48)
    } else if 97 <= b && b <= 102 {
        Some(b - 87)
    } else if 65 <= b && b <= 70 {
        Some(b - 55)
    } else {
        None
    }
}

fn hex_pair_of(a: u8, b: u8) -> (r: Option<u8>)
    ensures
        match r {
            Some(v) => hex_pair(a, b) == Some(v as int),
            None => hex_pair(a, b) is None,
        },
{
    match hex_value_of(b) {
        Some(y) => if a == 43 {
            Some(y)
        } else {
            match hex_value_of(a) {
                Some(x) => Some(16 * x + y),
                None => None,
            }
        },
        None => None,
    }
}

pub fn percent_decode(s: &str) -> (r: String)
    ensures
        r@ == text_of_bytes(unescaped(encode_utf8(s@))),
{
    let bytes = s.as_bytes();
    let n = bytes.len();
    let ghost b = bytes@;
    let mut out: Vec<u8> = Vec::new();
    let mut i: usize = 0;
    assert(b.skip(0) =~= b);
    assert(out@ + unescaped(b.skip(0)) =~= unescaped(b));
    while i < n
        invariant
            i <= n,
            n == b.len(),
            b == bytes@,
            out@ + unescaped(b.skip(i as int)) == unescaped(b),
        decreases n - i,
    {
        let ghost rest = b.skip(i as int);
        let ghost was = out@;
        if bytes[i] == 37 && n - i > 2 {
            assert(rest[1] == b[i + 1] && rest[2] == b[i + 2]);
            if let Some(v) = hex_pair_of(bytes[i + 1], bytes[i + 2]) {
                out.push(v);
                assert(rest.skip(3) =~= b.skip(i + 3));
                assert(out@ + unescaped(b.skip(i + 3)) =~= was + unescaped(rest));
                i += 3;
                continue;
            }
        }
        out.push(bytes[i]);
        assert(rest.skip(1) =~= b.skip(i + 1));
        assert(out@ + unescaped(b.skip(i + 1)) =~= was + unescaped(rest));
        i += 1;
    }
    assert(unescaped(b.skip(i as int)) =~= Seq::empty());
    assert(out@ =~= unescaped(b));
    lossy_text(&out)
}

/// The path that a `file://` uri names.
pub open spec fn path_in(u: Seq<char>) -> Option<Seq<char>> {
    if starts_with(u, "file://"@) {
        Some(text_of_bytes(unescaped(encode_utf8(u.skip("file://"@.len() as int)))))
    } else {
        None
    }
}

pub fn path_from_uri(u: &str) -> (r: Option<String>)
    ensures
        match r {
            Some(p) => path_in(u@) == Some(p@),
            None => path_in(u@) is None,
        },
{
    match after_prefix(u, "file://") {
        Some(p) => Some(percent_decode(p.as_str())),
        None => None,
    }
}

proof fn lemma_plain_bytes(b: Seq<u8>)
    requires
        forall|i: int| 0 <= i < b.len() ==> #[trigger] b[i] != 37,
    ensures
        unescaped(b) == b,
    decreases b.len(),
{
    if b.len() > 0 {
        assert(b[0] != 37);
        assert forall|i: int| 0 <= i < b.skip(1).len() implies #[trigger] b.skip(1)[i] != 37 by {
            assert(b[i + 1] != 37);
        }
        lemma_plain_bytes(b.skip(1));
        assert(seq![b[0]] + b.skip(1) =~= b);
    } else {
        assert(unescaped(b) =~= b);
    }
}

/// The uri of a path names that path again, unless a percent sign occurs in it.
pub proof fn uri_roundtrip(path: Seq<char>)
    requires
        forall|i: int|
            0 <= i < encode_utf8(path).len() ==> #[trigger] encode_utf8(path)[i] != 37,
    ensures
        path_in(uri_of(path)) == Some(path),
{
    let u = uri_of(path);
    let k = "file://"@.len() as int;
    assert(u.take(k) =~= "file://"@);
    assert(u.subrange(0, k) =~= "file://"@);
    assert(u.skip(k) =~= path);
    lemma_plain_bytes(encode_utf8(path));
    vstd::utf8::encode_utf8_valid_utf8(path);
    vstd::utf8::encode_utf8_decode_utf8(path);
}

// ───────────────────────────── messages of a server ─────────────────────────────

/// A whole number as JSON writes it, where it fits 64 bits without a sign.
pub open spec fn as_u64(l: Option<LeafView>) -> Option<u64> {
    match l {
        Some(LeafView::Number(n)) => match number_in(n, u64::MAX as nat) {
            Some(v) => Some(v as u64),
            None => None,
        },
        _ => None,
    }
}

/// A whole number as JSON writes it, where it fits 64 bits with a sign.
pub open spec fn as_i64(l: Option<LeafView>) -> Option<i64> {
    match l {
        Some(LeafView::Number(n)) => if starts_with(n, "-"@) {
            match number_in(n.skip("-"@.len() as int), 0x8000_0000_0000_0000) {
                Some(v) => Some((-(v as int)) as i64),
                None => None,
            }
        } else {
            match number_in(n, i64::MAX as nat) {
                Some(v) => Some(v as i64),
                None => None,
            }
        },
        _ => None,
    }
}

fn u64_at(doc: &str, pointer: &str) -> (r: Option<u64>)
    ensures
        r == as_u64(json_at(doc@, pointer@)),
{
    match json_leaf(doc, pointer) {
        Some(JsonLeaf::Number(n)) => number_of(n.as_str(), u64::MAX),
        _ => None,
    }
}

fn i64_at(doc: &str, pointer: &str) -> (r: Option<i64>)
    ensures
        r == as_i64(json_at(doc@, pointer@)),
{
    match json_leaf(doc, pointer) {
        Some(JsonLeaf::Number(n)) => match after_prefix(n.as_str(), "-") {
            Some(d) => match number_of(d.as_str(), 0x8000_0000_0000_0000) {
                Some(v) => Some(
                    if v == 0x8000_0000_0000_0000 {
                        i64::MIN
                    } else {
                        -(v as i64)
                    },
                ),
                None => None,
            },
            None => match number_of(n.as_str(), i64::MAX as u64) {
                Some(v) => Some(v as i64),
                None => None,
            },
        },
        _ => None,
    }
}

/// Where the diagnostic at a place stands, in the list under a pointer.
pub open spec fn item_pointer(list: Seq<char>, i: nat) -> Seq<char> {
    list + "/"@ + decimal(i)
}

pub open spec fn cut(n: Option<u64>, other: u64, size: int) -> int {
    number_or(n, other) as int % size
}

/// Whether `d` is the diagnostic that stands at a pointer.
pub open spec fn is_diagnostic(d: Diagnostic, doc: Seq<char>, at: Seq<char>) -> bool {
    &&& d.severity == cut(as_u64(json_at(doc, at + "/severity"@)), 1, 256)
    &&& d.line == cut(as_u64(json_at(doc, at + "/range/start/line"@)), 0, 0x1_0000_0000)
    &&& d.character == cut(as_u64(json_at(doc, at + "/range/start/character"@)), 0, 0x1_0000_0000)
    &&& d.message@ == (match as_text(json_at(doc, at + "/message"@)) {
        Some(m) => m,
        None => Seq::empty(),
    })
}

/// Whether `v` are the diagnostics in the list under a pointer, if there is one.
pub open spec fn are_diagnostics(v: Option<Vec<Diagnostic>>, doc: Seq<char>, list: Seq<char>) -> bool {
    match json_at(doc, list) {
        Some(LeafView::List(n)) => v matches Some(v) && v@.len() == n && forall|i: int|
            0 <= i < n ==> is_diagnostic(#[trigger] v@[i], doc, item_pointer(list, i as nat)),
        _ => v is None,
    }
}

fn diagnostic_at(doc: &str, at: &str) -> (d: Diagnostic)
    ensures
        is_diagnostic(d, doc@, at@),
{
    let mut severity = at.to_owned();
    severity.append("/severity");
    let mut line = at.to_owned();
    line.append("/range/start/line");
    let mut character = at.to_owned();
    character.append("/range/start/character");
    let mut message = at.to_owned();
    message.append("/message");
    diagnostic_of(
        u64_at(doc, severity.as_str()),
        u64_at(doc, line.as_str()),
        u64_at(doc, character.as_str()),
        json_text(doc, message.as_str()),
    )
}

fn diagnostics_at(doc: &str, list: &str) -> (r: Option<Vec<Diagnostic>>)
    ensures
        are_diagnostics(r, doc@, list@),
{
    let n: usize = match json_leaf(doc, list) {
        Some(JsonLeaf::List(n)) => n,
        _ => {
            return None;
        },
    };
    let mut v: Vec<Diagnostic> = Vec::new();
    let mut i: usize = 0;
    while i < n
        invariant
            i <= n,
            v@.len() == i,
            forall|k: int|
                0 <= k < i ==> is_diagnostic(
                    #[trigger] v@[k],
                    doc@,
                    item_pointer(list@, k as nat),
                ),
        decreases n - i,
    {
        let mut at = list.to_owned();
        at.append("/");
        at.append(decimal_of(i as u64).as_str());
        v.push(diagnostic_at(doc, at.as_str()));
        i += 1;
    }
    Some(v)
}

/// What a server publishes: the file and its diagnostics, which are none where
/// no list is there. Nothing where the file is not named.
pub fn published(params: &str) -> (r: Option<(String, Vec<Diagnostic>)>)
    ensures
        ({
            let file = match as_text(json_at(params@, "/uri"@)) {
                Some(u) => path_in(u),
                None => None,
            };
            match r {
                Some((p, v)) => file == Some(p@) && (are_diagnostics(
                    Some(v),
                    params@,
                    "/diagnostics"@,
                ) || are_diagnostics(None, params@, "/diagnostics"@) && v@.len() == 0),
                None => file is None,
            }
        }),
{
    let path = match json_text(params, "/uri") {
        Some(u) => path_from_uri(u.as_str()),
        None => None,
    };
    match path {
        Some(p) => {
            let items = match diagnostics_at(params, "/diagnostics") {
                Some(v) => v,
                None => Vec::new(),
            };
            Some((p, items))
        },
        None => None,
    }
}

/// What a server answers when it is asked for the diagnostics of a file.
pub fn pulled(result: &str) -> (r: Option<Vec<Diagnostic>>)
    ensures
        are_diagnostics(r, result@, "/items"@),
{
    diagnostics_at(result, "/items")
}

/// Whether an answer spares the wait for what the server publishes: it names
/// some diagnostic.
pub fn pull_suffices(answer: &Option<Vec<Diagnostic>>) -> (b: bool)
    ensures
        b == (answer matches Some(v) && v@.len() > 0),
{
    match answer {
        Some(v) => v.len() > 0,
        None => false,
    }
}

/// How long to wait for diagnostics, in ms: what the environment says, where it
/// is a number.
pub open spec fn wait_time(var: Option<Seq<char>>) -> u64 {
    match var {
        Some(v) => {
            let digits = if starts_with(v, "+"@) {
                v.skip("+"@.len() as int)
            } else {
                v
            };
            match number_in(digits, u64::MAX as nat) {
                Some(n) => n as u64,
                None => DIAGNOSTICS_WAIT,
            }
        },
        None => DIAGNOSTICS_WAIT,
    }
}

pub fn wait_ms(var: &Option<String>) -> (ms: u64)
    ensures
        ms == wait_time(opt_text(*var)),
{
    let n = match var {
        Some(v) => match after_prefix(v.as_str(), "+") {
            Some(d) => number_of(d.as_str(), u64::MAX),
            None => number_of(v.as_str(), u64::MAX),
        },
        None => None,
    };
    match n {
        Some(n) => n,
        None => DIAGNOSTICS_WAIT,
    }
}

// ───────────────────────────── documents ─────────────────────────────

/// How a server wants changes: what its capabilities say of `textDocumentSync`.
pub enum SyncCapability {
    /// a number, where it is a whole one
    Number(Option<i64>),
    /// an object, with its `change` where that is a whole number
    Object(Option<i64>),
    Other,
}

pub open spec fn kind_of(c: SyncCapability) -> i64 {
    match c {
        SyncCapability::Number(Some(n)) => n,
        SyncCapability::Object(Some(n)) => n,
        _ => 1,
    }
}

pub fn sync_kind(c: &SyncCapability) -> (k: i64)
    ensures
        k == kind_of(*c),
{
    match c {
        SyncCapability::Number(Some(n)) => *n,
        SyncCapability::Object(Some(n)) => *n,
        _ => 1,
    }
}

/// What a server says of itself when it starts.
pub struct Capabilities {
    /// how it wants changes
    pub sync_kind: i64,
    /// whether it may be asked for diagnostics
    pub pull: bool,
}

pub open spec fn sync_in(result: Seq<char>) -> SyncCapability {
    match json_at(result, "/capabilities/textDocumentSync"@) {
        Some(LeafView::Number(n)) => SyncCapability::Number(
            as_i64(json_at(result, "/capabilities/textDocumentSync"@)),
        ),
        Some(LeafView::Members(_)) => SyncCapability::Object(
            as_i64(json_at(result, "/capabilities/textDocumentSync/change"@)),
        ),
        _ => SyncCapability::Other,
    }
}

/// The capabilities in a server's answer to `initialize`.
pub fn capabilities(result: &str) -> (r: Capabilities)
    ensures
        r.sync_kind == kind_of(sync_in(result@)),
        r.pull == (json_at(result@, "/capabilities/diagnosticProvider"@) matches Some(l) && !(
        l is Null)),
{
    let sync = match json_leaf(result, "/capabilities/textDocumentSync") {
        Some(JsonLeaf::Number(_)) => SyncCapability::Number(
            i64_at(result, "/capabilities/textDocumentSync"),
        ),
        Some(JsonLeaf::Members(_)) => SyncCapability::Object(
            i64_at(result, "/capabilities/textDocumentSync/change"),
        ),
        _ => SyncCapability::Other,
    };
    let pull = match json_leaf(result, "/capabilities/diagnosticProvider") {
        Some(JsonLeaf::Null) => false,
        Some(_) => true,
        None => false,
    };
    Capabilities { sync_kind: sync_kind(&sync), pull }
}

pub open spec fn line_feeds(s: Seq<char>) -> nat
    decreases s.len(),
{
    if s.len() == 0 {
        0
    } else {
        line_feeds(s.drop_last()) + (if s.last() == '\n' {
            1nat
        } else {
            0
        })
    }
}

/// The lines of a text, by its line feeds.
pub open spec fn line_total(s: Seq<char>) -> u64 {
    if line_feeds(s) < u64::MAX {
        (line_feeds(s) + 1) as u64
    } else {
        u64::MAX
    }
}

fn count_line_feeds(s: &str) -> (n: usize)
    ensures
        n == line_feeds(s@),
{
    let v = chars_of(s);
    let mut n: usize = 0;
    let mut i: usize = 0;
    while i < v.len()
        invariant
            i <= v@.len(),
            n <= i,
            n == line_feeds(v@.take(i as int)),
        decreases v@.len() - i,
    {
        assert(v@.take(i + 1).drop_last() =~= v@.take(i as int));
        if v[i] == '\n' {
            n += 1;
        }
        i += 1;
    }
    assert(v@.take(i as int) =~= v@);
    n
}

/// The documents that a server was sent: path → (version, line count of the last
/// text sent).
pub struct Documents {
    pub versions: Table<(i32, u64)>,
}

/// What to send of a document.
pub enum Touch {
    /// open it, as version one
    Open,
    /// it changed. Where `until` is given, the text replaces the lines from the
    /// first to that one; otherwise it is sent whole.
    Change { version: i32, until: Option<u64> },
}

impl Documents {
    pub fn new() -> (d: Self)
        ensures
            d.versions@ == Map::<Seq<char>, (i32, u64)>::empty(),
    {
        Documents { versions: Table::new() }
    }

    /// Settles what to send of a file that holds `text` now, and notes it.
    pub fn touch(&mut self, path: &str, text: &str, sync_kind: i64) -> (t: Touch)
        requires
            old(self).versions@.contains_key(path@) ==> old(self).versions@[path@].0 < i32::MAX && old(self).versions@[path@].1
                < u64::MAX,
        ensures
            ({
                let before = old(self).versions@;
                let lines = line_total(text@);
                if before.contains_key(path@) {
                    let (v, prev) = before[path@];
                    &&& t matches Touch::Change { version, until } && version == v + 1 && until == (
                    if sync_kind == 2 {
                        Some((prev + 1) as u64)
                    } else {
                        None
                    })
                    &&& final(self).versions@ == before.insert(path@, ((v + 1) as i32, lines))
                } else {
                    &&& t is Open
                    &&& final(self).versions@ == before.insert(path@, (1, lines))
                }
            }),
    {
        let feeds = count_line_feeds(text);
        let lines: u64 = if feeds as u64 == u64::MAX {
            u64::MAX
        } else {
            feeds as u64 + 1
        };
        match self.versions.remove(path) {
            None => {
                self.versions.insert(path.to_owned(), (1, lines));
                assert(self.versions@ =~= old(self).versions@.insert(path@, (1i32, lines)));
                Touch::Open
            },
            Some((v, prev)) => {
                self.versions.insert(path.to_owned(), (v + 1, lines));
                assert(self.versions@ =~= old(self).versions@.insert(path@, ((v + 1) as i32, lines)));
                let until = if sync_kind == 2 {
                    Some(prev + 1)
                } else {
                    None
                };
                Touch::Change { version: v + 1, until }
            },
        }
    }
}

pub open spec fn signed(n: int) -> Seq<char> {
    if n < 0 {
        "-"@ + decimal((-n) as nat)
    } else {
        decimal(n as nat)
    }
}

/// The notification that tells a server of a document: its method and its
/// parameters as JSON text.
pub open spec fn notice(path: Seq<char>, language: Seq<char>, text: Seq<char>, t: Touch) -> (
    Seq<char>,
    Seq<char>,
) {
    let head = "{\"textDocument\":{\"uri\":"@ + quoted(uri_of(path));
    match t {
        Touch::Open => (
            "textDocument/didOpen"@,
            head + ",\"languageId\":"@ + quoted(language) + ",\"version\":1,\"text\":"@ + quoted(text)
                + "}}"@,
        ),
        Touch::Change { version, until } => (
            "textDocument/didChange"@,
            head + ",\"version\":"@ + signed(version as int) + "},\"contentChanges\":[{"@ + (match until {
                Some(line) =>
                    "\"range\":{\"start\":{\"line\":0,\"character\":0},\"end\":{\"line\":"@ + decimal(
                    line as nat,
                ) + ",\"character\":0}},"@,
                None => Seq::empty(),
            }) + "\"text\":"@ + quoted(text) + "}]}"@,
        ),
    }
}

pub fn notice_of(path: &str, language: &str, text: &str, t: &Touch) -> (r: (&'static str, String))
    ensures
        (r.0@, r.1@) == notice(path@, language@, text@, *t),
{
    let mut s = "{\"textDocument\":{\"uri\":".to_owned();
    s.append(json_string(uri(path).as_str()).as_str());
    match t {
        Touch::Open => {
            s.append(",\"languageId\":");
            s.append(json_string(language).as_str());
            s.append(",\"version\":1,\"text\":");
            s.append(json_string(text).as_str());
            s.append("}}");
            ("textDocument/didOpen", s)
        },
        Touch::Change { version, until } => {
            s.append(",\"version\":");
            let v: i64 = *version as i64;
            let mut number = String::new();
            if v < 0 {
                number.append("-");
                number.append(decimal_of((-v) as u64).as_str());
            } else {
                number.append(decimal_of(v as u64).as_str());
            }
            assert(number@ =~= signed(*version as int));
            s.append(number.as_str());
            s.append("},\"contentChanges\":[{");
            let mut range = String::new();
            if let Some(line) = until {
                range.append(
                    "\"range\":{\"start\":{\"line\":0,\"character\":0},\"end\":{\"line\":",
                );
                range.append(decimal_of(*line).as_str());
                range.append(",\"character\":0}},");
                assert(range@ =~=
                    "\"range\":{\"start\":{\"line\":0,\"character\":0},\"end\":{\"line\":"@ + decimal(
                    *line as nat,
                ) + ",\"character\":0}},"@);
            } else {
                assert(range@ =~= Seq::<char>::empty());
            }
            s.append(range.as_str());
            s.append("\"text\":");
            s.append(json_string(text).as_str());
            s.append("}]}");
            ("textDocument/didChange", s)
        },
    }
}

/// The parameters that tell a server that a file changed on disk.
pub fn watched_params(path: &str) -> (s: String)
    ensures
        s@ == "{\"changes\":[{\"uri\":"@ + quoted(uri_of(path@)) + ",\"type\":2}]}"@,
{
    let mut s = "{\"changes\":[{\"uri\":".to_owned();
    s.append(json_string(uri(path).as_str()).as_str());
    s.append(",\"type\":2}]}");
    s
}

/// The parameters that ask a server for the diagnostics of a file.
pub fn pull_params(path: &str) -> (s: String)
    ensures
        s@ == "{\"textDocument\":{\"uri\":"@ + quoted(uri_of(path@)) + "}}"@,
{
    let mut s = "{\"textDocument\":{\"uri\":".to_owned();
    s.append(json_string(uri(path).as_str()).as_str());
    s.append("}}");
    s
}

// ───────────────────────────── waiting ─────────────────────────────

/// Waiting for the diagnostics of a file: whether some have come.
#[derive(Debug, Clone, Copy, PartialEq, Eq, Structural)]
pub struct Waiting {
    pub got: bool,
}

/// What came while waiting.
#[derive(Debug, Clone, Copy, PartialEq, Eq, Structural)]
pub enum WaitEvent {
    /// diagnostics of a file, ours or another
    Update { ours: bool },
    /// updates were missed
    Lagged,
    /// nothing came in time, or nothing will
    Over,
}

impl Waiting {
    pub fn new() -> (w: Self)
        ensures
            !w.got,
    {
        Waiting { got: false }
    }

    /// How long to wait for the next event, in ms: up to the deadline for the
    /// first, shortly for what follows it.
    pub fn timeout(&self, until_deadline: u64) -> (ms: u64)
        ensures
            ms == (if self.got {
                DIAGNOSTICS_DEBOUNCE
            } else {
                until_deadline
            }),
    {
        if self.got {
            DIAGNOSTICS_DEBOUNCE
        } else {
            until_deadline
        }
    }

    /// Takes an event in; the result says whether to go on waiting.
    pub fn on(&mut self, e: WaitEvent) -> (go_on: bool)
        ensures
            go_on == !(e is Over),
            final(self).got == (old(self).got || e is Lagged || e == (WaitEvent::Update {
                ours: true,
            })),
    {
        match e {
            WaitEvent::Update { ours } => {
                if ours {
                    self.got = true;
                }
                true
            },
            WaitEvent::Lagged => {
                self.got = true;
                true
            },
            WaitEvent::Over => false,
        }
    }
}

// ───────────────────────────── servers ─────────────────────────────

/// A server that runs for a root. `ticket` is what its caller knows it by.
pub struct LspClient {
    pub id: String,
    pub name: String,
    pub root: String,
    pub ticket: u64,
}

pub struct LspClientView {
    pub id: Seq<char>,
    pub name: Seq<char>,
    pub root: Seq<char>,
    pub ticket: u64,
}

impl View for LspClient {
    type V = LspClientView;

    open spec fn view(&self) -> LspClientView {
        LspClientView { id: self.id@, name: self.name@, root: self.root@, ticket: self.ticket }
    }
}

/// A server that could not be started for a root.
pub struct LspFailure {
    pub id: String,
    pub root: String,
    pub error: String,
}

pub struct LspFailureView {
    pub id: Seq<char>,
    pub root: Seq<char>,
    pub error: Seq<char>,
}

impl View for LspFailure {
    type V = LspFailureView;

    open spec fn view(&self) -> LspFailureView {
        LspFailureView { id: self.id@, root: self.root@, error: self.error@ }
    }
}

/// One text for a server and a root. Roots are told apart, and ordered, by their
/// components.
pub open spec fn server_key(id: Seq<char>, root: Seq<char>) -> Seq<char> {
    id + "\0"@ + join(components(root), "\0"@)
}

pub fn key_of(id: &str, root: &str) -> (k: String)
    ensures
        k@ == server_key(id@, root@),
{
    let mut k = id.to_owned();
    k.append("\0");
    let c = components_of(root);
    k.append(joined(&c, "\0").as_str());
    k
}

/// One client per server and root; those that failed are not tried again.
pub struct LspManager {
    pub clients: Table<LspClient>,
    pub failed: Table<LspFailure>,
    pub enabled: bool,
}

/// What to do for a file.
pub enum ClientStep {
    /// no server serves it
    Nobody,
    /// the one with this ticket does
    Use(u64),
    /// a server has to be started first
    Start,
}

/// A server as far as it matters where it runs.
pub struct ServerInfo {
    pub id: String,
    pub name: String,
    /// the program
    pub bin: String,
}

/// What to do for a file whose server and root go by `key`: use the client that
/// runs, leave a server that failed or is not installed alone, or start it.
pub open spec fn step_for(
    clients: Map<Seq<char>, LspClientView>,
    failed: Map<Seq<char>, LspFailureView>,
    key: Seq<char>,
    on_path: bool,
) -> ClientStep {
    if clients.contains_key(key) {
        ClientStep::Use(clients[key].ticket)
    } else if failed.contains_key(key) || !on_path {
        ClientStep::Nobody
    } else {
        ClientStep::Start
    }
}

/// There is one client for a server and a root, however the root is written: once
/// it runs it is used, and once it failed it is not started again.
pub proof fn servers_are_started_once(
    clients: Map<Seq<char>, LspClientView>,
    failed: Map<Seq<char>, LspFailureView>,
    id: Seq<char>,
    root: Seq<char>,
    same_root: Seq<char>,
    client: LspClientView,
    failure: LspFailureView,
    on_path: bool,
)
    requires
        crate::path::same_path(root, same_root),
    ensures
        step_for(
            clients.insert(server_key(id, root), client),
            failed,
            server_key(id, same_root),
            on_path,
        ) == ClientStep::Use(client.ticket),
        !clients.contains_key(server_key(id, root)) ==> step_for(
            clients,
            failed.insert(server_key(id, root), failure),
            server_key(id, same_root),
            on_path,
        ) == ClientStep::Nobody,
{
}

impl LspManager {
    pub fn new(enabled: bool) -> (m: Self)
        ensures
            m.clients@ == Map::<Seq<char>, LspClientView>::empty(),
            m.failed@ == Map::<Seq<char>, LspFailureView>::empty(),
            m.enabled == enabled,
    {
        LspManager { clients: Table::new(), failed: Table::new(), enabled }
    }

    /// Which client serves a file whose server and root are given, if it has
    /// any. A program that is not installed counts as failed from then on.
    pub fn client_for(&mut self, server: &Option<ServerInfo>, root: &Option<String>, on_path: bool) -> (r: ClientStep)
        ensures
            final(self).clients@ == old(self).clients@,
            final(self).enabled == old(self).enabled,
            match (*server, *root) {
                (Some(s), Some(dir)) if old(self).enabled => {
                    let key = server_key(s.id@, dir@);
                    let running = old(self).clients@.contains_key(key);
                    let broken = old(self).failed@.contains_key(key);
                    &&& r == step_for(old(self).clients@, old(self).failed@, key, on_path)
                    &&& final(self).failed@ == (if !running && !broken && !on_path {
                        old(self).failed@.insert(
                            key,
                            LspFailureView {
                                id: s.id@,
                                root: dir@,
                                error: s.bin@ + " not found on PATH"@,
                            },
                        )
                    } else {
                        old(self).failed@
                    })
                },
                _ => r is Nobody && final(self).failed@ == old(self).failed@,
            },
    {
        if !self.enabled {
            return ClientStep::Nobody;
        }
        let s = match server {
            Some(s) => s,
            None => {
                return ClientStep::Nobody;
            },
        };
        let dir = match root {
            Some(d) => d,
            None => {
                return ClientStep::Nobody;
            },
        };
        let key = key_of(s.id.as_str(), dir.as_str());
        if let Some(c) = self.clients.get(key.as_str()) {
            return ClientStep::Use(c.ticket);
        }
        if self.failed.contains_key(key.as_str()) {
            return ClientStep::Nobody;
        }
        if !on_path {
            let mut error = s.bin.clone();
            error.append(" not found on PATH");
            self.failed.insert(
                key,
                LspFailure { id: s.id.clone(), root: dir.clone(), error },
            );
            return ClientStep::Nobody;
        }
        ClientStep::Start
    }

    /// Notes how the start of a server went.
    pub fn started(&mut self, server: &ServerInfo, root: &str, outcome: Result<u64, String>)
        ensures
            final(self).enabled == old(self).enabled,
            match outcome {
                Ok(ticket) => final(self).failed@ == old(self).failed@ && final(self).clients@ == old(self).clients@.insert(
                    server_key(server.id@, root@),
                    LspClientView { id: server.id@, name: server.name@, root: root@, ticket },
                ),
                Err(error) => final(self).clients@ == old(self).clients@ && final(self).failed@ == old(self).failed@.insert(
                    server_key(server.id@, root@),
                    LspFailureView { id: server.id@, root: root@, error: error@ },
                ),
            },
    {
        let key = key_of(server.id.as_str(), root);
        match outcome {
            Ok(ticket) => self.clients.insert(
                key,
                LspClient {
                    id: server.id.clone(),
                    name: server.name.clone(),
                    root: root.to_owned(),
                    ticket,
                },
            ),
            Err(error) => self.failed.insert(
                key,
                LspFailure { id: server.id.clone(), root: root.to_owned(), error },
            ),
        }
    }
}

/// A server as it is shown.
pub struct LspStatus {
    pub id: String,
    pub name: String,
    pub root: String,
    pub status: String,
}

pub struct LspStatusView {
    pub id: Seq<char>,
    pub name: Seq<char>,
    pub root: Seq<char>,
    pub status: Seq<char>,
}

impl View for LspStatus {
    type V = LspStatusView;

    open spec fn view(&self) -> LspStatusView {
        LspStatusView { id: self.id@, name: self.name@, root: self.root@, status: self.status@ }
    }
}

pub open spec fn statuses(v: Seq<LspStatus>) -> Seq<LspStatusView> {
    Seq::new(v.len(), |i: int| v[i]@)
}

pub open spec fn connected_status(c: LspClientView) -> LspStatusView {
    LspStatusView { id: c.id, name: c.name, root: c.root, status: "connected"@ }
}

pub open spec fn failed_status(f: LspFailureView) -> LspStatusView {
    LspStatusView { id: f.id, name: f.id, root: f.root, status: "error: "@ + f.error }
}

/// The clients, and behind them the failures, each in the order of their keys.
pub open spec fn all_statuses(
    clients: Seq<(Seq<char>, LspClientView)>,
    failed: Seq<(Seq<char>, LspFailureView)>,
) -> Seq<LspStatusView> {
    Seq::new(clients.len(), |i: int| connected_status(clients[i].1)) + Seq::new(
        failed.len(),
        |i: int| failed_status(failed[i].1),
    )
}

impl LspManager {
    pub fn status(&self) -> (r: Vec<LspStatus>)
        ensures
            statuses(r@) == all_statuses(self.clients.entries(), self.failed.entries()),
    {
        let ghost cs = self.clients.entries();
        let ghost fs = self.failed.entries();
        let mut out: Vec<LspStatus> = Vec::new();
        let n = self.clients.len();
        let mut i: usize = 0;
        while i < n
            invariant
                i <= n,
                n == cs.len(),
                cs == self.clients.entries(),
                out@.len() == i,
                forall|k: int| 0 <= k < i ==> (#[trigger] out@[k])@ == connected_status(cs[k].1),
            decreases n - i,
        {
            let c = self.clients.value(i);
            out.push(
                LspStatus {
                    id: c.id.clone(),
                    name: c.name.clone(),
                    root: c.root.clone(),
                    status: "connected".to_owned(),
                },
            );
            i += 1;
        }
        let m = self.failed.len();
        let mut j: usize = 0;
        while j < m
            invariant
                j <= m,
                m == fs.len(),
                n == cs.len(),
                fs == self.failed.entries(),
                out@.len() == n + j,
                forall|k: int| 0 <= k < n ==> (#[trigger] out@[k])@ == connected_status(cs[k].1),
                forall|k: int|
                    n <= k < n + j ==> (#[trigger] out@[k])@ == failed_status(fs[k - n].1),
            decreases m - j,
        {
            let f = self.failed.value(j);
            let mut status = "error: ".to_owned();
            status.append(f.error.as_str());
            out.push(
                LspStatus { id: f.id.clone(), name: f.id.clone(), root: f.root.clone(), status },
            );
            j += 1;
        }
        assert(statuses(out@) =~= all_statuses(cs, fs));
        out
    }

    /// Forgets all clients; their tickets come back, to be shut down.
    pub fn shutdown(&mut self) -> (r: Vec<u64>)
        ensures
            final(self).clients@ == Map::<Seq<char>, LspClientView>::empty(),
            final(self).failed@ == old(self).failed@,
            final(self).enabled == old(self).enabled,
            r@ == Seq::new(
                old(self).clients.entries().len(),
                |i: int| old(self).clients.entries()[i].1.ticket,
            ),
    {
        let ghost cs = self.clients.entries();
        let n = self.clients.len();
        let mut out: Vec<u64> = Vec::new();
        let mut i: usize = 0;
        while i < n
            invariant
                i <= n,
                n == cs.len(),
                cs == self.clients.entries(),
                out@.len() == i,
                forall|k: int| 0 <= k < i ==> #[trigger] out@[k] == cs[k].1.ticket,
            decreases n - i,
        {
            out.push(self.clients.value(i).ticket);
            i += 1;
        }
        self.clients = Table::new();
        assert(out@ =~= Seq::new(cs.len(), |k: int| cs[k].1.ticket));
        out
    }
}

} // verus!
