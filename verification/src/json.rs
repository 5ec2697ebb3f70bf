//! JSON text.

use crate::text::{contains, hex_digit, join, opt_text, replace_char, texts, with_char_replaced};
use vstd::prelude::*;

verus! {

/// How a character is written within a JSON string.
pub open spec fn escaped(c: char) -> Seq<char> {
    if c == '"' {
        seq!['\\', '"']
    } else if c == '\\' {
        seq!['\\', '\\']
    } else if c as u32 == 8 {
        seq!['\\', 'b']
    } else if c as u32 == 9 {
        seq!['\\', 't']
    } else if c as u32 == 10 {
        seq!['\\', 'n']
    } else if c as u32 == 12 {
        seq!['\\', 'f']
    } else if c as u32 == 13 {
        seq!['\\', 'r']
    } else if (c as u32) < 32 {
        seq!['\\', 'u', '0', '0', hex_digit(c as nat / 16), hex_digit(c as nat % 16)]
    } else {
        seq![c]
    }
}

pub open spec fn all_escaped(s: Seq<char>) -> Seq<char>
    decreases s.len(),
{
    if s.len() == 0 {
        Seq::empty()
    } else {
        all_escaped(s.drop_last()) + escaped(s.last())
    }
}

/// A text as a JSON string.
pub open spec fn quoted(s: Seq<char>) -> Seq<char> {
    seq!['"'] + all_escaped(s) + seq!['"']
}

/// `serde_json::to_string` on a text: the text in double quotes, with quotes,
/// backslashes and control characters escaped, the latter by their short form
/// where they have one. It does not fail on a text.
#[verifier::external_body]
pub(crate) fn json_string(s: &str) -> (r: String)
    ensures
        r@ == quoted(s@),
{
    serde_json::to_string(s).unwrap_or_default()
}

// ───────────────────────────── reading ─────────────────────────────

/// A JSON value as far as one look shows it.
#[derive(Debug)]
pub enum JsonLeaf {
    Null,
    Bool(bool),
    /// a number as it is written
    Number(String),
    Text(String),
    /// an array, by its length
    List(usize),
    /// an object, by the names of its members
    Members(Vec<String>),
}

pub enum LeafView {
    Null,
    Bool(bool),
    Number(Seq<char>),
    Text(Seq<char>),
    List(usize),
    Members(Seq<Seq<char>>),
}

impl View for JsonLeaf {
    type V = LeafView;

    open spec fn view(&self) -> LeafView {
        match *self {
            JsonLeaf::Null => LeafView::Null,
            JsonLeaf::Bool(b) => LeafView::Bool(b),
            JsonLeaf::Number(n) => LeafView::Number(n@),
            JsonLeaf::Text(t) => LeafView::Text(t@),
            JsonLeaf::List(n) => LeafView::List(n),
            JsonLeaf::Members(m) => LeafView::Members(texts(m@)),
        }
    }
}

/// What is wrong with a text as JSON, if anything is.
pub uninterp spec fn json_fault(text: Seq<char>) -> Option<Seq<char>>;

/// `serde_json::from_str` into a `Value`, of which the error is kept: a function
/// of the text alone. How a fault is worded is not spelled out. What can be read
/// nests no deeper than the crate's limit, and no member has the name that it
/// keeps for itself, where the text does not spell that name.
#[verifier::external_body]
pub(crate) fn json_error(text: &str) -> (r: Option<String>)
    ensures
        opt_text(r) == json_fault(text@),
        r is None && spells_no_raw_key(text@) ==> has_plain_keys(text@) && nests_within(
            text@,
            MAX_DEPTH as nat,
        ),
{
    serde_json::from_str::<serde_json::Value>(text).err().map(|e| e.to_string())
}

/// The value at a JSON pointer within a text.
pub uninterp spec fn json_at(text: Seq<char>, pointer: Seq<char>) -> Option<LeafView>;

pub open spec fn leaf_view(l: Option<JsonLeaf>) -> Option<LeafView> {
    match l {
        Some(l) => Some(l@),
        None => None,
    }
}

/// `serde_json::from_str` into a `Value` and `Value::pointer`: a function of the
/// two texts. There is nothing at any pointer of a text that is no JSON. What a
/// text holds is not spelled out.
#[verifier::external_body]
pub(crate) fn json_leaf(text: &str, pointer: &str) -> (r: Option<JsonLeaf>)
    ensures
        leaf_view(r) == json_at(text@, pointer@),
        json_fault(text@) is Some ==> r is None,
{
    let v: serde_json::Value = serde_json::from_str(text).ok()?;
    Some(match v.pointer(pointer)? {
        serde_json::Value::Null => JsonLeaf::Null,
        serde_json::Value::Bool(b) => JsonLeaf::Bool(*b),
        serde_json::Value::Number(n) => JsonLeaf::Number(n.to_string()),
        serde_json::Value::String(s) => JsonLeaf::Text(s.clone()),
        serde_json::Value::Array(a) => JsonLeaf::List(a.len()),
        serde_json::Value::Object(o) => JsonLeaf::Members(o.keys().cloned().collect()),
    })
}

/// One step of a JSON pointer: `~` and `/` are escaped.
pub open spec fn pointer_step(key: Seq<char>) -> Seq<char> {
    "/"@ + replace_char(replace_char(key, '~', "~0"@), '/', "~1"@)
}

pub fn pointer_to(key: &str) -> (s: String)
    ensures
        s@ == pointer_step(key@),
{
    let a = with_char_replaced(key, '~', "~0");
    let b = with_char_replaced(a.as_str(), '/', "~1");
    let mut s = "/".to_owned();
    s.append(b.as_str());
    s
}

pub open spec fn as_text(l: Option<LeafView>) -> Option<Seq<char>> {
    match l {
        Some(LeafView::Text(t)) => Some(t),
        _ => None,
    }
}

/// The text at a pointer, where there is one.
pub fn json_text(text: &str, pointer: &str) -> (r: Option<String>)
    ensures
        opt_text(r) == as_text(json_at(text@, pointer@)),
{
    match json_leaf(text, pointer) {
        Some(JsonLeaf::Text(t)) => Some(t),
        _ => None,
    }
}

/// A text as indented JSON.
pub uninterp spec fn json_indented(text: Seq<char>) -> Option<Seq<char>>;

/// `serde_json::from_str` into a `Value` and `serde_json::to_string_pretty`: a
/// function of the text, and nothing of a text that is no JSON.
#[verifier::external_body]
pub(crate) fn json_pretty(text: &str) -> (r: Option<String>)
    ensures
        opt_text(r) == json_indented(text@),
        json_fault(text@) is Some ==> r is None,
{
    let v: serde_json::Value = serde_json::from_str(text).ok()?;
    serde_json::to_string_pretty(&v).ok()
}

// ───────────────────────────── writing ─────────────────────────────

/// Whether a text can follow a step of a JSON pointer.
pub open spec fn is_pointer(p: Seq<char>) -> bool {
    p.len() == 0 || p[0] == '/'
}

/// Whether there is a number. How one is written may change when it is read and
/// written again.
pub open spec fn is_number(l: Option<LeafView>) -> bool {
    l matches Some(LeafView::Number(_))
}

/// Whether a text holds at a pointer what another holds, numbers aside.
pub open spec fn keeps(now: Seq<char>, at: Seq<char>, before: Seq<char>, from: Seq<char>) -> bool {
    is_number(json_at(before, from)) || json_at(now, at) == json_at(before, from)
}

/// A member of this name can stand for a whole value that is written in a text.
pub const RAW_KEY: &'static str = "$serde_json::private::RawValue";

/// How deep values may nest for `serde_json` to read them.
pub const MAX_DEPTH: u64 = 127;

/// How many steps a pointer takes.
pub open spec fn steps(p: Seq<char>) -> nat
    decreases p.len(),
{
    if p.len() == 0 {
        0
    } else if p.last() == '/' {
        steps(p.drop_last()) + 1
    } else {
        steps(p.drop_last())
    }
}

/// Whether lists and objects within a text nest at most `n` deep.
pub open spec fn nests_within(text: Seq<char>, n: nat) -> bool {
    forall|p: Seq<char>|
        (#[trigger] json_at(text, p) matches Some(LeafView::List(_)) || json_at(text, p) matches Some(
            LeafView::Members(_),
        )) ==> steps(p) < n
}

/// Whether no member within a text has the name that stands for another value.
pub open spec fn has_plain_keys(text: Seq<char>) -> bool {
    forall|p: Seq<char>|
        #[trigger] json_at(text, p) matches Some(LeafView::Members(keys)) ==> !keys.contains(
            RAW_KEY@,
        )
}

/// Whether a text surely holds no such name: it is not there as it stands, nor are
/// there characters written by their numbers.
pub open spec fn spells_no_raw_key(text: Seq<char>) -> bool {
    !contains(text, RAW_KEY@) && !contains(text, "\\u"@)
}

/// A member of an object without objects in it.
pub enum FlatValue {
    Text(Seq<char>),
    List(Seq<Seq<char>>),
}

pub open spec fn all_quoted(v: Seq<Seq<char>>) -> Seq<Seq<char>> {
    Seq::new(v.len(), |i: int| quoted(v[i]))
}

pub open spec fn flat_value(v: FlatValue) -> Seq<char> {
    match v {
        FlatValue::Text(t) => quoted(t),
        FlatValue::List(l) => seq!['['] + join(all_quoted(l), seq![',']) + seq![']'],
    }
}

/// An object of texts and lists of texts, as JSON text.
pub open spec fn flat_object(members: Seq<(Seq<char>, FlatValue)>) -> Seq<char> {
    seq!['{'] + join(
        Seq::new(members.len(), |i: int| quoted(members[i].0) + seq![':'] + flat_value(members[i].1)),
        seq![','],
    ) + seq!['}']
}

pub open spec fn is_flat(text: Seq<char>) -> bool {
    exists|members: Seq<(Seq<char>, FlatValue)>|
        text == #[trigger] flat_object(members) && forall|i: int|
            0 <= i < members.len() ==> (#[trigger] members[i]).0 != RAW_KEY@
}

/// A text that can be read, whose values nest at most `n` deep, and which means
/// the same once it was read and written again.
pub open spec fn is_regular(text: Seq<char>, n: nat) -> bool {
    (is_flat(text) && n >= 2) || (json_fault(text) is None && has_plain_keys(text) && nests_within(
        text,
        n,
    ))
}

/// The member of an object, as JSON text.
pub uninterp spec fn json_member(doc: Seq<char>, key: Seq<char>) -> Option<Seq<char>>;

/// `serde_json::from_str` into a `Value`, `Value::get` and `Value::to_string`: a
/// function of the two texts. Of a regular text, what is written can be read
/// again, nests one less deep, and holds what the member held.
#[verifier::external_body]
pub(crate) fn json_member_text(doc: &str, key: &str) -> (r: Option<String>)
    ensures
        opt_text(r) == json_member(doc@, key@),
        r matches Some(m) ==> forall|n: nat|
            n < MAX_DEPTH && #[trigger] is_regular(doc@, n + 1) ==> is_regular(m@, n),
        is_regular(doc@, MAX_DEPTH as nat) && r is Some ==> forall|p: Seq<char>|
            is_pointer(p) ==> #[trigger] keeps(r->0@, p, doc@, pointer_step(key@) + p),
{
    serde_json::from_str::<serde_json::Value>(doc).ok()?.get(key).map(|v| v.to_string())
}

/// An object with a member set, as indented JSON text.
pub uninterp spec fn json_with(doc: Seq<char>, key: Seq<char>, member: Seq<char>) -> Seq<char>;

/// `serde_json::from_str` into a `Value`, `Map::insert` of the member parsed, and
/// `serde_json::to_string_pretty`: a function of the three texts. A document that
/// is no object counts as an empty one. Of regular texts, what is written can be
/// read again, as deep as a value may nest; it holds the member, and the other
/// members of the document as they were. Nothing is said of a member with the
/// name that the crate keeps for values written in texts.
#[verifier::external_body]
pub(crate) fn json_set(doc: &str, key: &str, member: &str) -> (r: String)
    ensures
        r@ == json_with(doc@, key@, member@),
        key@ != RAW_KEY@ ==> forall|n: nat|
            n < MAX_DEPTH && is_regular(doc@, n + 1) && #[trigger] is_regular(member@, n) ==> {
                &&& json_fault(r@) is None
                &&& is_regular(r@, n + 1)
            },
        key@ != RAW_KEY@ && is_regular(doc@, MAX_DEPTH as nat) && is_regular(member@, (MAX_DEPTH - 1) as nat)
            ==> forall|p: Seq<char>|
            is_pointer(p) ==> #[trigger] keeps(r@, pointer_step(key@) + p, member@, p),
        key@ != RAW_KEY@ && is_regular(doc@, MAX_DEPTH as nat) && is_regular(member@, (MAX_DEPTH - 1) as nat)
            && (json_at(doc@, ""@) matches Some(LeafView::Members(_))) ==> forall|
            k: Seq<char>,
            p: Seq<char>,
        |
            k != key@ && is_pointer(p) ==> #[trigger] keeps(
                r@,
                pointer_step(k) + p,
                doc@,
                pointer_step(k) + p,
            ),
{
    let v: serde_json::Value = serde_json::from_str(doc).unwrap_or_default();
    let mut m = v.as_object().cloned().unwrap_or_default();
    m.insert(key.to_string(), serde_json::from_str(member).unwrap_or_default());
    serde_json::to_string_pretty(&m).unwrap_or_default()
}

} // verus!
