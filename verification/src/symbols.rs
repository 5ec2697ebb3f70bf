//! Definitions and identifiers of a source file, read off its syntax tree.

use crate::path::{extension, extension_of};
use crate::sort::{add_once, keys_of, lists_once, order, order_of, places};
use crate::text::{
    before_part, byte_len, byte_length, clip, clipped, first_at, first_line_of, from_utf8, opt_text, same,
    strip_all_suffix, texts, trim, trimmed, without_suffixes,
};
use tree_sitter_go::LANGUAGE as GO;
use tree_sitter_javascript::LANGUAGE as JAVASCRIPT;
use tree_sitter_python::LANGUAGE as PYTHON;
use tree_sitter_rust::LANGUAGE as RUST;
use tree_sitter_typescript::{LANGUAGE_TSX, LANGUAGE_TYPESCRIPT};
use vstd::prelude::*;

verus! {

#[derive(Debug, PartialEq)]
pub struct Symbol {
    pub name: String,
    /// `fn`, `struct`, `enum`, `trait`, `impl`, `type`, `class`, `interface`, `method`, `const`, `mod`
    pub kind: String,
    /// worktree-relative path
    pub file: String,
    pub line: u32,
    pub end_line: u32,
    /// first line of the definition, trimmed
    pub signature: String,
}

pub struct SymbolView {
    pub name: Seq<char>,
    pub kind: Seq<char>,
    pub file: Seq<char>,
    pub line: u32,
    pub end_line: u32,
    pub signature: Seq<char>,
}

impl View for Symbol {
    type V = SymbolView;

    open spec fn view(&self) -> SymbolView {
        SymbolView {
            name: self.name@,
            kind: self.kind@,
            file: self.file@,
            line: self.line,
            end_line: self.end_line,
            signature: self.signature@,
        }
    }
}

impl Clone for Symbol {
    fn clone(&self) -> (r: Self)
        ensures
            r@ == self@,
    {
        Symbol {
            name: self.name.clone(),
            kind: self.kind.clone(),
            file: self.file.clone(),
            line: self.line,
            end_line: self.end_line,
            signature: self.signature.clone(),
        }
    }
}

pub open spec fn symbols(v: Seq<Symbol>) -> Seq<SymbolView> {
    Seq::new(v.len(), |i: int| v[i]@)
}

// ───────────────────────────── languages ─────────────────────────────

#[derive(Debug, Clone, Copy, PartialEq, Eq, Structural)]
pub enum Lang {
    Rust,
    Python,
    JavaScript,
    TypeScript,
    Tsx,
    Go,
}

/// The language of a file, by its extension.
pub open spec fn language_of(path: Seq<char>) -> Option<Lang> {
    match extension(path) {
        Some(e) => if e == "rs"@ {
            Some(Lang::Rust)
        } else if e == "py"@ || e == "pyi"@ {
            Some(Lang::Python)
        } else if e == "js"@ || e == "mjs"@ || e == "cjs"@ || e == "jsx"@ {
            Some(Lang::JavaScript)
        } else if e == "ts"@ || e == "mts"@ || e == "cts"@ {
            Some(Lang::TypeScript)
        } else if e == "tsx"@ {
            Some(Lang::Tsx)
        } else if e == "go"@ {
            Some(Lang::Go)
        } else {
            None
        },
        None => None,
    }
}

pub fn lang_of(path: &str) -> (r: Option<Lang>)
    ensures
        r == language_of(path@),
{
    let ext = match extension_of(path) {
        Some(e) => e,
        None => {
            return None;
        },
    };
    let e = ext.as_str();
    if same(e, "rs") {
        Some(Lang::Rust)
    } else if same(e, "py") || same(e, "pyi") {
        Some(Lang::Python)
    } else if same(e, "js") || same(e, "mjs") || same(e, "cjs") || same(e, "jsx") {
        Some(Lang::JavaScript)
    } else if same(e, "ts") || same(e, "mts") || same(e, "cts") {
        Some(Lang::TypeScript)
    } else if same(e, "tsx") {
        Some(Lang::Tsx)
    } else if same(e, "go") {
        Some(Lang::Go)
    } else {
        None
    }
}

/// What a node of a Rust tree defines.
pub open spec fn rust_kind(k: Seq<char>) -> Option<Seq<char>> {
    if k == "function_item"@ {
        Some("fn"@)
    } else if k == "function_signature_item"@ {
        Some("fn"@)
    } else if k == "struct_item"@ {
        Some("struct"@)
    } else if k == "enum_item"@ {
        Some("enum"@)
    } else if k == "trait_item"@ {
        Some("trait"@)
    } else if k == "impl_item"@ {
        Some("impl"@)
    } else if k == "type_item"@ {
        Some("type"@)
    } else if k == "const_item"@ {
        Some("const"@)
    } else if k == "static_item"@ {
        Some("const"@)
    } else if k == "mod_item"@ {
        Some("mod"@)
    } else {
        None
    }
}

fn rust_kind_of(k: &str) -> (r: Option<&'static str>)
    ensures
        match r {
            Some(t) => rust_kind(k@) == Some(t@),
            None => rust_kind(k@) is None,
        },
{
    if same(k, "function_item") {
        Some("fn")
    } else if same(k, "function_signature_item") {
        Some("fn")
    } else if same(k, "struct_item") {
        Some("struct")
    } else if same(k, "enum_item") {
        Some("enum")
    } else if same(k, "trait_item") {
        Some("trait")
    } else if same(k, "impl_item") {
        Some("impl")
    } else if same(k, "type_item") {
        Some("type")
    } else if same(k, "const_item") {
        Some("const")
    } else if same(k, "static_item") {
        Some("const")
    } else if same(k, "mod_item") {
        Some("mod")
    } else {
        None
    }
}

/// What a node of a Python tree defines.
pub open spec fn python_kind(k: Seq<char>) -> Option<Seq<char>> {
    if k == "function_definition"@ {
        Some("fn"@)
    } else if k == "class_definition"@ {
        Some("class"@)
    } else {
        None
    }
}

fn python_kind_of(k: &str) -> (r: Option<&'static str>)
    ensures
        match r {
            Some(t) => python_kind(k@) == Some(t@),
            None => python_kind(k@) is None,
        },
{
    if same(k, "function_definition") {
        Some("fn")
    } else if same(k, "class_definition") {
        Some("class")
    } else {
        None
    }
}

/// What a node of a JavaScript or TypeScript tree defines.
pub open spec fn script_kind(k: Seq<char>) -> Option<Seq<char>> {
    if k == "function_declaration"@ {
        Some("fn"@)
    } else if k == "generator_function_declaration"@ {
        Some("fn"@)
    } else if k == "class_declaration"@ {
        Some("class"@)
    } else if k == "abstract_class_declaration"@ {
        Some("class"@)
    } else if k == "method_definition"@ {
        Some("method"@)
    } else if k == "method_signature"@ {
        Some("method"@)
    } else if k == "interface_declaration"@ {
        Some("interface"@)
    } else if k == "type_alias_declaration"@ {
        Some("type"@)
    } else if k == "enum_declaration"@ {
        Some("enum"@)
    } else if k == "variable_declarator"@ {
        Some("const"@)
    } else {
        None
    }
}

fn script_kind_of(k: &str) -> (r: Option<&'static str>)
    ensures
        match r {
            Some(t) => script_kind(k@) == Some(t@),
            None => script_kind(k@) is None,
        },
{
    if same(k, "function_declaration") {
        Some("fn")
    } else if same(k, "generator_function_declaration") {
        Some("fn")
    } else if same(k, "class_declaration") {
        Some("class")
    } else if same(k, "abstract_class_declaration") {
        Some("class")
    } else if same(k, "method_definition") {
        Some("method")
    } else if same(k, "method_signature") {
        Some("method")
    } else if same(k, "interface_declaration") {
        Some("interface")
    } else if same(k, "type_alias_declaration") {
        Some("type")
    } else if same(k, "enum_declaration") {
        Some("enum")
    } else if same(k, "variable_declarator") {
        Some("const")
    } else {
        None
    }
}

/// What a node of a Go tree defines.
pub open spec fn go_kind(k: Seq<char>) -> Option<Seq<char>> {
    if k == "function_declaration"@ {
        Some("fn"@)
    } else if k == "method_declaration"@ {
        Some("method"@)
    } else if k == "type_spec"@ {
        Some("type"@)
    } else {
        None
    }
}

fn go_kind_of(k: &str) -> (r: Option<&'static str>)
    ensures
        match r {
            Some(t) => go_kind(k@) == Some(t@),
            None => go_kind(k@) is None,
        },
{
    if same(k, "function_declaration") {
        Some("fn")
    } else if same(k, "method_declaration") {
        Some("method")
    } else if same(k, "type_spec") {
        Some("type")
    } else {
        None
    }
}

/// What a node of this kind defines, if it defines a named symbol.
pub open spec fn definition(lang: Lang, k: Seq<char>) -> Option<Seq<char>> {
    match lang {
        Lang::Rust => rust_kind(k),
        Lang::Python => python_kind(k),
        Lang::Go => go_kind(k),
        _ => script_kind(k),
    }
}

/// The field of a defining node that holds the name: that of an `impl` is its
/// type.
pub open spec fn name_field(lang: Lang, k: Seq<char>) -> Seq<char> {
    if lang == Lang::Rust && k == "impl_item"@ {
        "type"@
    } else {
        "name"@
    }
}

/// The kinds of symbol that there are.
pub open spec fn is_kind(t: Seq<char>) -> bool {
    t == "fn"@ || t == "struct"@ || t == "enum"@ || t == "trait"@ || t == "impl"@ || t == "type"@
        || t == "class"@ || t == "interface"@ || t == "method"@ || t == "const"@ || t == "mod"@
}

/// Node kinds that define a named symbol, with the field holding the name.
pub fn definition_kind(lang: Lang, k: &str) -> (r: Option<(&'static str, &'static str)>)
    ensures
        match r {
            Some((t, field)) => definition(lang, k@) == Some(t@) && is_kind(t@) && field@
                == name_field(lang, k@),
            None => definition(lang, k@) is None,
        },
        lang == Lang::Rust && (k@ == "function_item"@ || k@ == "function_signature_item"@)
            ==> (r matches Some(hit) && hit.0@ == "fn"@ && hit.1@ == "name"@),
        lang == Lang::Rust && (k@ == "struct_item"@)
            ==> (r matches Some(hit) && hit.0@ == "struct"@ && hit.1@ == "name"@),
        lang == Lang::Rust && (k@ == "enum_item"@)
            ==> (r matches Some(hit) && hit.0@ == "enum"@ && hit.1@ == "name"@),
        lang == Lang::Rust && (k@ == "trait_item"@)
            ==> (r matches Some(hit) && hit.0@ == "trait"@ && hit.1@ == "name"@),
        lang == Lang::Rust && (k@ == "impl_item"@)
            ==> (r matches Some(hit) && hit.0@ == "impl"@ && hit.1@ == "type"@),
        lang == Lang::Rust && (k@ == "type_item"@)
            ==> (r matches Some(hit) && hit.0@ == "type"@ && hit.1@ == "name"@),
        lang == Lang::Rust && (k@ == "const_item"@ || k@ == "static_item"@)
            ==> (r matches Some(hit) && hit.0@ == "const"@ && hit.1@ == "name"@),
        lang == Lang::Rust && (k@ == "mod_item"@)
            ==> (r matches Some(hit) && hit.0@ == "mod"@ && hit.1@ == "name"@),
        lang == Lang::Python && (k@ == "function_definition"@)
            ==> (r matches Some(hit) && hit.0@ == "fn"@ && hit.1@ == "name"@),
        lang == Lang::Python && (k@ == "class_definition"@)
            ==> (r matches Some(hit) && hit.0@ == "class"@ && hit.1@ == "name"@),
        (lang == Lang::JavaScript || lang == Lang::TypeScript || lang == Lang::Tsx) && (k@ == "function_declaration"@ || k@ == "generator_function_declaration"@)
            ==> (r matches Some(hit) && hit.0@ == "fn"@ && hit.1@ == "name"@),
        (lang == Lang::JavaScript || lang == Lang::TypeScript || lang == Lang::Tsx) && (k@ == "class_declaration"@ || k@ == "abstract_class_declaration"@)
            ==> (r matches Some(hit) && hit.0@ == "class"@ && hit.1@ == "name"@),
        (lang == Lang::JavaScript || lang == Lang::TypeScript || lang == Lang::Tsx) && (k@ == "method_definition"@ || k@ == "method_signature"@)
            ==> (r matches Some(hit) && hit.0@ == "method"@ && hit.1@ == "name"@),
        (lang == Lang::JavaScript || lang == Lang::TypeScript || lang == Lang::Tsx) && (k@ == "interface_declaration"@)
            ==> (r matches Some(hit) && hit.0@ == "interface"@ && hit.1@ == "name"@),
        (lang == Lang::JavaScript || lang == Lang::TypeScript || lang == Lang::Tsx) && (k@ == "type_alias_declaration"@)
            ==> (r matches Some(hit) && hit.0@ == "type"@ && hit.1@ == "name"@),
        (lang == Lang::JavaScript || lang == Lang::TypeScript || lang == Lang::Tsx) && (k@ == "enum_declaration"@)
            ==> (r matches Some(hit) && hit.0@ == "enum"@ && hit.1@ == "name"@),
        (lang == Lang::JavaScript || lang == Lang::TypeScript || lang == Lang::Tsx) && (k@ == "variable_declarator"@)
            ==> (r matches Some(hit) && hit.0@ == "const"@ && hit.1@ == "name"@),
        lang == Lang::Go && (k@ == "function_declaration"@)
            ==> (r matches Some(hit) && hit.0@ == "fn"@ && hit.1@ == "name"@),
        lang == Lang::Go && (k@ == "method_declaration"@)
            ==> (r matches Some(hit) && hit.0@ == "method"@ && hit.1@ == "name"@),
        lang == Lang::Go && (k@ == "type_spec"@)
            ==> (r matches Some(hit) && hit.0@ == "type"@ && hit.1@ == "name"@),
{
    proof {
        match lang {
            Lang::Rust => {
                crate::laws::symbols::rust_nodes_differ();
                crate::laws::symbols::rust_definitions(k@);
            },
            Lang::Python => crate::laws::symbols::python_definitions(k@),
            Lang::Go => crate::laws::symbols::go_definitions(k@),
            _ => crate::laws::symbols::script_definitions(lang, k@),
        }
    }
    let kind = match lang {
        Lang::Rust => rust_kind_of(k),
        Lang::Python => python_kind_of(k),
        Lang::Go => go_kind_of(k),
        _ => script_kind_of(k),
    };
    match kind {
        Some(t) => {
            if lang == Lang::Rust && same(k, "impl_item") {
                Some((t, "type"))
            } else {
                Some((t, "name"))
            }
        },
        None => None,
    }
}

/// The kinds of node that are identifiers.
pub open spec fn identifier_kind(k: Seq<char>) -> bool {
    k == "identifier"@ || k == "type_identifier"@ || k == "field_identifier"@ || k
        == "property_identifier"@ || k == "shorthand_property_identifier"@
}

pub fn is_identifier(kind: &str) -> (b: bool)
    ensures
        b == identifier_kind(kind@),
{
    same(kind, "identifier") || same(kind, "type_identifier") || same(kind, "field_identifier")
        || same(kind, "property_identifier") || same(kind, "shorthand_property_identifier")
}

/// What a declared variable holds that makes it worth listing: a function or a
/// class.
pub open spec fn holds_code(k: Seq<char>) -> bool {
    k == "arrow_function"@ || k == "function_expression"@ || k == "function"@ || k == "class"@ || k
        == "generator_function"@
}

fn is_code(k: &str) -> (b: bool)
    ensures
        b == holds_code(k@),
{
    same(k, "arrow_function") || same(k, "function_expression") || same(k, "function") || same(
        k,
        "class",
    ) || same(k, "generator_function")
}

// ───────────────────────────── signatures ─────────────────────────────

/// The header of a definition: its first line up to the body, at most 160
/// characters of it.
pub open spec fn signature(text: Seq<char>) -> Seq<char> {
    let line = trim(crate::text::first_line(text));
    let head = line.take(first_at(line, " {"@));
    let bare = trim(strip_all_suffix(strip_all_suffix(head, "{"@), ":"@));
    if bare.len() > 160 {
        clip(bare, 160).push('\u{2026}')
    } else {
        bare
    }
}

pub fn first_line(text: &str) -> (s: String)
    ensures
        s@ == signature(text@),
{
    let l = first_line_of(text);
    let line = trimmed(l.as_str());
    let head = before_part(line.as_str(), " {");
    let a = without_suffixes(head.as_str(), "{");
    let b = without_suffixes(a.as_str(), ":");
    let bare = trimmed(b.as_str());
    let mut s = clipped(bare.as_str(), 160);
    if bare.as_str().unicode_len() > 160 {
        s.push('\u{2026}');
    }
    s
}

// ───────────────────────────── syntax trees ─────────────────────────────

/// A node of a syntax tree, in a list of all nodes in which every node comes
/// before its children and children come in order.
#[derive(Debug)]
pub struct RawNode {
    pub kind: String,
    /// bytes of the source
    pub start: usize,
    pub end: usize,
    /// lines of the source, from zero
    pub row: u32,
    pub end_row: u32,
    /// how many nodes the node is made of, itself among them
    pub size: usize,
    /// bytes of the child in the field `name`
    pub name: Option<(usize, usize)>,
    /// bytes of the child in the field `type`
    pub owner: Option<(usize, usize)>,
    /// kind of the child in the field `value`
    pub value: Option<String>,
}

pub struct NodeView {
    pub kind: Seq<char>,
    pub start: usize,
    pub end: usize,
    pub row: u32,
    pub end_row: u32,
    pub size: usize,
    pub name: Option<(usize, usize)>,
    pub owner: Option<(usize, usize)>,
    pub value: Option<Seq<char>>,
}

impl View for RawNode {
    type V = NodeView;

    open spec fn view(&self) -> NodeView {
        NodeView {
            kind: self.kind@,
            start: self.start,
            end: self.end,
            row: self.row,
            end_row: self.end_row,
            size: self.size,
            name: self.name,
            owner: self.owner,
            value: opt_text(self.value),
        }
    }
}

pub open spec fn nodes(v: Seq<RawNode>) -> Seq<NodeView> {
    Seq::new(v.len(), |i: int| v[i]@)
}

/// No node ends in a row before that in which it starts.
pub open spec fn rows_in_order(v: Seq<NodeView>) -> bool {
    forall|i: int| 0 <= i < v.len() ==> (#[trigger] v[i]).row <= v[i].end_row
}

/// `tree_sitter::Tree`: a syntax tree.
#[verifier::external_type_specification]
#[verifier::external_body]
pub struct ExTree(tree_sitter::Tree);

/// The nodes that a syntax tree holds, every node before its children and
/// children in order.
pub uninterp spec fn tree_nodes(t: tree_sitter::Tree) -> Seq<NodeView>;

/// The nodes of the syntax tree of a source text, where the parser makes one.
pub uninterp spec fn syntax(lang: Lang, src: Seq<u8>) -> Option<Seq<NodeView>>;

/// `tree_sitter::Parser::parse` with the grammar of the language: what the tree
/// holds is a function of the language and the source. How a source is parsed is
/// not spelled out.
#[verifier::external_body]
fn parse_tree(lang: Lang, src: &Vec<u8>) -> (r: Option<tree_sitter::Tree>)
    ensures
        match r {
            Some(t) => syntax(lang, src@) == Some(tree_nodes(t)),
            None => syntax(lang, src@) is None,
        },
{
    let mut parser = tree_sitter::Parser::new();
    let grammar = match lang {
        Lang::Rust => RUST,
        Lang::Python => PYTHON,
        Lang::JavaScript => JAVASCRIPT,
        Lang::TypeScript => LANGUAGE_TYPESCRIPT,
        Lang::Tsx => LANGUAGE_TSX,
        Lang::Go => GO,
    };
    parser.set_language(&grammar.into()).ok()?;
    parser.parse(src, None)
}

/// `tree_sitter::Node::descendant_count` of the root, which counts itself: how
/// many nodes the tree holds.
#[verifier::external_body]
fn node_count(t: &tree_sitter::Tree) -> (n: usize)
    ensures
        n == tree_nodes(*t).len(),
{
    t.root_node().descendant_count()
}

/// `tree_sitter::TreeCursor::goto_descendant`, which counts the nodes of a tree
/// with every node before its children: the node at a place, with what its own
/// methods say of it and of its children in three fields. A node ends where its
/// size takes it from its start, so not in a row before that.
#[verifier::external_body]
fn node_at(t: &tree_sitter::Tree, i: usize) -> (r: RawNode)
    requires
        i < tree_nodes(*t).len(),
    ensures
        r@ == tree_nodes(*t)[i as int],
        r.row <= r.end_row,
{
    let mut c = t.walk();
    c.goto_descendant(i);
    let n = c.node();
    let part = |f: &str| n.child_by_field_name(f).map(|x| (x.start_byte(), x.end_byte()));
    RawNode {
        kind: n.kind().to_string(), start: n.start_byte(), end: n.end_byte(), size: n.descendant_count(),
        row: n.start_position().row as u32, end_row: n.end_position().row as u32, name: part("name"),
        owner: part("type"), value: n.child_by_field_name("value").map(|x| x.kind().to_string()),
    }
}

/// The nodes of the syntax tree of a source, where there is one.
fn parse_nodes(lang: Lang, src: &Vec<u8>) -> (r: Option<Vec<RawNode>>)
    ensures
        match r {
            Some(v) => syntax(lang, src@) == Some(nodes(v@)) && rows_in_order(nodes(v@)),
            None => syntax(lang, src@) is None,
        },
{
    let t = match parse_tree(lang, src) {
        Some(t) => t,
        None => {
            return None;
        },
    };
    let n = node_count(&t);
    let mut v: Vec<RawNode> = Vec::new();
    let mut i: usize = 0;
    while i < n
        invariant
            i <= n,
            n == tree_nodes(t).len(),
            v@.len() == i,
            forall|k: int| 0 <= k < i ==> (#[trigger] v@[k])@ == tree_nodes(t)[k],
            forall|k: int| 0 <= k < i ==> (#[trigger] v@[k]).row <= v@[k].end_row,
        decreases n - i,
    {
        v.push(node_at(&t, i));
        i += 1;
    }
    assert(nodes(v@) =~= tree_nodes(t));
    Some(v)
}

// ───────────────────────────── walking a tree ─────────────────────────────

/// How many nodes the one at `lo` covers of those before `hi`.
pub open spec fn covered(sizes: Seq<usize>, lo: int, hi: int) -> int {
    let n = sizes[lo] as int;
    if n < 1 {
        1
    } else if n > hi - lo {
        hi - lo
    } else {
        n
    }
}

/// The nodes from `lo` to `hi` in the order in which they are visited: a node
/// before its children, and of siblings the last first.
pub open spec fn visit_order(sizes: Seq<usize>, lo: int, hi: int) -> Seq<int>
    decreases hi - lo,
{
    if lo < 0 || lo >= hi || hi > sizes.len() {
        Seq::empty()
    } else {
        let next = lo + covered(sizes, lo, hi);
        visit_order(sizes, next, hi) + seq![lo] + visit_order(sizes, lo + 1, next)
    }
}

/// Every node is visited, and none twice.
pub proof fn every_node_is_visited_once(sizes: Seq<usize>, lo: int, hi: int)
    requires
        0 <= lo <= hi <= sizes.len(),
    ensures
        visit_order(sizes, lo, hi).len() == hi - lo,
        visit_order(sizes, lo, hi).no_duplicates(),
        forall|x: int| #[trigger] visit_order(sizes, lo, hi).contains(x) <==> lo <= x < hi,
    decreases hi - lo,
{
    if lo < hi {
        let next = lo + covered(sizes, lo, hi);
        every_node_is_visited_once(sizes, next, hi);
        every_node_is_visited_once(sizes, lo + 1, next);
        let a = visit_order(sizes, next, hi);
        let c = visit_order(sizes, lo + 1, next);
        let r = a + seq![lo] + c;
        assert forall|x: int| #[trigger] r.contains(x) <==> lo <= x < hi by {
            if r.contains(x) {
                let i = choose|i: int| 0 <= i < r.len() && r[i] == x;
                if i < a.len() {
                    assert(a.contains(a[i]));
                } else if i > a.len() {
                    assert(c.contains(c[i - a.len() - 1]));
                }
            }
            if next <= x < hi {
                assert(a.contains(x));
                let i = choose|i: int| 0 <= i < a.len() && a[i] == x;
                assert(r[i] == x);
            } else if lo < x < next {
                assert(c.contains(x));
                let i = choose|i: int| 0 <= i < c.len() && c[i] == x;
                assert(r[a.len() + 1 + i] == x);
            } else if x == lo {
                assert(r[a.len() as int] == x);
            }
        }
        assert forall|i: int, j: int| 0 <= i < r.len() && 0 <= j < r.len() && i != j implies r[i]
            != r[j] by {
            if i < a.len() {
                assert(a.contains(a[i]));
            } else if i > a.len() {
                assert(c.contains(c[i - a.len() - 1]));
            }
            if j < a.len() {
                assert(a.contains(a[j]));
            } else if j > a.len() {
                assert(c.contains(c[j - a.len() - 1]));
            }
        }
    }
}

pub open spec fn sizes_of(v: Seq<NodeView>) -> Seq<usize> {
    Seq::new(v.len(), |i: int| v[i].size)
}

/// A stretch of nodes that is still to be visited, or one node of it.
struct Todo {
    lo: usize,
    hi: usize,
    single: bool,
}

spec fn todo_order(sizes: Seq<usize>, t: Todo) -> Seq<int> {
    if t.single {
        seq![t.lo as int]
    } else {
        visit_order(sizes, t.lo as int, t.hi as int)
    }
}

/// What a stack of stretches comes to, the top first.
spec fn stack_order(sizes: Seq<usize>, st: Seq<Todo>) -> Seq<int>
    decreases st.len(),
{
    if st.len() == 0 {
        Seq::empty()
    } else {
        todo_order(sizes, st.last()) + stack_order(sizes, st.drop_last())
    }
}

spec fn todo_cost(t: Todo) -> nat {
    if t.single || t.hi < t.lo {
        1
    } else {
        (3 * (t.hi - t.lo) + 1) as nat
    }
}

spec fn stack_cost(st: Seq<Todo>) -> nat
    decreases st.len(),
{
    if st.len() == 0 {
        0
    } else {
        todo_cost(st.last()) + stack_cost(st.drop_last())
    }
}

fn visits(v: &Vec<RawNode>) -> (r: Vec<usize>)
    ensures
        places(r@) == visit_order(sizes_of(nodes(v@)), 0, v@.len() as int),
        forall|i: int| 0 <= i < r@.len() ==> #[trigger] r@[i] < v@.len(),
{
    let ghost sizes = sizes_of(nodes(v@));
    let ghost all = visit_order(sizes, 0, v@.len() as int);
    let mut out: Vec<usize> = Vec::new();
    let mut stack: Vec<Todo> = Vec::new();
    stack.push(Todo { lo: 0, hi: v.len(), single: false });
    proof {
        assert(stack@.drop_last() =~= Seq::empty());
        assert(stack_order(sizes, stack@.drop_last()) =~= Seq::empty());
        assert(stack_order(sizes, stack@) == all + Seq::<int>::empty());
        assert(all + Seq::<int>::empty() =~= all);
        assert(places(out@) + stack_order(sizes, stack@) =~= all);
    }
    while stack.len() > 0
        invariant
            sizes == sizes_of(nodes(v@)),
            sizes.len() == v@.len(),
            forall|i: int| 0 <= i < stack@.len() ==> (#[trigger] stack@[i]).hi <= v@.len(),
            forall|i: int|
                0 <= i < stack@.len() && (#[trigger] stack@[i]).single ==> stack@[i].lo < v@.len(),
            forall|i: int| 0 <= i < out@.len() ==> #[trigger] out@[i] < v@.len(),
            places(out@) + stack_order(sizes, stack@) == all,
        decreases stack_cost(stack@),
    {
        let ghost before = stack@;
        let ghost done = places(out@);
        if let Some(t) = stack.pop() {
            let ghost rest = stack@;
            proof {
                assert(before.drop_last() =~= rest);
                assert(before.last() == t);
                assert(before[before.len() - 1] == t);
            }
            if t.single {
                out.push(t.lo);
                proof {
                    assert(places(out@) =~= done.push(t.lo as int));
                    assert(places(out@) + stack_order(sizes, rest) =~= done + (seq![t.lo as int]
                        + stack_order(sizes, rest)));
                }
            } else if t.lo < t.hi {
                let n: usize = v[t.lo].size;
                let k: usize = if n < 1 {
                    1
                } else if n > t.hi - t.lo {
                    t.hi - t.lo
                } else {
                    n
                };
                assert(sizes[t.lo as int] == n);
                assert(k == covered(sizes, t.lo as int, t.hi as int));
                let children = Todo { lo: t.lo + 1, hi: t.lo + k, single: false };
                let own = Todo { lo: t.lo, hi: t.hi, single: true };
                let later = Todo { lo: t.lo + k, hi: t.hi, single: false };
                stack.push(children);
                let ghost s1 = stack@;
                stack.push(own);
                let ghost s2 = stack@;
                stack.push(later);
                proof {
                    assert(s1.drop_last() =~= rest);
                    assert(s2.drop_last() =~= s1);
                    assert(stack@.drop_last() =~= s2);
                    let a = todo_order(sizes, later);
                    let b = seq![t.lo as int];
                    let c = todo_order(sizes, children);
                    let d = stack_order(sizes, rest);
                    assert(stack_order(sizes, s1) == c + d);
                    assert(stack_order(sizes, s2) == b + (c + d));
                    assert(stack_order(sizes, stack@) == a + (b + (c + d)));
                    assert(stack_cost(s1) == todo_cost(children) + stack_cost(rest));
                    assert(stack_cost(s2) == 1 + stack_cost(s1));
                    assert(stack_cost(stack@) == todo_cost(later) + stack_cost(s2));
                    assert(stack_cost(before) == todo_cost(t) + stack_cost(rest));
                    assert(a + (b + (c + d)) =~= (a + b + c) + d);
                    assert(visit_order(sizes, t.lo as int, t.hi as int) == a + b + c);
                }
            } else {
                assert(todo_order(sizes, t) =~= Seq::empty());
                assert(Seq::<int>::empty() + stack_order(sizes, rest) =~= stack_order(sizes, rest));
            }
        }
    }
    proof {
        assert(places(out@) + Seq::<int>::empty() =~= places(out@));
    }
    out
}

// ───────────────────────────── reading a file ─────────────────────────────

/// The text of a stretch of the source; empty where it is no text.
pub open spec fn source_text(src: Seq<u8>, a: usize, b: usize) -> Seq<char> {
    if a <= b <= src.len() && vstd::utf8::valid_utf8(src.subrange(a as int, b as int)) {
        vstd::utf8::decode_utf8(src.subrange(a as int, b as int))
    } else {
        Seq::empty()
    }
}

fn node_text(src: &Vec<u8>, a: usize, b: usize) -> (s: String)
    ensures
        s@ == source_text(src@, a, b),
{
    if a > b || b > src.len() {
        return String::new();
    }
    let mut bytes: Vec<u8> = Vec::new();
    let mut i: usize = a;
    while i < b
        invariant
            a <= i <= b <= src@.len(),
            bytes@ == src@.subrange(a as int, i as int),
        decreases b - i,
    {
        bytes.push(src[i]);
        assert(src@.subrange(a as int, i + 1) =~= src@.subrange(a as int, i as int).push(
            src@[i as int],
        ));
        i += 1;
    }
    match from_utf8(bytes) {
        Some(s) => s,
        None => String::new(),
    }
}

/// The line of a row.
pub open spec fn line_of(row: u32) -> u32 {
    if row < u32::MAX {
        (row + 1) as u32
    } else {
        row
    }
}

fn to_line(row: u32) -> (r: u32)
    ensures
        r == line_of(row),
{
    if row < u32::MAX {
        row + 1
    } else {
        row
    }
}

/// The bytes that hold the name of what a node defines.
pub open spec fn name_range(lang: Lang, n: NodeView) -> Option<(usize, usize)> {
    if name_field(lang, n.kind) == "type"@ {
        n.owner
    } else {
        n.name
    }
}

/// Whether a definition is listed: of variables only those that hold code.
pub open spec fn is_listed(n: NodeView) -> bool {
    n.kind == "variable_declarator"@ ==> (n.value matches Some(v) && holds_code(v))
}

/// The symbol that a node defines, if it is listed.
pub open spec fn symbol_of(lang: Lang, rel: Seq<char>, src: Seq<u8>, n: NodeView) -> Option<SymbolView> {
    match (definition(lang, n.kind), name_range(lang, n)) {
        (Some(kind), Some(r)) => {
            let name = trim(source_text(src, r.0, r.1));
            if is_listed(n) && name.len() > 0 && byte_length(name) <= 120 {
                Some(
                    SymbolView {
                        name,
                        kind,
                        file: rel,
                        line: line_of(n.row),
                        end_line: line_of(n.end_row),
                        signature: signature(source_text(src, n.start, n.end)),
                    },
                )
            } else {
                None
            }
        },
        _ => None,
    }
}

fn read_symbol(lang: Lang, rel: &str, src: &Vec<u8>, n: &RawNode) -> (r: Option<Symbol>)
    ensures
        match r {
            Some(s) => symbol_of(lang, rel@, src@, n@) == Some(s@),
            None => symbol_of(lang, rel@, src@, n@) is None,
        },
{
    let k = n.kind.as_str();
    let (kind, field) = match definition_kind(lang, k) {
        Some(hit) => hit,
        None => {
            return None;
        },
    };
    let range = if same(field, "type") {
        n.owner
    } else {
        n.name
    };
    let (a, b) = match range {
        Some(r) => r,
        None => {
            return None;
        },
    };
    let name = trimmed(node_text(src, a, b).as_str());
    let keep = if same(k, "variable_declarator") {
        match &n.value {
            Some(v) => is_code(v.as_str()),
            None => false,
        }
    } else {
        true
    };
    if keep && !name.as_str().is_empty() && byte_len(name.as_str()) <= 120 {
        Some(
            Symbol {
                name,
                kind: kind.to_owned(),
                file: rel.to_owned(),
                line: to_line(n.row),
                end_line: to_line(n.end_row),
                signature: first_line(node_text(src, n.start, n.end).as_str()),
            },
        )
    } else {
        None
    }
}

/// The identifier that a node is, where it is one of 3 to 80 bytes.
pub open spec fn ident_of(src: Seq<u8>, n: NodeView) -> Option<Seq<char>> {
    let t = source_text(src, n.start, n.end);
    if identifier_kind(n.kind) && 3 <= byte_length(t) <= 80 {
        Some(t)
    } else {
        None
    }
}

/// The symbols that the nodes at these places define.
pub open spec fn symbols_at(
    lang: Lang,
    rel: Seq<char>,
    src: Seq<u8>,
    v: Seq<NodeView>,
    at: Seq<int>,
) -> Seq<SymbolView>
    decreases at.len(),
{
    if at.len() == 0 {
        Seq::empty()
    } else {
        let before = symbols_at(lang, rel, src, v, at.drop_last());
        match symbol_of(lang, rel, src, v[at.last()]) {
            Some(s) => before.push(s),
            None => before,
        }
    }
}

/// The identifiers among the nodes at these places.
pub open spec fn idents_at(src: Seq<u8>, v: Seq<NodeView>, at: Seq<int>) -> Seq<Seq<char>>
    decreases at.len(),
{
    if at.len() == 0 {
        Seq::empty()
    } else {
        let before = idents_at(src, v, at.drop_last());
        match ident_of(src, v[at.last()]) {
            Some(t) => before.push(t),
            None => before,
        }
    }
}

pub open spec fn line_keys(v: Seq<SymbolView>) -> Seq<u64> {
    Seq::new(v.len(), |i: int| v[i].line as u64)
}

/// Symbols in the order of their lines; those of one line stay as they are.
pub open spec fn by_line(v: Seq<SymbolView>) -> Seq<SymbolView> {
    let p = order::<u64>(line_keys(v));
    Seq::new(p.len(), |i: int| v[p[i]])
}

/// What holds of every symbol of a file.
pub open spec fn is_symbol_of(rel: Seq<char>, s: SymbolView) -> bool {
    is_kind(s.kind) && s.file == rel && s.line <= s.end_line && s.name.len() > 0 && byte_length(
        s.name,
    ) <= 120
}

pub open spec fn are_symbols_of(rel: Seq<char>, v: Seq<SymbolView>) -> bool {
    forall|i: int| 0 <= i < v.len() ==> is_symbol_of(rel, #[trigger] v[i])
}

proof fn lemma_kind(lang: Lang, k: Seq<char>)
    ensures
        definition(lang, k) matches Some(t) ==> is_kind(t),
{
}

proof fn lemma_symbols_at(lang: Lang, rel: Seq<char>, src: Seq<u8>, v: Seq<NodeView>, at: Seq<int>)
    requires
        rows_in_order(v),
        forall|i: int| 0 <= i < at.len() ==> 0 <= #[trigger] at[i] < v.len(),
    ensures
        are_symbols_of(rel, symbols_at(lang, rel, src, v, at)),
    decreases at.len(),
{
    if at.len() > 0 {
        let d = at.drop_last();
        assert forall|i: int| 0 <= i < d.len() implies 0 <= #[trigger] d[i] < v.len() by {
            assert(at[i] == d[i]);
        }
        lemma_symbols_at(lang, rel, src, v, d);
        let n = v[at[at.len() - 1]];
        lemma_kind(lang, n.kind);
        assert(n.row <= n.end_row);
    }
}

/// Every symbol that is read off a tree is of the kinds that there are, ends no
/// earlier than it starts, and belongs to the file.
pub proof fn definitions_are_symbols(lang: Lang, rel: Seq<char>, src: Seq<u8>, v: Seq<NodeView>)
    requires
        rows_in_order(v),
    ensures
        are_symbols_of(rel, definitions_in(lang, rel, src, v)),
{
    let o = visit_order(sizes_of(v), 0, v.len() as int);
    every_node_is_visited_once(sizes_of(v), 0, v.len() as int);
    assert forall|i: int| 0 <= i < o.len() implies 0 <= #[trigger] o[i] < v.len() by {
        assert(o.contains(o[i]));
    }
    lemma_symbols_at(lang, rel, src, v, o);
    let g = symbols_at(lang, rel, src, v, o);
    let p = order::<u64>(line_keys(g));
    crate::sort::order_is_stable::<u64>(line_keys(g));
    assert forall|i: int| 0 <= i < p.len() implies is_symbol_of(rel, #[trigger] by_line(g)[i]) by {
        assert(0 <= p[i] < g.len());
    }
}

/// The definitions of a file, in the order of their lines.
pub open spec fn definitions_in(lang: Lang, rel: Seq<char>, src: Seq<u8>, v: Seq<NodeView>) -> Seq<SymbolView> {
    by_line(symbols_at(lang, rel, src, v, visit_order(sizes_of(v), 0, v.len() as int)))
}

/// The identifiers of a file.
pub open spec fn idents_in(src: Seq<u8>, v: Seq<NodeView>) -> Seq<Seq<char>> {
    idents_at(src, v, visit_order(sizes_of(v), 0, v.len() as int))
}

fn sort_by_line(v: &Vec<Symbol>) -> (r: Vec<Symbol>)
    ensures
        symbols(r@) == by_line(symbols(v@)),
{
    let ghost g = symbols(v@);
    let mut keys: Vec<u64> = Vec::new();
    let mut i: usize = 0;
    while i < v.len()
        invariant
            i <= v@.len(),
            keys@.len() == i,
            forall|k: int| 0 <= k < i ==> #[trigger] keys@[k] == v@[k].line as u64,
        decreases v@.len() - i,
    {
        keys.push(v[i].line as u64);
        i += 1;
    }
    assert(keys_of(keys@) =~= line_keys(g));
    let p = order_of(&keys);
    let ghost o = order::<u64>(line_keys(g));
    let mut out: Vec<Symbol> = Vec::new();
    let mut j: usize = 0;
    while j < p.len()
        invariant
            j <= p@.len(),
            p@.len() == v@.len(),
            g == symbols(v@),
            places(p@) == o,
            forall|k: int| 0 <= k < p@.len() ==> #[trigger] p@[k] < v@.len(),
            out@.len() == j,
            forall|k: int| 0 <= k < j ==> (#[trigger] out@[k])@ == g[o[k]],
        decreases p@.len() - j,
    {
        assert(o[j as int] == p@[j as int]);
        out.push(v[p[j]].clone());
        j += 1;
    }
    assert(symbols(out@) =~= by_line(g));
    out
}

/// Definitions and identifiers of a file, from the nodes of its tree.
pub fn read_nodes(lang: Lang, rel: &str, src: &Vec<u8>, v: &Vec<RawNode>) -> (r: (Vec<Symbol>, Vec<String>))
    ensures
        symbols(r.0@) == definitions_in(lang, rel@, src@, nodes(v@)),
        lists_once(texts(r.1@), idents_in(src@, nodes(v@))),
{
    let at = visits(v);
    let ghost ns = nodes(v@);
    let ghost o = visit_order(sizes_of(ns), 0, ns.len() as int);
    let mut found: Vec<Symbol> = Vec::new();
    let mut idents: Vec<String> = Vec::new();
    let mut i: usize = 0;
    proof {
        assert(o.take(0) =~= Seq::empty());
        assert(symbols(found@) =~= Seq::empty());
        assert(texts(idents@) =~= Seq::empty());
        assert(lists_once(texts(idents@), idents_at(src@, ns, o.take(0))));
    }
    while i < at.len()
        invariant
            i <= at@.len(),
            ns == nodes(v@),
            places(at@) == o,
            forall|k: int| 0 <= k < at@.len() ==> #[trigger] at@[k] < v@.len(),
            symbols(found@) == symbols_at(lang, rel@, src@, ns, o.take(i as int)),
            lists_once(texts(idents@), idents_at(src@, ns, o.take(i as int))),
        decreases at@.len() - i,
    {
        let n = &v[at[i]];
        assert(o[i as int] == at@[i as int]);
        assert(o.take(i + 1).drop_last() =~= o.take(i as int));
        assert(o.take(i + 1).last() == at@[i as int]);
        assert(ns[at@[i as int] as int] == n@);
        let ghost before = idents_at(src@, ns, o.take(i as int));
        if is_identifier(n.kind.as_str()) {
            let t = node_text(src, n.start, n.end);
            let len = byte_len(t.as_str());
            if 3 <= len && len <= 80 {
                add_once(&mut idents, t.as_str());
                proof {
                    let after = before.push(t@);
                    assert forall|y: Seq<char>| #[trigger] after.contains(y) <==> before.contains(
                        y,
                    ) || y == t@ by {
                        crate::sort::lemma_push_text(before, t@, y);
                    }
                }
            }
        }
        if let Some(s) = read_symbol(lang, rel, src, n) {
            let ghost was = symbols(found@);
            let ghost sv = s@;
            found.push(s);
            assert(symbols(found@) =~= was.push(sv));
        }
        i += 1;
    }
    assert(o.take(i as int) =~= o);
    (sort_by_line(&found), idents)
}

/// Parse one file into its definitions and identifier set.
pub fn parse_file(lang: Lang, rel: &str, src: &Vec<u8>) -> (r: (Vec<Symbol>, Vec<String>))
    ensures
        match syntax(lang, src@) {
            Some(v) => symbols(r.0@) == definitions_in(lang, rel@, src@, v) && lists_once(
                texts(r.1@),
                idents_in(src@, v),
            ) && are_symbols_of(rel@, symbols(r.0@)),
            None => r.0@.len() == 0 && r.1@.len() == 0,
        },
{
    match parse_nodes(lang, src) {
        Some(v) => {
            proof {
                definitions_are_symbols(lang, rel@, src@, nodes(v@));
            }
            read_nodes(lang, rel, src, &v)
        },
        None => (Vec::new(), Vec::new()),
    }
}

} // verus!
