//! What the symbol index finds in a source file.

use crate::path::extension;
use crate::sort::{lists_once, order};
use crate::symbols::{
    definition, definitions_in, ident_of, identifier_kind, idents_at, idents_in, language_of, line_keys,
    name_field, signature, sizes_of, source_text, symbol_of, symbols_at, visit_order, every_node_is_visited_once,
    Lang, NodeView,
};
use crate::text::{byte_length, trim};
use vstd::prelude::*;

verus! {

pub(crate) proof fn rust_nodes_differ()
    ensures
        "function_item"@ != "function_signature_item"@,
        "function_item"@ != "struct_item"@,
        "function_item"@ != "enum_item"@,
        "function_item"@ != "trait_item"@,
        "function_item"@ != "impl_item"@,
        "function_item"@ != "type_item"@,
        "function_item"@ != "const_item"@,
        "function_item"@ != "static_item"@,
        "function_item"@ != "mod_item"@,
        "function_signature_item"@ != "struct_item"@,
        "function_signature_item"@ != "enum_item"@,
        "function_signature_item"@ != "trait_item"@,
        "function_signature_item"@ != "impl_item"@,
        "function_signature_item"@ != "type_item"@,
        "function_signature_item"@ != "const_item"@,
        "function_signature_item"@ != "static_item"@,
        "function_signature_item"@ != "mod_item"@,
        "struct_item"@ != "enum_item"@,
        "struct_item"@ != "trait_item"@,
        "struct_item"@ != "impl_item"@,
        "struct_item"@ != "type_item"@,
        "struct_item"@ != "const_item"@,
        "struct_item"@ != "static_item"@,
        "struct_item"@ != "mod_item"@,
        "enum_item"@ != "trait_item"@,
        "enum_item"@ != "impl_item"@,
        "enum_item"@ != "type_item"@,
        "enum_item"@ != "const_item"@,
        "enum_item"@ != "static_item"@,
        "enum_item"@ != "mod_item"@,
        "trait_item"@ != "impl_item"@,
        "trait_item"@ != "type_item"@,
        "trait_item"@ != "const_item"@,
        "trait_item"@ != "static_item"@,
        "trait_item"@ != "mod_item"@,
        "impl_item"@ != "type_item"@,
        "impl_item"@ != "const_item"@,
        "impl_item"@ != "static_item"@,
        "impl_item"@ != "mod_item"@,
        "type_item"@ != "const_item"@,
        "type_item"@ != "static_item"@,
        "type_item"@ != "mod_item"@,
        "const_item"@ != "static_item"@,
        "const_item"@ != "mod_item"@,
        "static_item"@ != "mod_item"@,
{
    reveal_strlit("function_item");
    assert("function_item"@.len() == 13);
    reveal_strlit("function_signature_item");
    assert("function_signature_item"@.len() == 23);
    reveal_strlit("struct_item");
    assert("struct_item"@.len() == 11);
    reveal_strlit("enum_item");
    assert("enum_item"@.len() == 9);
    reveal_strlit("trait_item");
    assert("trait_item"@.len() == 10);
    reveal_strlit("impl_item");
    assert("impl_item"@.len() == 9);
    reveal_strlit("type_item");
    assert("type_item"@.len() == 9);
    reveal_strlit("const_item");
    assert("const_item"@.len() == 10);
    reveal_strlit("static_item");
    assert("static_item"@.len() == 11);
    reveal_strlit("mod_item");
    assert("mod_item"@.len() == 8);
    assert("struct_item"@[2] != "static_item"@[2]);
    assert("enum_item"@[0] != "impl_item"@[0]);
    assert("enum_item"@[0] != "type_item"@[0]);
    assert("trait_item"@[0] != "const_item"@[0]);
    assert("impl_item"@[0] != "type_item"@[0]);
}

proof fn python_nodes_differ()
    ensures
        "function_definition"@ != "class_definition"@,
{
    reveal_strlit("function_definition");
    assert("function_definition"@.len() == 19);
    reveal_strlit("class_definition");
    assert("class_definition"@.len() == 16);
}

proof fn script_nodes_differ()
    ensures
        "function_declaration"@ != "generator_function_declaration"@,
        "function_declaration"@ != "class_declaration"@,
        "function_declaration"@ != "abstract_class_declaration"@,
        "function_declaration"@ != "method_definition"@,
        "function_declaration"@ != "method_signature"@,
        "function_declaration"@ != "interface_declaration"@,
        "function_declaration"@ != "type_alias_declaration"@,
        "function_declaration"@ != "enum_declaration"@,
        "function_declaration"@ != "variable_declarator"@,
        "generator_function_declaration"@ != "class_declaration"@,
        "generator_function_declaration"@ != "abstract_class_declaration"@,
        "generator_function_declaration"@ != "method_definition"@,
        "generator_function_declaration"@ != "method_signature"@,
        "generator_function_declaration"@ != "interface_declaration"@,
        "generator_function_declaration"@ != "type_alias_declaration"@,
        "generator_function_declaration"@ != "enum_declaration"@,
        "generator_function_declaration"@ != "variable_declarator"@,
        "class_declaration"@ != "abstract_class_declaration"@,
        "class_declaration"@ != "method_definition"@,
        "class_declaration"@ != "method_signature"@,
        "class_declaration"@ != "interface_declaration"@,
        "class_declaration"@ != "type_alias_declaration"@,
        "class_declaration"@ != "enum_declaration"@,
        "class_declaration"@ != "variable_declarator"@,
        "abstract_class_declaration"@ != "method_definition"@,
        "abstract_class_declaration"@ != "method_signature"@,
        "abstract_class_declaration"@ != "interface_declaration"@,
        "abstract_class_declaration"@ != "type_alias_declaration"@,
        "abstract_class_declaration"@ != "enum_declaration"@,
        "abstract_class_declaration"@ != "variable_declarator"@,
        "method_definition"@ != "method_signature"@,
        "method_definition"@ != "interface_declaration"@,
        "method_definition"@ != "type_alias_declaration"@,
        "method_definition"@ != "enum_declaration"@,
        "method_definition"@ != "variable_declarator"@,
        "method_signature"@ != "interface_declaration"@,
        "method_signature"@ != "type_alias_declaration"@,
        "method_signature"@ != "enum_declaration"@,
        "method_signature"@ != "variable_declarator"@,
        "interface_declaration"@ != "type_alias_declaration"@,
        "interface_declaration"@ != "enum_declaration"@,
        "interface_declaration"@ != "variable_declarator"@,
        "type_alias_declaration"@ != "enum_declaration"@,
        "type_alias_declaration"@ != "variable_declarator"@,
        "enum_declaration"@ != "variable_declarator"@,
{
    reveal_strlit("function_declaration");
    assert("function_declaration"@.len() == 20);
    reveal_strlit("generator_function_declaration");
    assert("generator_function_declaration"@.len() == 30);
    reveal_strlit("class_declaration");
    assert("class_declaration"@.len() == 17);
    reveal_strlit("abstract_class_declaration");
    assert("abstract_class_declaration"@.len() == 26);
    reveal_strlit("method_definition");
    assert("method_definition"@.len() == 17);
    reveal_strlit("method_signature");
    assert("method_signature"@.len() == 16);
    reveal_strlit("interface_declaration");
    assert("interface_declaration"@.len() == 21);
    reveal_strlit("type_alias_declaration");
    assert("type_alias_declaration"@.len() == 22);
    reveal_strlit("enum_declaration");
    assert("enum_declaration"@.len() == 16);
    reveal_strlit("variable_declarator");
    assert("variable_declarator"@.len() == 19);
    assert("class_declaration"@[0] != "method_definition"@[0]);
    assert("method_signature"@[0] != "enum_declaration"@[0]);
}

proof fn go_nodes_differ()
    ensures
        "function_declaration"@ != "method_declaration"@,
        "function_declaration"@ != "type_spec"@,
        "method_declaration"@ != "type_spec"@,
{
    reveal_strlit("function_declaration");
    assert("function_declaration"@.len() == 20);
    reveal_strlit("method_declaration");
    assert("method_declaration"@.len() == 18);
    reveal_strlit("type_spec");
    assert("type_spec"@.len() == 9);
}

/// The nodes of Rust that define something, and what each defines.
pub proof fn rust_definitions(k: Seq<char>)
    ensures
        k == "function_item"@ || k == "function_signature_item"@ ==> definition(Lang::Rust, k) == Some("fn"@),
        k == "struct_item"@ ==> definition(Lang::Rust, k) == Some("struct"@),
        k == "enum_item"@ ==> definition(Lang::Rust, k) == Some("enum"@),
        k == "trait_item"@ ==> definition(Lang::Rust, k) == Some("trait"@),
        k == "impl_item"@ ==> definition(Lang::Rust, k) == Some("impl"@),
        k == "type_item"@ ==> definition(Lang::Rust, k) == Some("type"@),
        k == "const_item"@ || k == "static_item"@ ==> definition(Lang::Rust, k) == Some("const"@),
        k == "mod_item"@ ==> definition(Lang::Rust, k) == Some("mod"@),
        definition(Lang::Rust, k) is Some ==> k == "function_item"@
            || k == "function_signature_item"@
            || k == "struct_item"@
            || k == "enum_item"@
            || k == "trait_item"@
            || k == "impl_item"@
            || k == "type_item"@
            || k == "const_item"@
            || k == "static_item"@
            || k == "mod_item"@,
        k == "impl_item"@ ==> name_field(Lang::Rust, k) == "type"@,
        k != "impl_item"@ ==> name_field(Lang::Rust, k) == "name"@,
{
    rust_nodes_differ();
}

/// The nodes of Python that define something, and what each defines.
pub proof fn python_definitions(k: Seq<char>)
    ensures
        k == "function_definition"@ ==> definition(Lang::Python, k) == Some("fn"@),
        k == "class_definition"@ ==> definition(Lang::Python, k) == Some("class"@),
        definition(Lang::Python, k) is Some ==> k == "function_definition"@
            || k == "class_definition"@,
        name_field(Lang::Python, k) == "name"@,
{
    python_nodes_differ();
}

/// The nodes of JavaScript and TypeScript that define something, and what each defines.
pub proof fn script_definitions(lang: Lang, k: Seq<char>)
    requires
        lang == Lang::JavaScript || lang == Lang::TypeScript || lang == Lang::Tsx,
    ensures
        k == "function_declaration"@ || k == "generator_function_declaration"@ ==> definition(lang, k) == Some("fn"@),
        k == "class_declaration"@ || k == "abstract_class_declaration"@ ==> definition(lang, k) == Some("class"@),
        k == "method_definition"@ || k == "method_signature"@ ==> definition(lang, k) == Some("method"@),
        k == "interface_declaration"@ ==> definition(lang, k) == Some("interface"@),
        k == "type_alias_declaration"@ ==> definition(lang, k) == Some("type"@),
        k == "enum_declaration"@ ==> definition(lang, k) == Some("enum"@),
        k == "variable_declarator"@ ==> definition(lang, k) == Some("const"@),
        definition(lang, k) is Some ==> k == "function_declaration"@
            || k == "generator_function_declaration"@
            || k == "class_declaration"@
            || k == "abstract_class_declaration"@
            || k == "method_definition"@
            || k == "method_signature"@
            || k == "interface_declaration"@
            || k == "type_alias_declaration"@
            || k == "enum_declaration"@
            || k == "variable_declarator"@,
        name_field(lang, k) == "name"@,
{
    script_nodes_differ();
}

/// The nodes of Go that define something, and what each defines.
pub proof fn go_definitions(k: Seq<char>)
    ensures
        k == "function_declaration"@ ==> definition(Lang::Go, k) == Some("fn"@),
        k == "method_declaration"@ ==> definition(Lang::Go, k) == Some("method"@),
        k == "type_spec"@ ==> definition(Lang::Go, k) == Some("type"@),
        definition(Lang::Go, k) is Some ==> k == "function_declaration"@
            || k == "method_declaration"@
            || k == "type_spec"@,
        name_field(Lang::Go, k) == "name"@,
{
    go_nodes_differ();
}

/// Places in an order are all places.
proof fn lemma_all_places(p: Seq<int>, n: int, x: int)
    requires
        p.len() == n,
        p.no_duplicates(),
        forall|i: int| 0 <= i < p.len() ==> 0 <= #[trigger] p[i] < n,
        0 <= x < n,
    ensures
        p.contains(x),
{
    let all = vstd::set_lib::set_int_range(0, n);
    vstd::set_lib::lemma_int_range(0, n);
    p.unique_seq_to_set();
    assert(p.to_set().subset_of(all)) by {
        assert forall|y: int| p.to_set().contains(y) implies all.contains(y) by {
            let i = choose|i: int| 0 <= i < p.len() && p[i] == y;
            assert(0 <= p[i] < n);
        }
    }
    vstd::set_lib::lemma_subset_equality(p.to_set(), all);
    assert(all.contains(x));
}

proof fn lemma_symbol_at(lang: Lang, rel: Seq<char>, src: Seq<u8>, v: Seq<NodeView>, at: Seq<int>, j: int)
    requires
        0 <= j < at.len(),
        symbol_of(lang, rel, src, v[at[j]]) is Some,
    ensures
        symbols_at(lang, rel, src, v, at).contains(symbol_of(lang, rel, src, v[at[j]])->0),
    decreases at.len(),
{
    let all = symbols_at(lang, rel, src, v, at);
    let d = at.drop_last();
    let before = symbols_at(lang, rel, src, v, d);
    let s = symbol_of(lang, rel, src, v[at[j]])->0;
    if j < d.len() {
        assert(d[j] == at[j]);
        lemma_symbol_at(lang, rel, src, v, d, j);
        let i = choose|i: int| 0 <= i < before.len() && before[i] == s;
        assert(all[i] == s);
    } else {
        assert(all[all.len() - 1] == s);
    }
}

proof fn lemma_symbol_from(lang: Lang, rel: Seq<char>, src: Seq<u8>, v: Seq<NodeView>, at: Seq<int>, i: int) -> (j: int)
    requires
        0 <= i < symbols_at(lang, rel, src, v, at).len(),
    ensures
        0 <= j < at.len(),
        symbol_of(lang, rel, src, v[at[j]]) == Some(symbols_at(lang, rel, src, v, at)[i]),
    decreases at.len(),
{
    let d = at.drop_last();
    let before = symbols_at(lang, rel, src, v, d);
    if i < before.len() {
        let j = lemma_symbol_from(lang, rel, src, v, d, i);
        assert(d[j] == at[j]);
        j
    } else {
        at.len() - 1
    }
}

/// Every node that defines something under a name of one to 120 bytes is listed,
/// with its file, its lines counted from one, and its header; variables only where
/// they hold code.
pub proof fn named_definitions_are_listed(
    lang: Lang,
    rel: Seq<char>,
    src: Seq<u8>,
    v: Seq<NodeView>,
    i: int,
    range: (usize, usize),
    kind: Seq<char>,
)
    requires
        0 <= i < v.len(),
        definition(lang, v[i].kind) == Some(kind),
        range.0 <= range.1 <= src.len(),
        lang == Lang::Rust && v[i].kind == "impl_item"@ ==> v[i].owner == Some(range),
        !(lang == Lang::Rust && v[i].kind == "impl_item"@) ==> v[i].name == Some(range),
        trim(source_text(src, range.0, range.1)).len() > 0,
        byte_length(trim(source_text(src, range.0, range.1))) <= 120,
        v[i].kind == "variable_declarator"@ ==> v[i].value == Some("arrow_function"@) || v[i].value
            == Some("function_expression"@) || v[i].value == Some("function"@) || v[i].value == Some(
            "class"@,
        ) || v[i].value == Some("generator_function"@),
    ensures
        exists|j: int|
            0 <= j < definitions_in(lang, rel, src, v).len() && {
                let s = #[trigger] definitions_in(lang, rel, src, v)[j];
                &&& s.kind == kind
                &&& s.name == trim(source_text(src, range.0, range.1))
                &&& s.file == rel
                &&& v[i].row < u32::MAX ==> s.line == v[i].row + 1
                &&& v[i].end_row < u32::MAX ==> s.end_line == v[i].end_row + 1
                &&& s.signature == signature(source_text(src, v[i].start, v[i].end))
            },
{
    reveal_strlit("type");
    reveal_strlit("name");
    assert("type"@[0] != "name"@[0]);
    let sizes = sizes_of(v);
    let at = visit_order(sizes, 0, v.len() as int);
    every_node_is_visited_once(sizes, 0, v.len() as int);
    assert(at.contains(i));
    let k = choose|k: int| 0 <= k < at.len() && at[k] == i;
    let s = symbol_of(lang, rel, src, v[i])->0;
    lemma_symbol_at(lang, rel, src, v, at, k);
    let g = symbols_at(lang, rel, src, v, at);
    let x = choose|x: int| 0 <= x < g.len() && g[x] == s;
    let p = order::<u64>(line_keys(g));
    crate::sort::order_is_stable::<u64>(line_keys(g));
    lemma_all_places(p, g.len() as int, x);
    let j = choose|j: int| 0 <= j < p.len() && p[j] == x;
    assert(definitions_in(lang, rel, src, v)[j] == s);
}

/// Every symbol that is listed stands for a node that defines it under that name;
/// a variable only where it holds code.
pub proof fn listed_symbols_are_defined(lang: Lang, rel: Seq<char>, src: Seq<u8>, v: Seq<NodeView>, j: int) -> (i: int)
    requires
        0 <= j < definitions_in(lang, rel, src, v).len(),
    ensures
        0 <= i < v.len(),
        definition(lang, v[i].kind) == Some(definitions_in(lang, rel, src, v)[j].kind),
        ({
            let s = definitions_in(lang, rel, src, v)[j];
            let range = if lang == Lang::Rust && v[i].kind == "impl_item"@ {
                v[i].owner
            } else {
                v[i].name
            };
            &&& range is Some
            &&& s.name == trim(source_text(src, (range->0).0, (range->0).1))
            &&& 0 < s.name.len() && byte_length(s.name) <= 120
            &&& v[i].row < u32::MAX ==> s.line == v[i].row + 1
            &&& v[i].kind == "variable_declarator"@ ==> v[i].value == Some("arrow_function"@) || v[i].value
                == Some("function_expression"@) || v[i].value == Some("function"@) || v[i].value == Some(
                "class"@,
            ) || v[i].value == Some("generator_function"@)
        }),
        forall|a: int, b: int|
            0 <= a < b < definitions_in(lang, rel, src, v).len() ==> (#[trigger] definitions_in(
                lang,
                rel,
                src,
                v,
            )[a]).line <= (#[trigger] definitions_in(lang, rel, src, v)[b]).line,
{
    reveal_strlit("type");
    reveal_strlit("name");
    assert("type"@[0] != "name"@[0]);
    let sizes = sizes_of(v);
    let at = visit_order(sizes, 0, v.len() as int);
    every_node_is_visited_once(sizes, 0, v.len() as int);
    let g = symbols_at(lang, rel, src, v, at);
    let p = order::<u64>(line_keys(g));
    crate::sort::order_is_stable::<u64>(line_keys(g));
    assert forall|a: int, b: int|
        0 <= a < b < definitions_in(lang, rel, src, v).len() implies (#[trigger] definitions_in(
        lang,
        rel,
        src,
        v,
    )[a]).line <= (#[trigger] definitions_in(lang, rel, src, v)[b]).line by {
        assert(p[a] != p[b]);
        assert(line_keys(g)[p[a]] == g[p[a]].line as u64);
        assert(line_keys(g)[p[b]] == g[p[b]].line as u64);
    }
    assert(0 <= p[j] < g.len());
    let k = lemma_symbol_from(lang, rel, src, v, at, p[j]);
    assert(at.contains(at[k]));
    at[k]
}

/// The nodes that are identifiers.
pub proof fn identifier_nodes(k: Seq<char>)
    ensures
        identifier_kind(k) <==> k == "identifier"@ || k == "type_identifier"@ || k == "field_identifier"@ || k
            == "property_identifier"@ || k == "shorthand_property_identifier"@,
{
}

proof fn lemma_ident_at(src: Seq<u8>, v: Seq<NodeView>, at: Seq<int>, t: Seq<char>)
    ensures
        idents_at(src, v, at).contains(t) <==> exists|j: int|
            0 <= j < at.len() && ident_of(src, v[#[trigger] at[j]]) == Some(t),
    decreases at.len(),
{
    let all = idents_at(src, v, at);
    if at.len() > 0 {
        let d = at.drop_last();
        let before = idents_at(src, v, d);
        lemma_ident_at(src, v, d, t);
        if before.contains(t) {
            let i = choose|i: int| 0 <= i < before.len() && before[i] == t;
            assert(all[i] == t);
            let j = choose|j: int| 0 <= j < d.len() && ident_of(src, v[#[trigger] d[j]]) == Some(t);
            assert(at[j] == d[j]);
        }
        if all.contains(t) && !before.contains(t) {
            let i = choose|i: int| 0 <= i < all.len() && all[i] == t;
            if i < before.len() {
                assert(before[i] == t);
            }
            assert(ident_of(src, v[at[at.len() - 1]]) == Some(t));
        }
        if exists|j: int| 0 <= j < at.len() && ident_of(src, v[#[trigger] at[j]]) == Some(t) {
            let j = choose|j: int| 0 <= j < at.len() && ident_of(src, v[#[trigger] at[j]]) == Some(t);
            if j < d.len() {
                assert(d[j] == at[j]);
            } else {
                assert(all[all.len() - 1] == t);
            }
        }
    }
}

/// The identifiers of a file are the texts of its identifier nodes that take 3 to
/// 80 bytes, each once and in order.
pub proof fn identifiers_are_listed(src: Seq<u8>, v: Seq<NodeView>, found: Seq<Seq<char>>, t: Seq<char>)
    requires
        lists_once(found, idents_in(src, v)),
    ensures
        found.contains(t) <==> 3 <= byte_length(t) <= 80 && exists|i: int|
            0 <= i < v.len() && {
                let k = (#[trigger] v[i]).kind;
                &&& k == "identifier"@ || k == "type_identifier"@ || k == "field_identifier"@ || k
                    == "property_identifier"@ || k == "shorthand_property_identifier"@
                &&& source_text(src, v[i].start, v[i].end) == t
            },
{
    let at = visit_order(sizes_of(v), 0, v.len() as int);
    every_node_is_visited_once(sizes_of(v), 0, v.len() as int);
    lemma_ident_at(src, v, at, t);
    if idents_in(src, v).contains(t) {
        let j = choose|j: int| 0 <= j < at.len() && ident_of(src, v[#[trigger] at[j]]) == Some(t);
        assert(at.contains(at[j]));
        assert(source_text(src, v[at[j]].start, v[at[j]].end) == t);
    }
    if 3 <= byte_length(t) <= 80 && exists|i: int|
        0 <= i < v.len() && {
            let k = (#[trigger] v[i]).kind;
            &&& k == "identifier"@ || k == "type_identifier"@ || k == "field_identifier"@ || k
                == "property_identifier"@ || k == "shorthand_property_identifier"@
            &&& source_text(src, v[i].start, v[i].end) == t
        } {
        let i = choose|i: int|
            0 <= i < v.len() && {
                let k = (#[trigger] v[i]).kind;
                &&& k == "identifier"@ || k == "type_identifier"@ || k == "field_identifier"@ || k
                    == "property_identifier"@ || k == "shorthand_property_identifier"@
                &&& source_text(src, v[i].start, v[i].end) == t
            };
        assert(at.contains(i));
        let j = choose|j: int| 0 <= j < at.len() && at[j] == i;
        assert(ident_of(src, v[at[j]]) == Some(t));
    }
}

proof fn extensions_differ()
    ensures
        "rs"@ != "py"@,
        "rs"@ != "pyi"@,
        "rs"@ != "js"@,
        "rs"@ != "mjs"@,
        "rs"@ != "cjs"@,
        "rs"@ != "jsx"@,
        "rs"@ != "ts"@,
        "rs"@ != "mts"@,
        "rs"@ != "cts"@,
        "rs"@ != "tsx"@,
        "rs"@ != "go"@,
        "py"@ != "pyi"@,
        "py"@ != "js"@,
        "py"@ != "mjs"@,
        "py"@ != "cjs"@,
        "py"@ != "jsx"@,
        "py"@ != "ts"@,
        "py"@ != "mts"@,
        "py"@ != "cts"@,
        "py"@ != "tsx"@,
        "py"@ != "go"@,
        "pyi"@ != "js"@,
        "pyi"@ != "mjs"@,
        "pyi"@ != "cjs"@,
        "pyi"@ != "jsx"@,
        "pyi"@ != "ts"@,
        "pyi"@ != "mts"@,
        "pyi"@ != "cts"@,
        "pyi"@ != "tsx"@,
        "pyi"@ != "go"@,
        "js"@ != "mjs"@,
        "js"@ != "cjs"@,
        "js"@ != "jsx"@,
        "js"@ != "ts"@,
        "js"@ != "mts"@,
        "js"@ != "cts"@,
        "js"@ != "tsx"@,
        "js"@ != "go"@,
        "mjs"@ != "cjs"@,
        "mjs"@ != "jsx"@,
        "mjs"@ != "ts"@,
        "mjs"@ != "mts"@,
        "mjs"@ != "cts"@,
        "mjs"@ != "tsx"@,
        "mjs"@ != "go"@,
        "cjs"@ != "jsx"@,
        "cjs"@ != "ts"@,
        "cjs"@ != "mts"@,
        "cjs"@ != "cts"@,
        "cjs"@ != "tsx"@,
        "cjs"@ != "go"@,
        "jsx"@ != "ts"@,
        "jsx"@ != "mts"@,
        "jsx"@ != "cts"@,
        "jsx"@ != "tsx"@,
        "jsx"@ != "go"@,
        "ts"@ != "mts"@,
        "ts"@ != "cts"@,
        "ts"@ != "tsx"@,
        "ts"@ != "go"@,
        "mts"@ != "cts"@,
        "mts"@ != "tsx"@,
        "mts"@ != "go"@,
        "cts"@ != "tsx"@,
        "cts"@ != "go"@,
        "tsx"@ != "go"@,
{
    reveal_strlit("rs");
    assert("rs"@.len() == 2);
    reveal_strlit("py");
    assert("py"@.len() == 2);
    reveal_strlit("pyi");
    assert("pyi"@.len() == 3);
    reveal_strlit("js");
    assert("js"@.len() == 2);
    reveal_strlit("mjs");
    assert("mjs"@.len() == 3);
    reveal_strlit("cjs");
    assert("cjs"@.len() == 3);
    reveal_strlit("jsx");
    assert("jsx"@.len() == 3);
    reveal_strlit("ts");
    assert("ts"@.len() == 2);
    reveal_strlit("mts");
    assert("mts"@.len() == 3);
    reveal_strlit("cts");
    assert("cts"@.len() == 3);
    reveal_strlit("tsx");
    assert("tsx"@.len() == 3);
    reveal_strlit("go");
    assert("go"@.len() == 2);
    assert("rs"@[0] != "py"@[0]);
    assert("rs"@[0] != "js"@[0]);
    assert("rs"@[0] != "ts"@[0]);
    assert("rs"@[0] != "go"@[0]);
    assert("py"@[0] != "js"@[0]);
    assert("py"@[0] != "ts"@[0]);
    assert("py"@[0] != "go"@[0]);
    assert("pyi"@[0] != "mjs"@[0]);
    assert("pyi"@[0] != "cjs"@[0]);
    assert("pyi"@[0] != "jsx"@[0]);
    assert("pyi"@[0] != "mts"@[0]);
    assert("pyi"@[0] != "cts"@[0]);
    assert("pyi"@[0] != "tsx"@[0]);
    assert("js"@[0] != "ts"@[0]);
    assert("js"@[0] != "go"@[0]);
    assert("mjs"@[0] != "cjs"@[0]);
    assert("mjs"@[0] != "jsx"@[0]);
    assert("mjs"@[1] != "mts"@[1]);
    assert("mjs"@[0] != "cts"@[0]);
    assert("mjs"@[0] != "tsx"@[0]);
    assert("cjs"@[0] != "jsx"@[0]);
    assert("cjs"@[0] != "mts"@[0]);
    assert("cjs"@[1] != "cts"@[1]);
    assert("cjs"@[0] != "tsx"@[0]);
    assert("jsx"@[0] != "mts"@[0]);
    assert("jsx"@[0] != "cts"@[0]);
    assert("jsx"@[0] != "tsx"@[0]);
    assert("ts"@[0] != "go"@[0]);
    assert("mts"@[0] != "cts"@[0]);
    assert("mts"@[0] != "tsx"@[0]);
    assert("cts"@[0] != "tsx"@[0]);
}

/// Which files are indexed, and as what.
pub proof fn languages_go_by_extension(path: Seq<char>)
    ensures
        language_of(path) == Some(Lang::Rust) <==> extension(path) == Some("rs"@),
        language_of(path) == Some(Lang::Python) <==> extension(path) == Some("py"@) || extension(path) == Some("pyi"@),
        language_of(path) == Some(Lang::JavaScript) <==> extension(path) == Some("js"@) || extension(path) == Some("mjs"@) || extension(path) == Some("cjs"@) || extension(path) == Some("jsx"@),
        language_of(path) == Some(Lang::TypeScript) <==> extension(path) == Some("ts"@) || extension(path) == Some("mts"@) || extension(path) == Some("cts"@),
        language_of(path) == Some(Lang::Tsx) <==> extension(path) == Some("tsx"@),
        language_of(path) == Some(Lang::Go) <==> extension(path) == Some("go"@),
{
    extensions_differ();
}

} // verus!
