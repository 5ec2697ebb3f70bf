use lunarzero::index::{FileEntry, Index, ReadFile, ScanPlan, WalkEntry};
use lunarzero::symbols::{parse_file, Lang};
use lunarzero::table::Table;

#[test]
fn extracts_rust_and_ts_definitions() {
    let rs = b"pub struct Config { pub name: String }\nimpl Config {\n    pub fn load(path: &str) -> Config { todo!() }\n}\nfn helper() {}\n".to_vec();
    let (syms, idents) = parse_file(Lang::Rust, "src/config.rs", &rs);
    let names: Vec<(&str, &str)> = syms.iter().map(|s| (s.kind.as_str(), s.name.as_str())).collect();
    assert!(names.contains(&("struct", "Config")));
    assert!(names.contains(&("impl", "Config")));
    assert!(names.contains(&("fn", "load")));
    assert!(names.contains(&("fn", "helper")));
    assert!(idents.iter().any(|i| i == "Config"));
    let load = syms.iter().find(|s| s.name == "load").unwrap();
    assert_eq!(load.line, 3);
    assert_eq!(load.signature, "pub fn load(path: &str) -> Config");

    let ts = b"export interface User { id: string }\nexport const fetchUser = async (id: string) => { return id }\nclass Repo {\n  find(id: string) { return id }\n}\nconst N = 3;\n".to_vec();
    let (syms, _) = parse_file(Lang::TypeScript, "src/user.ts", &ts);
    let names: Vec<(&str, &str)> = syms.iter().map(|s| (s.kind.as_str(), s.name.as_str())).collect();
    assert!(names.contains(&("interface", "User")));
    assert!(names.contains(&("const", "fetchUser")));
    assert!(names.contains(&("class", "Repo")));
    assert!(names.contains(&("method", "find")));
    assert!(!names.iter().any(|(_, n)| *n == "N"), "{names:?}");
}

const LIB: &str =
    "pub fn render_matrix(rows: usize) -> String { String::new() }\npub struct Matrix;\n";
const MAIN: &str = "fn main() { let _ = crate::render_matrix(3); }\n";

fn walk() -> Vec<WalkEntry> {
    let entry = |path: &str, is_file: bool, len: usize| WalkEntry {
        path: path.into(),
        is_file,
        mtime: 7,
        len: len as u64,
    };
    vec![
        entry("/work", false, 0),
        entry("/work/src", false, 0),
        entry("/work/src/lib.rs", true, LIB.len()),
        entry("/work/src/main.rs", true, MAIN.len()),
    ]
}

fn read(plan: &ScanPlan) -> Vec<ReadFile> {
    plan.todo
        .iter()
        .map(|t| ReadFile {
            rel: t.rel.clone(),
            lang: t.lang,
            mtime: t.mtime,
            len: t.len,
            src: match t.path.as_str() {
                "/work/src/lib.rs" => LIB.as_bytes().to_vec(),
                "/work/src/main.rs" => MAIN.as_bytes().to_vec(),
                _ => Vec::new(),
            },
        })
        .collect()
}

#[test]
fn index_refresh_and_relevance() {
    let mut idx = Index::new("/work".into(), "/cache", 1);
    idx.load(None);
    let plan = idx.scan(&walk());
    let reads = read(&plan);
    assert!(idx.refresh(&plan, reads));
    assert_eq!(idx.stats().0, 2);
    assert_eq!(idx.definitions("render_matrix").len(), 1);
    assert_eq!(idx.references("render_matrix"), vec!["src/main.rs".to_string()]);
    let block = idx.relevant("please make the matrix export use render_matrix", 800);
    assert!(block.contains("fn render_matrix — src/lib.rs:1"), "{block}");
    assert!(block.contains("struct Matrix"), "{block}");
    assert!(idx.relevant("hello there", 800).is_empty());
    // the cache reload path gives the same answers without re-parsing
    let mut again = Index::new("/work".into(), "/cache", 1);
    again.load(Some(cached(&idx)));
    let plan = again.scan(&walk());
    assert!(plan.todo.is_empty() && plan.removed.is_empty());
    assert!(!again.refresh(&plan, Vec::new()));
    assert_eq!(again.stats(), idx.stats());
    assert_eq!(again.references("render_matrix"), idx.references("render_matrix"));
}

/// What a cache gives back of an index.
fn cached(idx: &Index) -> Table<FileEntry> {
    let kept = idx.snapshot();
    let mut files: Table<FileEntry> = Table::new();
    for i in 0..kept.len() {
        let f = kept.value(i);
        files.insert(
            kept.key(i).into(),
            FileEntry { mtime: f.mtime, len: f.len, symbols: f.symbols.clone(), idents: f.idents.clone() },
        );
    }
    files
}

#[test]
fn a_refresh_of_what_is_known_changes_nothing() {
    let mut idx = Index::new("/work".into(), "/cache", 1);
    let plan = idx.scan(&walk());
    let reads = read(&plan);
    assert!(idx.refresh(&plan, reads));
    let stats = idx.stats();
    let again = idx.scan(&walk());
    assert!(again.todo.is_empty() && again.removed.is_empty());
    assert!(!idx.refresh(&again, Vec::new()));
    assert_eq!(idx.stats(), stats);
    // what is loaded later does not take the place of what is known
    idx.load(None);
    idx.load(Some(Table::new()));
    assert_eq!(idx.stats(), stats);
}

#[test]
fn a_file_that_is_listed_twice_is_indexed_once() {
    let mut idx = Index::new("/work".into(), "/cache", 1);
    let mut twice = walk();
    twice.extend(walk());
    let last = twice.len() - 1;
    twice[last].mtime = 9;
    let plan = idx.scan(&twice);
    assert_eq!(plan.todo.len(), 4);
    let reads = read(&plan);
    idx.refresh(&plan, reads);
    assert_eq!(idx.stats().0, 2);
    assert_eq!(idx.snapshot().get("src/main.rs").map(|f| f.mtime), Some(9));
    assert_eq!(idx.snapshot().get("src/lib.rs").map(|f| f.mtime), Some(7));
}

#[test]
fn exact_names_are_listed_first() {
    let mut idx = Index::new("/work".into(), "/cache", 1);
    let plan = idx.scan(&walk());
    let reads = read(&plan);
    idx.refresh(&plan, reads);
    // `matrix` is found without regard to case, `render_matrix` as it stands
    let block = idx.relevant("the matrix of render_matrix", 800);
    assert_eq!(
        block,
        "<symbols>\nfn render_matrix — src/lib.rs:1 · used in 2 files\n  pub fn render_matrix(rows: usize) -> String\nstruct Matrix — src/lib.rs:2\n  pub struct Matrix;\n</symbols>"
    );
    let short = idx.relevant("the matrix of render_matrix", 110);
    assert!(short.contains("render_matrix") && !short.contains("struct Matrix"), "{short}");
}

use lunarzero::index::{is_scan_due, words_of};
use lunarzero::symbols::{definition_kind, first_line, is_identifier, lang_of, read_nodes, RawNode};

#[test]
fn languages_go_by_extension() {
    for (path, want) in [
        ("a.rs", Some(Lang::Rust)),
        ("a.py", Some(Lang::Python)),
        ("a.js", Some(Lang::JavaScript)),
        ("a.mjs", Some(Lang::JavaScript)),
        ("a.jsx", Some(Lang::JavaScript)),
        ("a.ts", Some(Lang::TypeScript)),
        ("a.tsx", Some(Lang::Tsx)),
        ("a.go", Some(Lang::Go)),
        ("a.txt", None),
        ("Makefile", None),
        ("a.RS", None),
    ] {
        assert!(lang_of(path) == want, "{path}");
    }
}

#[test]
fn definitions_go_by_node_kind() {
    assert_eq!(definition_kind(Lang::Rust, "function_item"), Some(("fn", "name")));
    assert_eq!(definition_kind(Lang::Rust, "impl_item"), Some(("impl", "type")));
    assert_eq!(definition_kind(Lang::Python, "class_definition"), Some(("class", "name")));
    assert_eq!(definition_kind(Lang::Go, "type_spec"), Some(("type", "name")));
    assert_eq!(definition_kind(Lang::Rust, "static_item"), Some(("const", "name")));
    assert_eq!(definition_kind(Lang::Rust, "macro_definition"), None);
    assert_eq!(definition_kind(Lang::Go, "function_item"), None);
    assert!(is_identifier("identifier") && is_identifier("type_identifier") && !is_identifier("string"));
}

#[test]
fn signatures_are_one_line() {
    assert_eq!(first_line("fn a() {\n  x\n}"), "fn a()");
    assert_eq!(first_line("struct A;"), "struct A;");
    assert_eq!(first_line(""), "");
}

#[test]
fn python_and_go_are_parsed() {
    let py = b"class Box:\n    def open(self):\n        return helper()\n".to_vec();
    let (syms, idents) = parse_file(Lang::Python, "b.py", &py);
    let names: Vec<(&str, &str, u32, u32)> =
        syms.iter().map(|s| (s.kind.as_str(), s.name.as_str(), s.line, s.end_line)).collect();
    assert_eq!(names[0], ("class", "Box", 1, 3));
    assert_eq!((names[1].1, names[1].2), ("open", 2));
    assert_eq!(idents, vec!["Box", "helper", "open", "self"]);
    let go = b"package p\nfunc (b *Box) Open() {}\ntype Box struct{}\n".to_vec();
    let (syms, _) = parse_file(Lang::Go, "b.go", &go);
    let names: Vec<&str> = syms.iter().map(|s| s.name.as_str()).collect();
    assert!(names.contains(&"Open") && names.contains(&"Box"), "{names:?}");
}

fn node(kind: &str, start: usize, end: usize, row: u32, size: usize, name: Option<(usize, usize)>) -> RawNode {
    RawNode { kind: kind.into(), start, end, row, end_row: row, size, name, owner: None, value: None }
}

#[test]
fn nodes_are_read_without_a_parser() {
    let src = b"fn ab() {}\nfn abc() {}".to_vec();
    let nodes = vec![
        node("source_file", 0, 22, 0, 5, None),
        node("function_item", 0, 10, 0, 2, Some((3, 5))),
        node("identifier", 3, 5, 0, 1, None),
        node("function_item", 11, 22, 1, 2, Some((14, 17))),
        node("identifier", 14, 17, 1, 1, None),
    ];
    let (syms, idents) = read_nodes(Lang::Rust, "x.rs", &src, &nodes);
    assert_eq!(syms.iter().map(|s| s.name.as_str()).collect::<Vec<_>>(), vec!["ab", "abc"]);
    assert_eq!((syms[1].line, syms[1].signature.as_str()), (2, "fn abc()"));
    // identifiers of less than three bytes are left out
    assert_eq!(idents, vec!["abc"]);
}

#[test]
fn index_follows_the_tree() {
    let mut idx = Index::new("/work".into(), "/cache", 0xab);
    assert_eq!(idx.cache_file(), "/cache/index/00000000000000ab.json");
    let plan = idx.scan(&walk());
    assert_eq!(plan.todo.iter().map(|t| t.rel.as_str()).collect::<Vec<_>>(), vec!["src/lib.rs", "src/main.rs"]);
    let reads = read(&plan);
    idx.refresh(&plan, reads);
    assert_eq!(idx.definitions("Matrix")[0].file, "src/lib.rs");
    assert!(idx.definitions("nothing").is_empty());
    // a file that changed is read again, one that is gone is dropped
    let mut changed = walk();
    changed[2].mtime = 8;
    changed.pop();
    let plan = idx.scan(&changed);
    assert_eq!(plan.todo.len(), 1);
    assert_eq!(plan.removed, vec!["src/main.rs"]);
    let reads = read(&plan);
    assert!(idx.refresh(&plan, reads));
    assert_eq!(idx.stats().0, 1);
    assert!(idx.references("render_matrix").is_empty());
    assert!(is_scan_due(None) && is_scan_due(Some(5)) && !is_scan_due(Some(4)));
    assert!(words_of("render_matrix in src/lib.rs!").contains(&"render_matrix".to_string()));
}
