//! Symbol index: definitions (functions, types, classes, …) and which files
//! reference them. Two consumers: the system prompt gets the handful of
//! definitions that the user's message names, and the `symbol` tool answers where
//! something is defined or used. Only files that changed are parsed again.

use crate::path::{join_path, joined_path, shown, shown_path};
use crate::sort::{lists_once, sorted_once};
use crate::symbols::{
    definitions_in, idents_in, language_of, lang_of, parse_file, symbols, syntax, Lang, Symbol, SymbolView,
};
use crate::table::Table;
use crate::text::{
    ascii_lowercase, contains, has_part, has_prefix, has_text, lowered, replace_char, same, starts_with, texts,
    with_char_replaced,
};
use vstd::prelude::*;

verus! {

pub const MAX_FILE_BYTES: u64 = 524_288;

pub const MAX_FILES: usize = 6_000;

/// Re-scan the tree for changed files at most this often.
pub const REFRESH_SECS: u64 = 5;

/// What is known of a file.
pub struct FileEntry {
    pub mtime: u64,
    pub len: u64,
    pub symbols: Vec<Symbol>,
    pub idents: Vec<String>,
}

#[verifier::ext_equal]
pub struct FileView {
    pub mtime: u64,
    pub len: u64,
    pub symbols: Seq<SymbolView>,
    pub idents: Seq<Seq<char>>,
}

impl View for FileEntry {
    type V = FileView;

    open spec fn view(&self) -> FileView {
        FileView {
            mtime: self.mtime,
            len: self.len,
            symbols: symbols(self.symbols@),
            idents: texts(self.idents@),
        }
    }
}

/// The definitions of one name.
pub struct SymbolList {
    pub items: Vec<Symbol>,
}

impl View for SymbolList {
    type V = Seq<SymbolView>;

    open spec fn view(&self) -> Seq<SymbolView> {
        symbols(self.items@)
    }
}

pub struct TextList {
    pub items: Vec<String>,
}

impl View for TextList {
    type V = Seq<Seq<char>>;

    open spec fn view(&self) -> Seq<Seq<char>> {
        texts(self.items@)
    }
}

// ───────────────────────────── what an index says ─────────────────────────────

/// The files of an index, in the order of their paths.
pub type Files = Seq<(Seq<char>, FileView)>;

pub open spec fn named(v: Seq<SymbolView>, name: Seq<char>) -> Seq<SymbolView> {
    v.filter(|s: SymbolView| s.name == name)
}

/// The definitions of `name`, file after file.
pub open spec fn defined(files: Files, name: Seq<char>) -> Seq<SymbolView>
    decreases files.len(),
{
    if files.len() == 0 {
        Seq::empty()
    } else {
        defined(files.drop_last(), name) + named(files.last().1.symbols, name)
    }
}

/// `file` as often as `idents` holds `name`.
pub open spec fn mentions(file: Seq<char>, idents: Seq<Seq<char>>, name: Seq<char>) -> Seq<Seq<char>>
    decreases idents.len(),
{
    if idents.len() == 0 {
        Seq::empty()
    } else {
        let before = mentions(file, idents.drop_last(), name);
        if idents.last() == name {
            before.push(file)
        } else {
            before
        }
    }
}

/// The files that mention `name`.
pub open spec fn mentioned(files: Files, name: Seq<char>) -> Seq<Seq<char>>
    decreases files.len(),
{
    if files.len() == 0 {
        Seq::empty()
    } else {
        mentioned(files.drop_last(), name) + mentions(files.last().0, files.last().1.idents, name)
    }
}

/// `m` holds every name that is defined, with its definitions, and no other.
pub open spec fn is_by_name(m: Map<Seq<char>, Seq<SymbolView>>, files: Files) -> bool {
    forall|name: Seq<char>| #[trigger]
        m.contains_key(name) == (defined(files, name).len() > 0) && (m.contains_key(name)
            ==> m[name] == defined(files, name))
}

/// `m` holds every defined name that is mentioned, with the files that mention
/// it, and no other.
pub open spec fn is_refs(m: Map<Seq<char>, Seq<Seq<char>>>, files: Files) -> bool {
    forall|name: Seq<char>| #[trigger]
        m.contains_key(name) == (defined(files, name).len() > 0 && mentioned(files, name).len() > 0)
            && (m.contains_key(name) ==> m[name] == mentioned(files, name))
}

proof fn lemma_named_push(v: Seq<SymbolView>, s: SymbolView, name: Seq<char>)
    ensures
        named(v.push(s), name) == (if s.name == name {
            named(v, name).push(s)
        } else {
            named(v, name)
        }),
{
    reveal(Seq::filter);
    assert(v.push(s).drop_last() =~= v);
    assert(v.push(s).last() == s);
}

/// The definitions of `name` when `part` of one more file was taken in.
spec fn defined_so_far(files: Files, part: Seq<SymbolView>, name: Seq<char>) -> Seq<SymbolView> {
    defined(files, name) + named(part, name)
}

spec fn is_by_name_so_far(m: Map<Seq<char>, Seq<SymbolView>>, files: Files, part: Seq<SymbolView>) -> bool {
    forall|name: Seq<char>| #[trigger]
        m.contains_key(name) == (defined_so_far(files, part, name).len() > 0) && (m.contains_key(
            name,
        ) ==> m[name] == defined_so_far(files, part, name))
}

fn add_symbol(t: &mut Table<SymbolList>, s: &Symbol)
    ensures
        final(t)@ == old(t)@.insert(
            s@.name,
            (if old(t)@.contains_key(s@.name) {
                old(t)@[s@.name]
            } else {
                Seq::empty()
            }).push(s@),
        ),
{
    let mut list = match t.remove(s.name.as_str()) {
        Some(l) => l,
        None => SymbolList { items: Vec::new() },
    };
    let ghost was = list@;
    assert(was =~= (if old(t)@.contains_key(s@.name) {
        old(t)@[s@.name]
    } else {
        Seq::empty()
    }));
    list.items.push(s.clone());
    assert(list@ =~= was.push(s@));
    t.insert(s.name.clone(), list);
    assert(t@ =~= old(t)@.insert(s@.name, was.push(s@)));
}

fn add_mention(t: &mut Table<TextList>, name: &str, file: &str)
    ensures
        final(t)@ == old(t)@.insert(
            name@,
            (if old(t)@.contains_key(name@) {
                old(t)@[name@]
            } else {
                Seq::empty()
            }).push(file@),
        ),
{
    let mut list = match t.remove(name) {
        Some(l) => l,
        None => TextList { items: Vec::new() },
    };
    let ghost was = list@;
    assert(was =~= (if old(t)@.contains_key(name@) {
        old(t)@[name@]
    } else {
        Seq::empty()
    }));
    list.items.push(file.to_owned());
    assert(list@ =~= was.push(file@));
    t.insert(name.to_owned(), list);
    assert(t@ =~= old(t)@.insert(name@, was.push(file@)));
}

fn index_names(files: &Table<FileEntry>) -> (t: Table<SymbolList>)
    ensures
        is_by_name(t@, files.entries()),
{
    let mut t: Table<SymbolList> = Table::new();
    let n = files.len();
    let ghost fs = files.entries();
    let mut i: usize = 0;
    assert(is_by_name(t@, fs.take(0)));
    while i < n
        invariant
            i <= n,
            n == fs.len(),
            fs == files.entries(),
            is_by_name(t@, fs.take(i as int)),
        decreases n - i,
    {
        let e = files.value(i);
        let ghost head = fs.take(i as int);
        let ghost all = symbols(e.symbols@);
        let mut j: usize = 0;
        proof {
            assert forall|name: Seq<char>| defined_so_far(head, all.take(0), name) == defined(
                head,
                name,
            ) by {
                reveal(Seq::filter);
                assert(named(all.take(0), name) =~= Seq::empty());
                assert(defined(head, name) + Seq::<SymbolView>::empty() =~= defined(head, name));
            }
            assert(is_by_name_so_far(t@, head, all.take(0))) by {
                assert forall|name: Seq<char>| #[trigger]
                    t@.contains_key(name) == (defined_so_far(head, all.take(0), name).len() > 0)
                        && (t@.contains_key(name) ==> t@[name] == defined_so_far(
                        head,
                        all.take(0),
                        name,
                    )) by {
                    assert(defined_so_far(head, all.take(0), name) == defined(head, name));
                }
            }
        }
        while j < e.symbols.len()
            invariant
                j <= e.symbols@.len(),
                all == symbols(e.symbols@),
                is_by_name_so_far(t@, head, all.take(j as int)),
            decreases e.symbols@.len() - j,
        {
            let ghost before = t@;
            let s = &e.symbols[j];
            add_symbol(&mut t, s);
            proof {
                let part = all.take(j as int);
                let next = all.take(j + 1);
                assert(next =~= part.push(s@));
                assert forall|name: Seq<char>| #[trigger]
                    t@.contains_key(name) == (defined_so_far(head, next, name).len() > 0) && (
                    t@.contains_key(name) ==> t@[name] == defined_so_far(head, next, name)) by {
                    lemma_named_push(part, s@, name);
                    assert(before.contains_key(name) == (defined_so_far(head, part, name).len()
                        > 0));
                    if name == s@.name {
                        assert(defined_so_far(head, next, name) =~= defined_so_far(
                            head,
                            part,
                            name,
                        ).push(s@));
                        if !before.contains_key(name) {
                            assert(defined_so_far(head, part, name) =~= Seq::empty());
                        }
                    }
                }
            }
            j += 1;
        }
        proof {
            let next = fs.take(i + 1);
            assert(next.drop_last() =~= head);
            assert(next.last() == fs[i as int]);
            assert(all.take(j as int) =~= all);
            assert forall|name: Seq<char>| #[trigger]
                t@.contains_key(name) == (defined(next, name).len() > 0) && (t@.contains_key(name)
                    ==> t@[name] == defined(next, name)) by {
                assert(defined(next, name) == defined_so_far(head, all, name));
            }
        }
        i += 1;
    }
    assert(fs.take(n as int) =~= fs);
    t
}

spec fn mentioned_so_far(
    files: Files,
    file: Seq<char>,
    part: Seq<Seq<char>>,
    name: Seq<char>,
) -> Seq<Seq<char>> {
    mentioned(files, name) + mentions(file, part, name)
}

spec fn is_refs_so_far(
    m: Map<Seq<char>, Seq<Seq<char>>>,
    known: Map<Seq<char>, Seq<SymbolView>>,
    files: Files,
    file: Seq<char>,
    part: Seq<Seq<char>>,
) -> bool {
    forall|name: Seq<char>| #[trigger]
        m.contains_key(name) == (known.contains_key(name) && mentioned_so_far(
            files,
            file,
            part,
            name,
        ).len() > 0) && (m.contains_key(name) ==> m[name] == mentioned_so_far(
            files,
            file,
            part,
            name,
        ))
}

spec fn is_refs_known(
    m: Map<Seq<char>, Seq<Seq<char>>>,
    known: Map<Seq<char>, Seq<SymbolView>>,
    files: Files,
) -> bool {
    forall|name: Seq<char>| #[trigger]
        m.contains_key(name) == (known.contains_key(name) && mentioned(files, name).len() > 0) && (
        m.contains_key(name) ==> m[name] == mentioned(files, name))
}

fn index_refs(files: &Table<FileEntry>, by_name: &Table<SymbolList>) -> (t: Table<TextList>)
    requires
        is_by_name(by_name@, files.entries()),
    ensures
        is_refs(t@, files.entries()),
{
    let mut t: Table<TextList> = Table::new();
    let n = files.len();
    let ghost fs = files.entries();
    let ghost known = by_name@;
    let mut i: usize = 0;
    assert(is_refs_known(t@, known, fs.take(0)));
    while i < n
        invariant
            i <= n,
            n == fs.len(),
            fs == files.entries(),
            known == by_name@,
            is_refs_known(t@, known, fs.take(i as int)),
        decreases n - i,
    {
        let file = files.key(i);
        let e = files.value(i);
        let ghost head = fs.take(i as int);
        let ghost all = texts(e.idents@);
        let mut j: usize = 0;
        proof {
            assert forall|name: Seq<char>| #[trigger]
                t@.contains_key(name) == (known.contains_key(name) && mentioned_so_far(
                    head,
                    file@,
                    all.take(0),
                    name,
                ).len() > 0) && (t@.contains_key(name) ==> t@[name] == mentioned_so_far(
                    head,
                    file@,
                    all.take(0),
                    name,
                )) by {
                assert(mentions(file@, all.take(0), name) =~= Seq::empty());
                assert(mentioned_so_far(head, file@, all.take(0), name) =~= mentioned(head, name));
            }
        }
        while j < e.idents.len()
            invariant
                j <= e.idents@.len(),
                all == texts(e.idents@),
                known == by_name@,
                is_refs_so_far(t@, known, head, file@, all.take(j as int)),
            decreases e.idents@.len() - j,
        {
            let ghost before = t@;
            let id = e.idents[j].as_str();
            if by_name.contains_key(id) {
                add_mention(&mut t, id, file);
            }
            proof {
                let part = all.take(j as int);
                let next = all.take(j + 1);
                assert(next.drop_last() =~= part);
                assert(next.last() == id@);
                assert forall|name: Seq<char>| #[trigger]
                    t@.contains_key(name) == (known.contains_key(name) && mentioned_so_far(
                        head,
                        file@,
                        next,
                        name,
                    ).len() > 0) && (t@.contains_key(name) ==> t@[name] == mentioned_so_far(
                        head,
                        file@,
                        next,
                        name,
                    )) by {
                    assert(before.contains_key(name) == (known.contains_key(name)
                        && mentioned_so_far(head, file@, part, name).len() > 0));
                    if name == id@ {
                        assert(mentioned_so_far(head, file@, next, name) =~= mentioned_so_far(
                            head,
                            file@,
                            part,
                            name,
                        ).push(file@));
                        if known.contains_key(name) && !before.contains_key(name) {
                            assert(mentioned_so_far(head, file@, part, name) =~= Seq::empty());
                        }
                    } else {
                        assert(mentioned_so_far(head, file@, next, name) == mentioned_so_far(
                            head,
                            file@,
                            part,
                            name,
                        ));
                    }
                }
            }
            j += 1;
        }
        proof {
            let next = fs.take(i + 1);
            assert(next.drop_last() =~= head);
            assert(next.last() == fs[i as int]);
            assert(all.take(j as int) =~= all);
            assert forall|name: Seq<char>| #[trigger]
                t@.contains_key(name) == (known.contains_key(name) && mentioned(next, name).len()
                    > 0) && (t@.contains_key(name) ==> t@[name] == mentioned(next, name)) by {
                assert(mentioned(next, name) == mentioned_so_far(head, file@, all, name));
            }
        }
        i += 1;
    }
    assert(fs.take(n as int) =~= fs);
    assert forall|name: Seq<char>| #[trigger]
        t@.contains_key(name) == (defined(fs, name).len() > 0 && mentioned(fs, name).len() > 0) && (
        t@.contains_key(name) ==> t@[name] == mentioned(fs, name)) by {
        assert(known.contains_key(name) == (defined(fs, name).len() > 0));
    }
    t
}

// ───────────────────────────── the index ─────────────────────────────

pub struct Index {
    worktree: String,
    cache_file: String,
    files: Table<FileEntry>,
    /// name → symbols
    by_name: Table<SymbolList>,
    /// name → files referencing it
    refs: Table<TextList>,
    loaded: bool,
}

impl Index {
    /// The files in the order of their paths.
    pub closed spec fn files(&self) -> Files {
        self.files.entries()
    }

    /// The files by their paths.
    pub open spec fn file_map(&self) -> Map<Seq<char>, FileView> {
        crate::table::as_map(self.files())
    }

    /// The defined names, in order, with their definitions.
    pub closed spec fn names(&self) -> Seq<(Seq<char>, Seq<SymbolView>)> {
        self.by_name.entries()
    }

    pub closed spec fn worktree(&self) -> Seq<char> {
        self.worktree@
    }

    pub closed spec fn cache_path(&self) -> Seq<char> {
        self.cache_file@
    }

    pub closed spec fn is_loaded(&self) -> bool {
        self.loaded
    }

    /// What was looked up follows from the files.
    #[verifier::type_invariant]
    spec fn up_to_date(self) -> bool {
        is_by_name(self.by_name@, self.files.entries()) && is_refs(self.refs@, self.files.entries())
    }

    /// An empty index of `worktree`. `key` tells worktrees apart in the cache.
    pub fn new(worktree: String, cache_dir: &str, key: u64) -> (r: Self)
        ensures
            r.worktree() == worktree@,
            r.cache_path() == joined_path(
                joined_path(cache_dir@, "index"@),
                crate::text::hex(key as nat, 16) + ".json"@,
            ),
            r.files().len() == 0,
            r.file_map() == Map::<Seq<char>, FileView>::empty(),
            !r.is_loaded(),
    {
        let mut name = crate::text::hex_of(key, 16);
        name.append(".json");
        let dir = join_path(cache_dir, "index");
        Index {
            worktree,
            cache_file: join_path(dir.as_str(), name.as_str()),
            files: Table::new(),
            by_name: Table::new(),
            refs: Table::new(),
            loaded: false,
        }
    }

    pub fn cache_file(&self) -> (p: &str)
        ensures
            p@ == self.cache_path(),
    {
        self.cache_file.as_str()
    }

    fn rebuild(&mut self, files: Table<FileEntry>)
        ensures
            final(self).files() == files.entries(),
            final(self).file_map() == files@,
            final(self).worktree() == old(self).worktree(),
            final(self).cache_path() == old(self).cache_path(),
            final(self).is_loaded() == old(self).is_loaded(),
    {
        proof {
            use_type_invariant(&*self);
        }
        let by_name = index_names(&files);
        let refs = index_refs(&files, &by_name);
        let mut worktree = String::new();
        let mut cache_file = String::new();
        std::mem::swap(&mut worktree, &mut self.worktree);
        std::mem::swap(&mut cache_file, &mut self.cache_file);
        let loaded = self.loaded;
        *self = Index { worktree, cache_file, files, by_name, refs, loaded };
    }
}

// ───────────────────────────── refreshing ─────────────────────────────

/// A file or directory that a walk of the tree came by.
pub struct WalkEntry {
    pub path: String,
    pub is_file: bool,
    pub mtime: u64,
    pub len: u64,
}

/// A file that has to be parsed again.
pub struct TodoFile {
    pub rel: String,
    pub path: String,
    pub lang: Lang,
    pub mtime: u64,
    pub len: u64,
}

pub struct TodoView {
    pub rel: Seq<char>,
    pub path: Seq<char>,
    pub lang: Lang,
    pub mtime: u64,
    pub len: u64,
}

impl View for TodoFile {
    type V = TodoView;

    open spec fn view(&self) -> TodoView {
        TodoView {
            rel: self.rel@,
            path: self.path@,
            lang: self.lang,
            mtime: self.mtime,
            len: self.len,
        }
    }
}

pub open spec fn todos(v: Seq<TodoFile>) -> Seq<TodoView> {
    Seq::new(v.len(), |i: int| v[i]@)
}

/// A path within the worktree, with slashes.
pub open spec fn rel_of(worktree: Seq<char>, path: Seq<char>) -> Seq<char> {
    replace_char(shown(path, worktree), '\\', "/"@)
}

/// Dependencies and build output are not indexed.
pub open spec fn is_foreign(rel: Seq<char>) -> bool {
    contains(rel, "node_modules/"@) || contains(rel, "/target/"@) || starts_with(rel, "target/"@)
}

/// Whether a walk entry is a source file to index.
pub open spec fn is_source(worktree: Seq<char>, e: WalkEntry) -> bool {
    &&& language_of(e.path@) is Some
    &&& e.is_file
    &&& e.len <= MAX_FILE_BYTES
    &&& !is_foreign(rel_of(worktree, e.path@))
}

/// Whether the index already has this state of the file.
pub open spec fn is_fresh(files: Map<Seq<char>, FileView>, rel: Seq<char>, e: WalkEntry) -> bool {
    files.contains_key(rel) && files[rel].mtime == e.mtime && files[rel].len == e.len
}

/// The source files that a walk comes by, up to the limit.
pub open spec fn seen_in(worktree: Seq<char>, walk: Seq<WalkEntry>) -> Set<Seq<char>>
    decreases walk.len(),
{
    if walk.len() == 0 {
        Set::empty()
    } else {
        let before = seen_in(worktree, walk.drop_last());
        if before.len() < MAX_FILES && is_source(worktree, walk.last()) {
            before.insert(rel_of(worktree, walk.last().path@))
        } else {
            before
        }
    }
}

/// The files among them that have to be parsed again.
pub open spec fn todo_in(
    worktree: Seq<char>,
    files: Map<Seq<char>, FileView>,
    walk: Seq<WalkEntry>,
) -> Seq<TodoView>
    decreases walk.len(),
{
    if walk.len() == 0 {
        Seq::empty()
    } else {
        let e = walk.last();
        let before = todo_in(worktree, files, walk.drop_last());
        let rel = rel_of(worktree, e.path@);
        if seen_in(worktree, walk.drop_last()).len() < MAX_FILES && is_source(worktree, e)
            && !is_fresh(files, rel, e) {
            before.push(
                TodoView {
                    rel,
                    path: e.path@,
                    lang: language_of(e.path@)->0,
                    mtime: e.mtime,
                    len: e.len,
                },
            )
        } else {
            before
        }
    }
}

/// The indexed files that a walk did not come by.
pub open spec fn gone_from(files: Files, seen: Set<Seq<char>>) -> Seq<Seq<char>>
    decreases files.len(),
{
    if files.len() == 0 {
        Seq::empty()
    } else {
        let before = gone_from(files.drop_last(), seen);
        if seen.contains(files.last().0) {
            before
        } else {
            before.push(files.last().0)
        }
    }
}

/// What a refresh has to do.
pub struct ScanPlan {
    pub todo: Vec<TodoFile>,
    pub removed: Vec<String>,
}

/// The content of a file that had to be parsed again.
pub struct ReadFile {
    pub rel: String,
    pub lang: Lang,
    pub mtime: u64,
    pub len: u64,
    pub src: Vec<u8>,
}

/// What is known of a file once it was parsed.
pub open spec fn file_after(r: ReadFile) -> FileView {
    FileView {
        mtime: r.mtime,
        len: r.len,
        symbols: match syntax(r.lang, r.src@) {
            Some(v) => definitions_in(r.lang, r.rel@, r.src@, v),
            None => Seq::empty(),
        },
        idents: match syntax(r.lang, r.src@) {
            Some(v) => crate::sort::once_sorted(idents_in(r.src@, v)),
            None => Seq::empty(),
        },
    }
}

pub open spec fn without_files(m: Map<Seq<char>, FileView>, gone: Seq<Seq<char>>) -> Map<
    Seq<char>,
    FileView,
>
    decreases gone.len(),
{
    if gone.len() == 0 {
        m
    } else {
        without_files(m, gone.drop_last()).remove(gone.last())
    }
}

pub open spec fn with_files(m: Map<Seq<char>, FileView>, reads: Seq<ReadFile>) -> Map<
    Seq<char>,
    FileView,
>
    decreases reads.len(),
{
    if reads.len() == 0 {
        m
    } else {
        with_files(m, reads.drop_last()).insert(reads.last().rel@, file_after(reads.last()))
    }
}

/// Whether the entry at a place of a walk is a source file within the limit.
pub open spec fn is_counted(worktree: Seq<char>, walk: Seq<WalkEntry>, n: int) -> bool {
    seen_in(worktree, walk.take(n)).len() < MAX_FILES && is_source(worktree, walk[n])
}

pub open spec fn rel_at(worktree: Seq<char>, walk: Seq<WalkEntry>, n: int) -> Seq<char> {
    rel_of(worktree, walk[n].path@)
}

/// Whether a file to parse is the one at a place of a walk.
pub open spec fn is_todo_at(t: TodoView, worktree: Seq<char>, walk: Seq<WalkEntry>, n: int) -> bool {
    t.rel == rel_at(worktree, walk, n) && t.mtime == walk[n].mtime && t.len == walk[n].len && Some(
        t.lang,
    ) == language_of(walk[n].path@)
}

proof fn lemma_todo_found(worktree: Seq<char>, m: Map<Seq<char>, FileView>, walk: Seq<WalkEntry>, n: int)
    requires
        0 <= n < walk.len(),
        is_counted(worktree, walk, n),
        !is_fresh(m, rel_at(worktree, walk, n), walk[n]),
    ensures
        exists|i: int|
            0 <= i < todo_in(worktree, m, walk).len() && is_todo_at(
                #[trigger] todo_in(worktree, m, walk)[i],
                worktree,
                walk,
                n,
            ),
    decreases walk.len(),
{
    let d = walk.drop_last();
    let todo = todo_in(worktree, m, walk);
    if n < d.len() {
        assert(d.take(n) =~= walk.take(n));
        lemma_todo_found(worktree, m, d, n);
        let before = todo_in(worktree, m, d);
        let i = choose|i: int| 0 <= i < before.len() && is_todo_at(#[trigger] before[i], worktree, d, n);
        assert(todo[i] == before[i]);
        assert(is_todo_at(todo[i], worktree, walk, n));
    } else {
        assert(walk.take(n) =~= d);
        assert(is_todo_at(todo[todo.len() - 1], worktree, walk, n));
    }
}

proof fn lemma_todo_from(worktree: Seq<char>, m: Map<Seq<char>, FileView>, walk: Seq<WalkEntry>, i: int)
    requires
        0 <= i < todo_in(worktree, m, walk).len(),
    ensures
        exists|n: int|
            0 <= n < walk.len() && #[trigger] is_counted(worktree, walk, n) && !is_fresh(
                m,
                rel_at(worktree, walk, n),
                walk[n],
            ) && is_todo_at(todo_in(worktree, m, walk)[i], worktree, walk, n),
    decreases walk.len(),
{
    let d = walk.drop_last();
    let before = todo_in(worktree, m, d);
    if i < before.len() {
        lemma_todo_from(worktree, m, d, i);
        let n = choose|n: int|
            0 <= n < d.len() && #[trigger] is_counted(worktree, d, n) && !is_fresh(
                m,
                rel_at(worktree, d, n),
                d[n],
            ) && is_todo_at(before[i], worktree, d, n);
        assert(d.take(n) =~= walk.take(n));
        assert(is_counted(worktree, walk, n));
    } else {
        let n = walk.len() - 1;
        assert(walk.take(n) =~= d);
        assert(is_counted(worktree, walk, n));
    }
}

proof fn lemma_seen(worktree: Seq<char>, walk: Seq<WalkEntry>, n: int)
    requires
        0 <= n < walk.len(),
        is_counted(worktree, walk, n),
    ensures
        seen_in(worktree, walk).contains(rel_at(worktree, walk, n)),
    decreases walk.len(),
{
    let d = walk.drop_last();
    if n < d.len() {
        assert(d.take(n) =~= walk.take(n));
        lemma_seen(worktree, d, n);
    } else {
        assert(walk.take(n) =~= d);
    }
}

proof fn lemma_without(m: Map<Seq<char>, FileView>, gone: Seq<Seq<char>>, k: Seq<char>)
    ensures
        without_files(m, gone).contains_key(k) == (m.contains_key(k) && !gone.contains(k)),
        without_files(m, gone).contains_key(k) ==> without_files(m, gone)[k] == m[k],
    decreases gone.len(),
{
    if gone.len() > 0 {
        let d = gone.drop_last();
        lemma_without(m, d, k);
        if d.contains(k) {
            let i = choose|i: int| 0 <= i < d.len() && d[i] == k;
            assert(gone[i] == k);
        }
        if gone.contains(k) && k != gone.last() {
            let i = choose|i: int| 0 <= i < gone.len() && gone[i] == k;
            assert(d[i] == k);
        }
        if k == gone.last() {
            assert(gone[gone.len() - 1] == k);
        }
    }
}

proof fn lemma_gone(files: Files, seen: Set<Seq<char>>, k: Seq<char>)
    ensures
        gone_from(files, seen).contains(k) <==> !seen.contains(k) && exists|i: int|
            0 <= i < files.len() && #[trigger] files[i].0 == k,
    decreases files.len(),
{
    let gone = gone_from(files, seen);
    if files.len() > 0 {
        let d = files.drop_last();
        let before = gone_from(d, seen);
        lemma_gone(d, seen, k);
        if before.contains(k) {
            let i = choose|i: int| 0 <= i < before.len() && before[i] == k;
            assert(gone[i] == k);
            let j = choose|j: int| 0 <= j < d.len() && #[trigger] d[j].0 == k;
            assert(files[j].0 == k);
        }
        if gone.contains(k) && !before.contains(k) {
            let i = choose|i: int| 0 <= i < gone.len() && gone[i] == k;
            if i < before.len() {
                assert(before[i] == k);
            }
            assert(files[files.len() - 1].0 == k);
        }
        if !seen.contains(k) && exists|i: int| 0 <= i < files.len() && #[trigger] files[i].0 == k {
            let i = choose|i: int| 0 <= i < files.len() && #[trigger] files[i].0 == k;
            if i < d.len() {
                assert(d[i].0 == k);
            } else {
                assert(gone[gone.len() - 1] == k);
            }
        }
    }
}

/// A file that was not read stays as it was.
proof fn lemma_not_read(m: Map<Seq<char>, FileView>, reads: Seq<ReadFile>, k: Seq<char>)
    requires
        forall|i: int| 0 <= i < reads.len() ==> #[trigger] reads[i].rel@ != k,
    ensures
        with_files(m, reads).contains_key(k) == m.contains_key(k),
        m.contains_key(k) ==> with_files(m, reads)[k] == m[k],
    decreases reads.len(),
{
    if reads.len() > 0 {
        let d = reads.drop_last();
        assert forall|i: int| 0 <= i < d.len() implies #[trigger] d[i].rel@ != k by {
            assert(reads[i].rel@ != k);
        }
        lemma_not_read(m, d, k);
        assert(reads[reads.len() - 1].rel@ != k);
    }
}

/// A file is as it was read last.
proof fn lemma_read_last(m: Map<Seq<char>, FileView>, reads: Seq<ReadFile>, k: Seq<char>, i: int)
    requires
        0 <= i < reads.len(),
        reads[i].rel@ == k,
        forall|j: int| i < j < reads.len() ==> #[trigger] reads[j].rel@ != k,
    ensures
        with_files(m, reads).contains_key(k),
        with_files(m, reads)[k] == file_after(reads[i]),
    decreases reads.len(),
{
    let d = reads.drop_last();
    if i < d.len() {
        assert(d[i] == reads[i]);
        assert forall|j: int| i < j < d.len() implies #[trigger] d[j].rel@ != k by {
            assert(reads[j].rel@ != k);
        }
        lemma_read_last(m, d, k, i);
        assert(reads[reads.len() - 1].rel@ != k);
    }
}

/// Whether what was read is what had to be parsed again, file by file.
pub open spec fn answers(reads: Seq<ReadFile>, todo: Seq<TodoView>) -> bool {
    reads.len() == todo.len() && forall|i: int|
        0 <= i < reads.len() ==> (#[trigger] reads[i]).rel@ == todo[i].rel && reads[i].mtime
            == todo[i].mtime && reads[i].len == todo[i].len && reads[i].lang == todo[i].lang
}

/// Entries of one source file show the same of it.
pub open spec fn is_consistent_walk(worktree: Seq<char>, walk: Seq<WalkEntry>) -> bool {
    forall|a: int, b: int|
        0 <= a < walk.len() && 0 <= b < walk.len() && #[trigger] is_source(worktree, walk[a])
            && #[trigger] is_source(worktree, walk[b]) && rel_at(worktree, walk, a) == rel_at(
            worktree,
            walk,
            b,
        ) ==> walk[a].mtime == walk[b].mtime && walk[a].len == walk[b].len && language_of(
            walk[a].path@,
        ) == language_of(walk[b].path@)
}

/// The files of an index once a walk was followed up.
pub open spec fn followed_up(
    worktree: Seq<char>,
    files: Files,
    walk: Seq<WalkEntry>,
    reads: Seq<ReadFile>,
) -> Map<Seq<char>, FileView> {
    with_files(
        without_files(
            crate::table::as_map(files),
            gone_from(files, seen_in(worktree, walk)),
        ),
        reads,
    )
}

/// What was read of a file is what stands at its place of the walk.
proof fn lemma_read_at(
    worktree: Seq<char>,
    m: Map<Seq<char>, FileView>,
    walk: Seq<WalkEntry>,
    reads: Seq<ReadFile>,
    i: int,
) -> (n: int)
    requires
        answers(reads, todo_in(worktree, m, walk)),
        0 <= i < reads.len(),
    ensures
        0 <= n < walk.len(),
        is_counted(worktree, walk, n),
        !is_fresh(m, rel_at(worktree, walk, n), walk[n]),
        reads[i].rel@ == rel_at(worktree, walk, n),
        reads[i].mtime == walk[n].mtime,
        reads[i].len == walk[n].len,
        Some(reads[i].lang) == language_of(walk[n].path@),
{
    let todo = todo_in(worktree, m, walk);
    lemma_todo_from(worktree, m, walk, i);
    choose|n: int|
        0 <= n < walk.len() && #[trigger] is_counted(worktree, walk, n) && !is_fresh(
            m,
            rel_at(worktree, walk, n),
            walk[n],
        ) && is_todo_at(todo[i], worktree, walk, n)
}

/// What is known of a file is what was known before, where the entry of the walk
/// shows it as it was, and otherwise what was read of it.
pub open spec fn is_known_by_now(
    worktree: Seq<char>,
    files: Files,
    walk: Seq<WalkEntry>,
    reads: Seq<ReadFile>,
    n: int,
) -> bool {
    let m = crate::table::as_map(files);
    let k = rel_at(worktree, walk, n);
    let after = followed_up(worktree, files, walk, reads);
    &&& after.contains_key(k)
    &&& after[k].mtime == walk[n].mtime
    &&& after[k].len == walk[n].len
    &&& if is_fresh(m, k, walk[n]) {
        after[k] == m[k]
    } else {
        exists|i: int|
            0 <= i < reads.len() && (#[trigger] reads[i]).rel@ == k && Some(reads[i].lang)
                == language_of(walk[n].path@) && after[k] == file_after(reads[i])
    }
}

proof fn lemma_indexed_is_seen(
    worktree: Seq<char>,
    files: Files,
    walk: Seq<WalkEntry>,
    reads: Seq<ReadFile>,
    k: Seq<char>,
)
    requires
        crate::table::increasing(files),
        answers(reads, todo_in(worktree, crate::table::as_map(files), walk)),
        followed_up(worktree, files, walk, reads).contains_key(k),
    ensures
        seen_in(worktree, walk).contains(k),
{
    let m = crate::table::as_map(files);
    let seen = seen_in(worktree, walk);
    let gone = gone_from(files, seen);
    let kept = without_files(m, gone);
    crate::table::lemma_as_map(files);
    if exists|i: int| 0 <= i < reads.len() && #[trigger] reads[i].rel@ == k {
        let i = choose|i: int| 0 <= i < reads.len() && #[trigger] reads[i].rel@ == k;
        let n = lemma_read_at(worktree, m, walk, reads, i);
        lemma_seen(worktree, walk, n);
    } else {
        lemma_not_read(kept, reads, k);
        lemma_without(m, gone, k);
        lemma_gone(files, seen, k);
    }
}

/// Every source file of the walk is known as one of its entries shows it: as the
/// last that was read, or as any where none was.
proof fn lemma_walked_is_known(
    worktree: Seq<char>,
    files: Files,
    walk: Seq<WalkEntry>,
    reads: Seq<ReadFile>,
    n: int,
) -> (x: int)
    requires
        crate::table::increasing(files),
        answers(reads, todo_in(worktree, crate::table::as_map(files), walk)),
        0 <= n < walk.len(),
        is_counted(worktree, walk, n),
    ensures
        0 <= x < walk.len(),
        is_counted(worktree, walk, x),
        rel_at(worktree, walk, x) == rel_at(worktree, walk, n),
        is_known_by_now(worktree, files, walk, reads, x),
{
    let m = crate::table::as_map(files);
    let seen = seen_in(worktree, walk);
    let gone = gone_from(files, seen);
    let kept = without_files(m, gone);
    let k = rel_at(worktree, walk, n);
    if exists|i: int| 0 <= i < reads.len() && #[trigger] reads[i].rel@ == k {
        let i = choose|i: int| 0 <= i < reads.len() && #[trigger] reads[i].rel@ == k;
        let last = lemma_last_read(reads, k, i);
        let x = lemma_read_at(worktree, m, walk, reads, last);
        lemma_read_last(kept, reads, k, last);
        x
    } else {
        if !is_fresh(m, k, walk[n]) {
            let todo = todo_in(worktree, m, walk);
            lemma_todo_found(worktree, m, walk, n);
            let i = choose|i: int|
                0 <= i < todo.len() && is_todo_at(#[trigger] todo[i], worktree, walk, n);
            assert(reads[i].rel@ == k);
        }
        lemma_not_read(kept, reads, k);
        lemma_seen(worktree, walk, n);
        lemma_without(m, gone, k);
        lemma_gone(files, seen, k);
        n
    }
}

proof fn lemma_seen_from(worktree: Seq<char>, walk: Seq<WalkEntry>, k: Seq<char>)
    requires
        seen_in(worktree, walk).contains(k),
    ensures
        exists|n: int|
            0 <= n < walk.len() && #[trigger] is_counted(worktree, walk, n) && rel_at(
                worktree,
                walk,
                n,
            ) == k,
    decreases walk.len(),
{
    let d = walk.drop_last();
    if seen_in(worktree, d).contains(k) {
        lemma_seen_from(worktree, d, k);
        let n = choose|n: int|
            0 <= n < d.len() && #[trigger] is_counted(worktree, d, n) && rel_at(worktree, d, n) == k;
        assert(d.take(n) =~= walk.take(n));
        assert(is_counted(worktree, walk, n));
        assert(rel_at(worktree, walk, n) == k);
    } else {
        let n = walk.len() - 1;
        assert(walk.take(n) =~= d);
        assert(is_counted(worktree, walk, n));
        assert(rel_at(worktree, walk, n) == k);
    }
}

/// Whether a file is known as an entry of a walk shows it.
pub open spec fn is_as_walked(
    worktree: Seq<char>,
    files: Files,
    walk: Seq<WalkEntry>,
    reads: Seq<ReadFile>,
    k: Seq<char>,
    n: int,
) -> bool {
    &&& 0 <= n < walk.len()
    &&& is_counted(worktree, walk, n)
    &&& rel_at(worktree, walk, n) == k
    &&& is_known_by_now(worktree, files, walk, reads, n)
}

/// Once all that changed was read, the index holds the source files of the walk
/// and no others, each with the time and the length that the walk gives it: one
/// that is as it was is kept, every other is as it was read. Where entries of one
/// file agree, that is so of every entry of the walk, and the same walk then finds
/// nothing left to do.
pub proof fn refreshed_index_is_up_to_date(
    worktree: Seq<char>,
    files: Files,
    walk: Seq<WalkEntry>,
    reads: Seq<ReadFile>,
)
    requires
        crate::table::increasing(files),
        answers(reads, todo_in(worktree, crate::table::as_map(files), walk)),
    ensures
        ({
            let after = followed_up(worktree, files, walk, reads);
            &&& after.dom() == seen_in(worktree, walk)
            &&& forall|k: Seq<char>| #[trigger]
                after.contains_key(k) <==> exists|n: int|
                    0 <= n < walk.len() && #[trigger] is_counted(worktree, walk, n) && rel_at(
                        worktree,
                        walk,
                        n,
                    ) == k
            &&& forall|k: Seq<char>| #[trigger]
                after.contains_key(k) ==> exists|n: int|
                    is_as_walked(worktree, files, walk, reads, k, n)
            &&& is_consistent_walk(worktree, walk) ==> {
                &&& forall|n: int|
                    0 <= n < walk.len() && #[trigger] is_counted(worktree, walk, n)
                        ==> is_known_by_now(worktree, files, walk, reads, n)
                &&& todo_in(worktree, after, walk).len() == 0
            }
        }),
{
    let after = followed_up(worktree, files, walk, reads);
    let seen = seen_in(worktree, walk);
    assert forall|k: Seq<char>| #[trigger] after.contains_key(k) <==> exists|n: int|
        0 <= n < walk.len() && #[trigger] is_counted(worktree, walk, n) && rel_at(worktree, walk, n)
            == k by {
        if after.contains_key(k) {
            lemma_indexed_is_seen(worktree, files, walk, reads, k);
            lemma_seen_from(worktree, walk, k);
        }
        if exists|n: int|
            0 <= n < walk.len() && #[trigger] is_counted(worktree, walk, n) && rel_at(
                worktree,
                walk,
                n,
            ) == k {
            let n = choose|n: int|
                0 <= n < walk.len() && #[trigger] is_counted(worktree, walk, n) && rel_at(
                    worktree,
                    walk,
                    n,
                ) == k;
            let x = lemma_walked_is_known(worktree, files, walk, reads, n);
        }
    }
    assert forall|k: Seq<char>| #[trigger] after.contains_key(k) implies exists|n: int|
        is_as_walked(worktree, files, walk, reads, k, n) by {
        let n = choose|n: int|
            0 <= n < walk.len() && #[trigger] is_counted(worktree, walk, n) && rel_at(
                worktree,
                walk,
                n,
            ) == k;
        let x = lemma_walked_is_known(worktree, files, walk, reads, n);
        assert(is_as_walked(worktree, files, walk, reads, k, x));
    }
    assert forall|k: Seq<char>| after.contains_key(k) <==> seen.contains(k) by {
        if after.contains_key(k) {
            lemma_indexed_is_seen(worktree, files, walk, reads, k);
        }
        if seen.contains(k) {
            lemma_seen_from(worktree, walk, k);
        }
    }
    assert(after.dom() =~= seen);
    if is_consistent_walk(worktree, walk) {
        lemma_consistent_walk_is_known(worktree, files, walk, reads);
    }
}

proof fn lemma_consistent_walk_is_known(
    worktree: Seq<char>,
    files: Files,
    walk: Seq<WalkEntry>,
    reads: Seq<ReadFile>,
)
    requires
        crate::table::increasing(files),
        answers(reads, todo_in(worktree, crate::table::as_map(files), walk)),
        is_consistent_walk(worktree, walk),
    ensures
        forall|n: int|
            0 <= n < walk.len() && #[trigger] is_counted(worktree, walk, n) ==> is_known_by_now(
                worktree,
                files,
                walk,
                reads,
                n,
            ),
        todo_in(worktree, followed_up(worktree, files, walk, reads), walk).len() == 0,
{
    let after = followed_up(worktree, files, walk, reads);
    assert forall|n: int|
        0 <= n < walk.len() && #[trigger] is_counted(worktree, walk, n) implies is_known_by_now(
        worktree,
        files,
        walk,
        reads,
        n,
    ) by {
        let x = lemma_walked_is_known(worktree, files, walk, reads, n);
        assert(is_source(worktree, walk[x]) && is_source(worktree, walk[n]));
        assert(rel_at(worktree, walk, x) == rel_at(worktree, walk, n));
    }
    if todo_in(worktree, after, walk).len() > 0 {
        lemma_todo_from(worktree, after, walk, 0);
        let n = choose|n: int|
            0 <= n < walk.len() && #[trigger] is_counted(worktree, walk, n) && !is_fresh(
                after,
                rel_at(worktree, walk, n),
                walk[n],
            ) && is_todo_at(todo_in(worktree, after, walk)[0], worktree, walk, n);
        assert(is_known_by_now(worktree, files, walk, reads, n));
    }
}

/// An index that was brought up to date is left as it is by the same walk.
pub proof fn refreshing_again_changes_nothing(
    worktree: Seq<char>,
    files: Files,
    walk: Seq<WalkEntry>,
    reads: Seq<ReadFile>,
    after: Files,
)
    requires
        crate::table::increasing(files),
        crate::table::increasing(after),
        is_consistent_walk(worktree, walk),
        answers(reads, todo_in(worktree, crate::table::as_map(files), walk)),
        crate::table::as_map(after) == followed_up(worktree, files, walk, reads),
    ensures
        todo_in(worktree, crate::table::as_map(after), walk).len() == 0,
        gone_from(after, seen_in(worktree, walk)).len() == 0,
        followed_up(worktree, after, walk, Seq::empty()) == crate::table::as_map(after),
{
    let seen = seen_in(worktree, walk);
    let gone = gone_from(after, seen);
    refreshed_index_is_up_to_date(worktree, files, walk, reads);
    crate::table::lemma_as_map(after);
    if gone.len() > 0 {
        let k = gone[0];
        assert(gone.contains(k));
        lemma_gone(after, seen, k);
        let i = choose|i: int| 0 <= i < after.len() && #[trigger] after[i].0 == k;
        assert(crate::table::as_map(after).contains_key(after[i].0));
        assert(seen.contains(k));
    }
}

proof fn lemma_last_read(reads: Seq<ReadFile>, k: Seq<char>, i: int) -> (last: int)
    requires
        0 <= i < reads.len(),
        reads[i].rel@ == k,
    ensures
        i <= last < reads.len(),
        reads[last].rel@ == k,
        forall|j: int| last < j < reads.len() ==> #[trigger] reads[j].rel@ != k,
    decreases reads.len() - i,
{
    if exists|j: int| i < j < reads.len() && #[trigger] reads[j].rel@ == k {
        let j = choose|j: int| i < j < reads.len() && #[trigger] reads[j].rel@ == k;
        lemma_last_read(reads, k, j)
    } else {
        i
    }
}

/// Whether the tree has to be scanned again: it never was, or not lately.
pub fn is_scan_due(seconds_since_scan: Option<u64>) -> (b: bool)
    ensures
        b == (seconds_since_scan matches Some(s) ==> s >= REFRESH_SECS),
{
    match seconds_since_scan {
        Some(s) => s >= REFRESH_SECS,
        None => true,
    }
}

impl Index {
    /// Takes over what the cache holds, once.
    pub fn load(&mut self, cached: Option<Table<FileEntry>>)
        ensures
            final(self).is_loaded(),
            final(self).worktree() == old(self).worktree(),
            final(self).cache_path() == old(self).cache_path(),
            !old(self).is_loaded() && cached is Some ==> final(self).file_map() == cached->0@ && final(self).files() == cached->0.entries(),
            old(self).is_loaded() || cached is None ==> final(self).file_map() == old(self).file_map() && final(self).files() == old(self).files(),
    {
        proof {
            use_type_invariant(&*self);
        }
        if self.loaded {
            return;
        }
        self.loaded = true;
        if let Some(files) = cached {
            self.rebuild(files);
        }
    }

    fn path_in_tree(&self, path: &str) -> (r: String)
        ensures
            r@ == rel_of(self.worktree(), path@),
    {
        let p = shown_path(path, self.worktree.as_str());
        with_char_replaced(p.as_str(), '\\', "/")
    }

    /// What changed in the tree since the index was made, from a walk that keeps
    /// to the ignore files.
    pub fn scan(&self, walk: &Vec<WalkEntry>) -> (r: ScanPlan)
        ensures
            todos(r.todo@) == todo_in(self.worktree(), self.file_map(), walk@),
            texts(r.removed@) == gone_from(self.files(), seen_in(self.worktree(), walk@)),
            crate::table::increasing(self.files()),
    {
        let ghost w = self.worktree();
        let ghost m = self.file_map();
        let mut seen: Vec<String> = Vec::new();
        let mut todo: Vec<TodoFile> = Vec::new();
        let mut i: usize = 0;
        proof {
            assert(texts(seen@) =~= Seq::empty());
            assert(texts(seen@).to_set() =~= Set::empty());
            assert(todos(todo@) =~= Seq::empty());
        }
        while i < walk.len()
            invariant
                i <= walk@.len(),
                w == self.worktree(),
                m == self.file_map(),
                crate::sort::ascending(texts(seen@)),
                texts(seen@).to_set() == seen_in(w, walk@.take(i as int)),
                todos(todo@) == todo_in(w, m, walk@.take(i as int)),
            decreases walk@.len() - i,
        {
            let e = &walk[i];
            let ghost before = texts(seen@);
            proof {
                assert(walk@.take(i + 1).drop_last() =~= walk@.take(i as int));
                assert(walk@.take(i + 1).last() == *e);
                crate::sort::lemma_ascending_set(before);
                assert(before.len() == seen@.len());
            }
            if seen.len() < MAX_FILES {
                if let Some(lang) = lang_of(e.path.as_str()) {
                    if e.is_file && e.len <= MAX_FILE_BYTES {
                        let rel = self.path_in_tree(e.path.as_str());
                        let r = rel.as_str();
                        if !(has_part(r, "node_modules/") || has_part(r, "/target/") || has_prefix(
                            r,
                            "target/",
                        )) {
                            crate::sort::add_once(&mut seen, r);
                            proof {
                                assert(texts(seen@).to_set() =~= before.to_set().insert(r@)) by {
                                    assert forall|x: Seq<char>| #[trigger]
                                        texts(seen@).to_set().contains(x)
                                            == before.to_set().insert(r@).contains(x) by {
                                        assert(texts(seen@).contains(x) <==> before.contains(x)
                                            || x == r@);
                                    }
                                }
                            }
                            let fresh = match self.files.get(r) {
                                Some(f) => f.mtime == e.mtime && f.len == e.len,
                                None => false,
                            };
                            if !fresh {
                                let ghost was = todos(todo@);
                                let t = TodoFile {
                                    rel,
                                    path: e.path.clone(),
                                    lang,
                                    mtime: e.mtime,
                                    len: e.len,
                                };
                                let ghost tv = t@;
                                todo.push(t);
                                assert(todos(todo@) =~= was.push(tv));
                            }
                        }
                    }
                }
            }
            i += 1;
        }
        assert(walk@.take(i as int) =~= walk@);
        let removed = self.missing_from(&seen);
        ScanPlan { todo, removed }
    }

    fn missing_from(&self, seen: &Vec<String>) -> (r: Vec<String>)
        requires
            crate::sort::ascending(texts(seen@)),
        ensures
            texts(r@) == gone_from(self.files(), texts(seen@).to_set()),
            crate::table::increasing(self.files()),
    {
        let ghost fs = self.files();
        let ghost set = texts(seen@).to_set();
        let n = self.files.len();
        let mut out: Vec<String> = Vec::new();
        let mut i: usize = 0;
        assert(texts(out@) =~= gone_from(fs.take(0), set));
        while i < n
            invariant
                i <= n,
                n == fs.len(),
                fs == self.files(),
                set == texts(seen@).to_set(),
                crate::sort::ascending(texts(seen@)),
                texts(out@) == gone_from(fs.take(i as int), set),
            decreases n - i,
        {
            let k = self.files.key(i);
            assert(fs.take(i + 1).drop_last() =~= fs.take(i as int));
            assert(fs.take(i + 1).last() == fs[i as int]);
            if !crate::sort::has_sorted(seen, k) {
                let ghost was = texts(out@);
                out.push(k.to_owned());
                assert(texts(out@) =~= was.push(k@));
            }
            i += 1;
        }
        assert(fs.take(n as int) =~= fs);
        out
    }

    /// Brings the index up to date: files that are gone are dropped, and those
    /// that could be read are parsed. The result says whether the cache has to
    /// be written.
    pub fn refresh(&mut self, plan: &ScanPlan, reads: Vec<ReadFile>) -> (save: bool)
        ensures
            final(self).file_map() == with_files(
                without_files(old(self).file_map(), texts(plan.removed@)),
                reads@,
            ),
            final(self).worktree() == old(self).worktree(),
            final(self).cache_path() == old(self).cache_path(),
            final(self).is_loaded() == old(self).is_loaded(),
            save == (plan.todo@.len() > 0 || plan.removed@.len() > 0),
    {
        proof {
            use_type_invariant(&*self);
        }
        let save = plan.todo.len() > 0 || plan.removed.len() > 0;
        let mut fresh = Index {
            worktree: self.worktree.clone(),
            cache_file: self.cache_file.clone(),
            files: Table::new(),
            by_name: Table::new(),
            refs: Table::new(),
            loaded: self.loaded,
        };
        std::mem::swap(&mut fresh, self);
        let mut files = fresh.into_files();
        let ghost m0 = old(self).file_map();
        let ghost gone = texts(plan.removed@);
        let mut i: usize = 0;
        while i < plan.removed.len()
            invariant
                i <= plan.removed@.len(),
                gone == texts(plan.removed@),
                files@ == without_files(m0, gone.take(i as int)),
            decreases plan.removed@.len() - i,
        {
            assert(gone.take(i + 1).drop_last() =~= gone.take(i as int));
            assert(gone.take(i + 1).last() == plan.removed@[i as int]@);
            let _ = files.remove(plan.removed[i].as_str());
            i += 1;
        }
        assert(gone.take(i as int) =~= gone);
        let ghost m1 = without_files(m0, gone);
        let mut j: usize = 0;
        assert(reads@.take(0) =~= Seq::empty());
        while j < reads.len()
            invariant
                j <= reads@.len(),
                files@ == with_files(m1, reads@.take(j as int)),
            decreases reads@.len() - j,
        {
            let r = &reads[j];
            assert(reads@.take(j + 1).drop_last() =~= reads@.take(j as int));
            assert(reads@.take(j + 1).last() == *r);
            let (found, idents) = parse_file(r.lang, r.rel.as_str(), &r.src);
            proof {
                match syntax(r.lang, r.src@) {
                    Some(v) => {
                        crate::sort::lemma_once_sorted(texts(idents@), idents_in(r.src@, v));
                    },
                    None => {
                        assert(symbols(found@) =~= Seq::empty());
                        assert(texts(idents@) =~= Seq::empty());
                    },
                }
            }
            let e = FileEntry { mtime: r.mtime, len: r.len, symbols: found, idents };
            assert(e@ =~= file_after(*r));
            files.insert(r.rel.clone(), e);
            j += 1;
        }
        assert(reads@.take(j as int) =~= reads@);
        self.rebuild(files);
        save
    }

    /// What the cache is to hold.
    pub fn snapshot(&self) -> (t: &Table<FileEntry>)
        ensures
            t.entries() == self.files(),
            t@ == self.file_map(),
    {
        &self.files
    }

    fn into_files(self) -> (t: Table<FileEntry>)
        ensures
            t@ == self.file_map(),
    {
        self.files
    }
}

// ───────────────────────────── looking up ─────────────────────────────

/// The definitions of all names that differ from `name` in case alone.
pub open spec fn defined_alike(names: Seq<(Seq<char>, Seq<SymbolView>)>, name: Seq<char>) -> Seq<SymbolView>
    decreases names.len(),
{
    if names.len() == 0 {
        Seq::empty()
    } else {
        let before = defined_alike(names.drop_last(), name);
        if ascii_lowercase(names.last().0) == ascii_lowercase(name) {
            before + names.last().1
        } else {
            before
        }
    }
}

pub open spec fn files_of(v: Seq<SymbolView>) -> Seq<Seq<char>> {
    Seq::new(v.len(), |i: int| v[i].file)
}

/// The files that mention `name` without defining it.
pub open spec fn used_elsewhere(files: Files, name: Seq<char>) -> Seq<Seq<char>> {
    if defined(files, name).len() == 0 {
        Seq::empty()
    } else {
        let own = files_of(defined(files, name));
        mentioned(files, name).filter(|f: Seq<char>| !own.contains(f))
    }
}

pub open spec fn symbol_total(names: Seq<(Seq<char>, Seq<SymbolView>)>) -> nat
    decreases names.len(),
{
    if names.len() == 0 {
        0
    } else {
        symbol_total(names.drop_last()) + names.last().1.len()
    }
}

fn add_symbols(out: &mut Vec<Symbol>, more: &Vec<Symbol>)
    ensures
        symbols(final(out)@) == symbols(old(out)@) + symbols(more@),
{
    let ghost start = symbols(out@);
    let mut i: usize = 0;
    assert(start + symbols(more@).take(0) =~= start);
    while i < more.len()
        invariant
            i <= more@.len(),
            symbols(out@) == start + symbols(more@).take(i as int),
        decreases more@.len() - i,
    {
        let ghost was = symbols(out@);
        out.push(more[i].clone());
        assert(symbols(out@) =~= was.push(more@[i as int]@));
        i += 1;
        assert(symbols(out@) =~= start + symbols(more@).take(i as int));
    }
    assert(symbols(more@).take(i as int) =~= symbols(more@));
}

impl Index {
    /// How many files and definitions there are.
    pub fn stats(&self) -> (r: (usize, usize))
        ensures
            r.0 == self.files().len(),
            r.1 == (if symbol_total(self.names()) < usize::MAX {
                symbol_total(self.names()) as int
            } else {
                usize::MAX as int
            }),
            is_by_name(crate::table::as_map(self.names()), self.files()),
    {
        proof {
            use_type_invariant(self);
        }
        let ghost ns = self.names();
        let n = self.by_name.len();
        let mut sum: usize = 0;
        let mut i: usize = 0;
        while i < n
            invariant
                i <= n,
                n == ns.len(),
                ns == self.names(),
                sum == (if symbol_total(ns.take(i as int)) < usize::MAX {
                    symbol_total(ns.take(i as int)) as int
                } else {
                    usize::MAX as int
                }),
            decreases n - i,
        {
            assert(ns.take(i + 1).drop_last() =~= ns.take(i as int));
            assert(ns.take(i + 1).last() == ns[i as int]);
            let k: usize = self.by_name.value(i).items.len();
            assert(ns[i as int].1.len() == k);
            if k < usize::MAX - sum {
                sum += k;
            } else {
                sum = usize::MAX;
            }
            i += 1;
        }
        assert(ns.take(n as int) =~= ns);
        (self.files.len(), sum)
    }

    /// Definitions of `name` (exact, then case-insensitive).
    pub fn definitions(&self, name: &str) -> (r: Vec<Symbol>)
        ensures
            symbols(r@) == (if defined(self.files(), name@).len() > 0 {
                defined(self.files(), name@)
            } else {
                defined_alike(self.names(), name@)
            }),
            is_by_name(crate::table::as_map(self.names()), self.files()),
    {
        proof {
            use_type_invariant(self);
        }
        let mut out: Vec<Symbol> = Vec::new();
        assert(symbols(out@) =~= Seq::empty());
        if let Some(v) = self.by_name.get(name) {
            add_symbols(&mut out, &v.items);
            assert(symbols(out@) =~= v@);
            return out;
        }
        let lower = lowered(name);
        let ghost ns = self.names();
        let n = self.by_name.len();
        let mut i: usize = 0;
        while i < n
            invariant
                i <= n,
                n == ns.len(),
                ns == self.names(),
                lower@ == ascii_lowercase(name@),
                symbols(out@) == defined_alike(ns.take(i as int), name@),
            decreases n - i,
        {
            assert(ns.take(i + 1).drop_last() =~= ns.take(i as int));
            assert(ns.take(i + 1).last() == ns[i as int]);
            if same(lowered(self.by_name.key(i)).as_str(), lower.as_str()) {
                add_symbols(&mut out, &self.by_name.value(i).items);
            }
            i += 1;
        }
        assert(ns.take(n as int) =~= ns);
        out
    }

    /// Files that mention `name` (excluding where it is defined).
    pub fn references(&self, name: &str) -> (r: Vec<String>)
        ensures
            lists_once(texts(r@), used_elsewhere(self.files(), name@)),
    {
        proof {
            use_type_invariant(self);
        }
        let mut own: Vec<String> = Vec::new();
        let ghost defs = defined(self.files(), name@);
        if let Some(v) = self.by_name.get(name) {
            let mut i: usize = 0;
            while i < v.items.len()
                invariant
                    i <= v.items@.len(),
                    own@.len() == i,
                    forall|k: int| 0 <= k < i ==> (#[trigger] own@[k])@ == v.items@[k]@.file,
                decreases v.items@.len() - i,
            {
                own.push(v.items[i].file.clone());
                i += 1;
            }
            assert(texts(own@) =~= files_of(v@));
        } else {
            assert(texts(own@) =~= files_of(defs));
        }
        let ghost pred = |f: Seq<char>| !files_of(defs).contains(f);
        let mut out: Vec<String> = Vec::new();
        assert(texts(out@) =~= Seq::empty());
        if let Some(v) = self.refs.get(name) {
            let ghost all = v@;
            let mut i: usize = 0;
            proof {
                reveal(Seq::filter);
                assert(texts(out@) =~= all.take(0).filter(pred));
            }
            while i < v.items.len()
                invariant
                    i <= v.items@.len(),
                    all == texts(v.items@),
                    pred == (|f: Seq<char>| !files_of(defs).contains(f)),
                    texts(own@) == files_of(defs),
                    texts(out@) == all.take(i as int).filter(pred),
                decreases v.items@.len() - i,
            {
                let f = v.items[i].as_str();
                proof {
                    reveal(Seq::filter);
                    assert(all.take(i + 1).drop_last() =~= all.take(i as int));
                    assert(all.take(i + 1).last() == f@);
                }
                if !has_text(&own, f) {
                    let ghost was = texts(out@);
                    out.push(f.to_owned());
                    assert(texts(out@) =~= was.push(f@));
                }
                i += 1;
            }
            assert(all.take(i as int) =~= all);
        } else {
            proof {
                reveal(Seq::filter);
                if defs.len() > 0 {
                    assert(mentioned(self.files(), name@).len() == 0);
                    assert(mentioned(self.files(), name@).filter(pred) =~= Seq::empty());
                }
            }
        }
        assert(texts(out@) == used_elsewhere(self.files(), name@));
        sorted_once(&out)
    }
}

// ───────────────────────────── symbols of a prompt ─────────────────────────────

pub open spec fn is_word_char(c: char) -> bool {
    crate::text::alphanumeric(c) || c == '_'
}

/// The runs of word characters in a text; empty ones where other characters
/// meet.
pub open spec fn word_runs(s: Seq<char>) -> Seq<Seq<char>>
    decreases s.len(),
{
    if s.len() == 0 {
        seq![Seq::empty()]
    } else {
        let before = word_runs(s.drop_last());
        if is_word_char(s.last()) {
            before.drop_last().push(before.last().push(s.last()))
        } else {
            before.push(Seq::empty())
        }
    }
}

pub open spec fn all_digits(s: Seq<char>) -> bool {
    forall|i: int| 0 <= i < s.len() ==> '0' <= #[trigger] s[i] <= '9'
}

/// Whether a run may name a symbol.
pub open spec fn is_candidate(w: Seq<char>) -> bool {
    3 <= crate::text::byte_length(w) <= 80 && !all_digits(w)
}

pub open spec fn candidate_words(text: Seq<char>) -> Seq<Seq<char>> {
    word_runs(text).filter(|w: Seq<char>| is_candidate(w))
}

fn only_digits(s: &str) -> (b: bool)
    ensures
        b == all_digits(s@),
{
    let v = crate::text::chars_of(s);
    let mut i: usize = 0;
    while i < v.len()
        invariant
            i <= v@.len(),
            v@ == s@,
            forall|k: int| 0 <= k < i ==> '0' <= #[trigger] s@[k] <= '9',
        decreases v@.len() - i,
    {
        if !('0' <= v[i] && v[i] <= '9') {
            assert(s@[i as int] == v@[i as int]);
            return false;
        }
        i += 1;
    }
    true
}

fn keep_candidates(runs: &Vec<String>) -> (r: Vec<String>)
    ensures
        texts(r@) == texts(runs@).filter(|w: Seq<char>| is_candidate(w)),
{
    let ghost pred = |w: Seq<char>| is_candidate(w);
    let ghost all = texts(runs@);
    let mut out: Vec<String> = Vec::new();
    let mut i: usize = 0;
    proof {
        reveal(Seq::filter);
        assert(texts(out@) =~= all.take(0).filter(pred));
    }
    while i < runs.len()
        invariant
            i <= runs@.len(),
            all == texts(runs@),
            pred == (|w: Seq<char>| is_candidate(w)),
            texts(out@) == all.take(i as int).filter(pred),
        decreases runs@.len() - i,
    {
        let w = runs[i].as_str();
        proof {
            reveal(Seq::filter);
            assert(all.take(i + 1).drop_last() =~= all.take(i as int));
            assert(all.take(i + 1).last() == w@);
        }
        let n = crate::text::byte_len(w);
        if 3 <= n && n <= 80 && !only_digits(w) {
            let ghost was = texts(out@);
            out.push(w.to_owned());
            assert(texts(out@) =~= was.push(w@));
        }
        i += 1;
    }
    assert(all.take(i as int) =~= all);
    out
}

pub fn words_of(text: &str) -> (r: Vec<String>)
    ensures
        texts(r@) == candidate_words(text@),
{
    let v = crate::text::chars_of(text);
    let mut out: Vec<String> = Vec::new();
    let mut cur = String::new();
    let mut i: usize = 0;
    assert(texts(out@).push(cur@) =~= word_runs(v@.take(0)));
    while i < v.len()
        invariant
            i <= v@.len(),
            texts(out@).push(cur@) == word_runs(v@.take(i as int)),
        decreases v@.len() - i,
    {
        let c = v[i];
        let ghost before = word_runs(v@.take(i as int));
        assert(v@.take(i + 1).drop_last() =~= v@.take(i as int));
        if c.is_alphanumeric() || c == '_' {
            let ghost o = cur@;
            cur.push(c);
            assert(before.drop_last() =~= texts(out@));
            assert(before.last() =~= o);
        } else {
            out.push(cur);
            assert(texts(out@) =~= before);
            cur = String::new();
        }
        i += 1;
        assert(texts(out@).push(cur@) =~= word_runs(v@.take(i as int)));
    }
    assert(v@.take(i as int) =~= v@);
    let ghost o = texts(out@);
    let ghost c = cur@;
    out.push(cur);
    assert(texts(out@) =~= o.push(c));
    keep_candidates(&out)
}

/// A name without regard to case and underscores.
pub open spec fn bare(s: Seq<char>) -> Seq<char> {
    replace_char(ascii_lowercase(s), '_', ""@)
}

fn bare_of(s: &str) -> (r: String)
    ensures
        r@ == bare(s@),
{
    with_char_replaced(lowered(s).as_str(), '_', "")
}

/// The definitions of the first name that is `name` but for case and underscores.
pub open spec fn defined_loosely(names: Seq<(Seq<char>, Seq<SymbolView>)>, name: Seq<char>) -> Seq<SymbolView>
    decreases names.len(),
{
    if names.len() == 0 {
        Seq::empty()
    } else if bare(names[0].0) == bare(name) {
        names[0].1
    } else {
        defined_loosely(names.skip(1), name)
    }
}

/// What a word of a prompt names: a definition of that name, else, for a word
/// long enough to be meant as a name, one that is nearly it.
pub open spec fn meant(files: Files, names: Seq<(Seq<char>, Seq<SymbolView>)>, w: Seq<char>) -> Seq<SymbolView> {
    if defined(files, w).len() > 0 {
        defined(files, w)
    } else if crate::text::byte_length(w) >= 6 {
        defined_loosely(names, w)
    } else {
        Seq::empty()
    }
}

pub open spec fn same_place(a: SymbolView, b: SymbolView) -> bool {
    a.file == b.file && a.name == b.name && a.line == b.line
}

pub open spec fn has_place(v: Seq<SymbolView>, s: SymbolView) -> bool {
    exists|i: int| 0 <= i < v.len() && same_place(#[trigger] v[i], s)
}

/// `v` and behind it those of `more` that it does not hold yet.
pub open spec fn with_new(v: Seq<SymbolView>, more: Seq<SymbolView>) -> Seq<SymbolView>
    decreases more.len(),
{
    if more.len() == 0 {
        v
    } else {
        let before = with_new(v, more.drop_last());
        if has_place(before, more.last()) {
            before
        } else {
            before.push(more.last())
        }
    }
}

pub open spec fn first_four(v: Seq<SymbolView>) -> Seq<SymbolView> {
    if v.len() <= 4 {
        v
    } else {
        v.take(4)
    }
}

/// The words that are names as they stand, and behind them the others, each in
/// the order of the text.
pub open spec fn specific_first(files: Files, words: Seq<Seq<char>>) -> Seq<Seq<char>> {
    words.filter(|w: Seq<char>| defined(files, w).len() > 0) + words.filter(
        |w: Seq<char>| !(defined(files, w).len() > 0),
    )
}

/// The symbols that the words name, up to four for each word, until there are
/// sixteen.
pub open spec fn picked(
    files: Files,
    names: Seq<(Seq<char>, Seq<SymbolView>)>,
    words: Seq<Seq<char>>,
) -> Seq<SymbolView>
    decreases words.len(),
{
    if words.len() == 0 {
        Seq::empty()
    } else {
        let before = picked(files, names, words.drop_last());
        if before.len() >= 16 {
            before
        } else {
            with_new(before, first_four(meant(files, names, words.last())))
        }
    }
}

/// How a symbol is shown: where it is, in how many files it is used, and its
/// header.
pub open spec fn symbol_entry(files: Files, s: SymbolView) -> Seq<char> {
    let uses = mentioned(files, s.name).len();
    s.kind + " "@ + s.name + " — "@ + s.file + ":"@ + crate::text::decimal(s.line as nat) + (if uses
        > 1 {
        " · used in "@ + crate::text::decimal(uses) + " files"@
    } else {
        Seq::empty()
    }) + "\n  "@ + s.signature + "\n"@
}

/// The entries as far as they fit into `max` bytes, behind the opening tag; and
/// whether one did not.
pub open spec fn entries_within(files: Files, v: Seq<SymbolView>, max: int) -> (Seq<char>, bool)
    decreases v.len(),
{
    if v.len() == 0 {
        ("<symbols>\n"@, false)
    } else {
        let (text, full) = entries_within(files, v.drop_last(), max);
        let line = symbol_entry(files, v.last());
        if full || crate::text::byte_length(text) + crate::text::byte_length(line) > max {
            (text, true)
        } else {
            (text + line, false)
        }
    }
}

/// The block of symbols for a prompt; empty where nothing matches.
pub open spec fn symbol_block(files: Files, v: Seq<SymbolView>, max: int) -> Seq<char> {
    if v.len() == 0 {
        Seq::empty()
    } else {
        entries_within(files, v, max).0 + "</symbols>"@
    }
}

fn place_known(v: &Vec<Symbol>, s: &Symbol) -> (b: bool)
    ensures
        b == has_place(symbols(v@), s@),
{
    let mut i: usize = 0;
    while i < v.len()
        invariant
            i <= v@.len(),
            forall|k: int| 0 <= k < i ==> !same_place(#[trigger] symbols(v@)[k], s@),
        decreases v@.len() - i,
    {
        let x = &v[i];
        if same(x.file.as_str(), s.file.as_str()) && same(x.name.as_str(), s.name.as_str())
            && x.line == s.line {
            assert(same_place(symbols(v@)[i as int], s@));
            return true;
        }
        i += 1;
    }
    false
}

fn add_new(out: &mut Vec<Symbol>, more: &Vec<Symbol>)
    ensures
        symbols(final(out)@) == with_new(symbols(old(out)@), first_four(symbols(more@))),
{
    let ghost start = symbols(out@);
    let ghost all = first_four(symbols(more@));
    let n: usize = if more.len() <= 4 {
        more.len()
    } else {
        4
    };
    let mut i: usize = 0;
    assert(all.take(0).len() == 0);
    while i < n
        invariant
            i <= n,
            n == all.len(),
            n <= more@.len(),
            all == first_four(symbols(more@)),
            symbols(out@) == with_new(start, all.take(i as int)),
        decreases n - i,
    {
        assert(all.take(i + 1).drop_last() =~= all.take(i as int));
        assert(all.take(i + 1).last() == more@[i as int]@);
        if !place_known(out, &more[i]) {
            let ghost was = symbols(out@);
            out.push(more[i].clone());
            assert(symbols(out@) =~= was.push(more@[i as int]@));
        }
        i += 1;
    }
    assert(all.take(i as int) =~= all);
}

impl Index {
    fn find_loosely(&self, name: &str) -> (r: Option<usize>)
        ensures
            match r {
                Some(i) => i < self.names().len() && defined_loosely(self.names(), name@)
                    == self.names()[i as int].1,
                None => defined_loosely(self.names(), name@).len() == 0,
            },
    {
        let ghost ns = self.names();
        let want = bare_of(name);
        let n = self.by_name.len();
        let mut i: usize = 0;
        assert(ns.skip(0) =~= ns);
        while i < n
            invariant
                i <= n,
                n == ns.len(),
                ns == self.names(),
                want@ == bare(name@),
                defined_loosely(ns, name@) == defined_loosely(ns.skip(i as int), name@),
            decreases n - i,
        {
            assert(ns.skip(i as int)[0] == ns[i as int]);
            assert(ns.skip(i as int).skip(1) =~= ns.skip(i + 1));
            if same(bare_of(self.by_name.key(i)).as_str(), want.as_str()) {
                return Some(i);
            }
            i += 1;
        }
        None
    }

    fn entry_text(&self, s: &Symbol) -> (r: String)
        requires
            defined(self.files(), s@.name).len() > 0,
        ensures
            r@ == symbol_entry(self.files(), s@),
    {
        proof {
            use_type_invariant(self);
        }
        let uses: usize = match self.refs.get(s.name.as_str()) {
            Some(v) => {
                assert(v@.len() == v.items@.len());
                v.items.len()
            },
            None => 0,
        };
        assert(uses == mentioned(self.files(), s@.name).len());
        let mut r = s.kind.clone();
        r.append(" ");
        r.append(s.name.as_str());
        r.append(" — ");
        r.append(s.file.as_str());
        r.append(":");
        r.append(crate::text::decimal_of(s.line as u64).as_str());
        let ghost head = r@;
        let mut more = String::new();
        if uses > 1 {
            more.append(" · used in ");
            more.append(crate::text::decimal_of(uses as u64).as_str());
            more.append(" files");
        }
        assert(more@ =~= (if uses > 1 {
            " · used in "@ + crate::text::decimal(uses as nat) + " files"@
        } else {
            Seq::empty()
        }));
        r.append(more.as_str());
        r.append("\n  ");
        r.append(s.signature.as_str());
        r.append("\n");
        r
    }

    fn pick_symbols(&self, words: &Vec<String>) -> (r: Vec<Symbol>)
        ensures
            symbols(r@) == picked(self.files(), self.names(), texts(words@)),
            crate::table::increasing(self.names()),
            forall|i: int|
                0 <= i < r@.len() ==> defined(self.files(), (#[trigger] symbols(r@)[i]).name).len()
                    > 0,
    {
        proof {
            use_type_invariant(self);
        }
        let ghost fs = self.files();
        let ghost ns = self.names();
        let ghost ws = texts(words@);
        let n = self.by_name.len();
        let mut out: Vec<Symbol> = Vec::new();
        let mut i: usize = 0;
        assert(symbols(out@) =~= picked(fs, ns, ws.take(0)));
        while i < words.len()
            invariant
                i <= words@.len(),
                fs == self.files(),
                ns == self.names(),
                ws == texts(words@),
                is_by_name(self.by_name@, fs),
                forall|k: int|
                    0 <= k < ns.len() ==> self.by_name@.contains_key(#[trigger] ns[k].0)
                        && self.by_name@[ns[k].0] == ns[k].1,
                symbols(out@) == picked(fs, ns, ws.take(i as int)),
                all_defined(fs, symbols(out@)),
            decreases words@.len() - i,
        {
            let w = words[i].as_str();
            assert(ws.take(i + 1).drop_last() =~= ws.take(i as int));
            assert(ws.take(i + 1).last() == w@);
            if out.len() < 16 {
                let ghost was = symbols(out@);
                assert(was.len() == out@.len());
                if let Some(v) = self.by_name.get(w) {
                    add_new(&mut out, &v.items);
                    proof {
                        lemma_defined_names(fs, w@);
                        lemma_with_new_defined(fs, was, first_four(v@));
                    }
                } else if crate::text::byte_len(w) >= 6 {
                    match self.find_loosely(w) {
                        Some(k) => {
                            let v = self.by_name.value(k);
                            add_new(&mut out, &v.items);
                            proof {
                                assert(self.by_name@.contains_key(ns[k as int].0));
                                lemma_defined_names(fs, ns[k as int].0);
                                lemma_with_new_defined(fs, was, first_four(v@));
                            }
                        },
                        None => {
                            assert(defined_loosely(ns, w@) =~= Seq::empty());
                            assert(with_new(was, first_four(Seq::<SymbolView>::empty())) =~= was);
                        },
                    }
                } else {
                    assert(with_new(was, first_four(Seq::<SymbolView>::empty())) =~= was);
                }
            }
            i += 1;
        }
        assert(ws.take(i as int) =~= ws);
        out
    }

    /// The words that are names as they stand, and then the others.
    fn by_specificity(&self, words: Vec<String>) -> (r: Vec<String>)
        ensures
            texts(r@) == specific_first(self.files(), texts(words@)),
    {
        proof {
            use_type_invariant(self);
        }
        let ghost fs = self.files();
        let ghost ws = texts(words@);
        let ghost exact = |w: Seq<char>| defined(fs, w).len() > 0;
        let ghost loose = |w: Seq<char>| !(defined(fs, w).len() > 0);
        let mut out: Vec<String> = Vec::new();
        let mut rest: Vec<String> = Vec::new();
        let mut i: usize = 0;
        proof {
            reveal(Seq::filter);
            assert(texts(out@) =~= ws.take(0).filter(exact));
            assert(texts(rest@) =~= ws.take(0).filter(loose));
        }
        while i < words.len()
            invariant
                i <= words@.len(),
                fs == self.files(),
                ws == texts(words@),
                is_by_name(self.by_name@, fs),
                exact == (|w: Seq<char>| defined(fs, w).len() > 0),
                loose == (|w: Seq<char>| !(defined(fs, w).len() > 0)),
                texts(out@) == ws.take(i as int).filter(exact),
                texts(rest@) == ws.take(i as int).filter(loose),
            decreases words@.len() - i,
        {
            let w = &words[i];
            let ghost o = texts(out@);
            let ghost r = texts(rest@);
            proof {
                reveal(Seq::filter);
                assert(ws.take(i + 1).drop_last() =~= ws.take(i as int));
                assert(ws.take(i + 1).last() == w@);
            }
            if self.by_name.get(w.as_str()).is_some() {
                out.push(w.clone());
                assert(texts(out@) =~= o.push(w@));
            } else {
                rest.push(w.clone());
                assert(texts(rest@) =~= r.push(w@));
            }
            i += 1;
        }
        assert(ws.take(i as int) =~= ws);
        let ghost o = texts(out@);
        let ghost r = texts(rest@);
        out.append(&mut rest);
        assert(texts(out@) =~= o + r);
        out
    }

    /// Symbols whose names appear in `text` (a user prompt), most specific first
    /// (those that it names as they stand, then those that it names but for case
    /// and underscores), for the `<symbols>` prompt block. Empty when nothing
    /// matches.
    pub fn relevant(&self, text: &str, max_chars: usize) -> (r: String)
        ensures
            r@ == symbol_block(
                self.files(),
                picked(
                    self.files(),
                    self.names(),
                    specific_first(self.files(), candidate_words(text@)),
                ),
                max_chars as int,
            ),
            crate::table::increasing(self.names()),
            is_by_name(crate::table::as_map(self.names()), self.files()),
    {
        proof {
            use_type_invariant(self);
        }
        let words = self.by_specificity(words_of(text));
        let v = self.pick_symbols(&words);
        let ghost g = symbols(v@);
        let ghost fs = self.files();
        assert(g.len() == v@.len());
        if v.len() == 0 {
            return String::new();
        }
        let mut out = "<symbols>\n".to_owned();
        let mut full = false;
        let mut i: usize = 0;
        while i < v.len()
            invariant
                i <= v@.len(),
                g == symbols(v@),
                fs == self.files(),
                forall|k: int| 0 <= k < g.len() ==> defined(fs, (#[trigger] g[k]).name).len() > 0,
                entries_within(fs, g.take(i as int), max_chars as int) == (out@, full),
            decreases v@.len() - i,
        {
            assert(g.take(i + 1).drop_last() =~= g.take(i as int));
            assert(g.take(i + 1).last() == g[i as int]);
            assert(g[i as int] == v@[i as int]@);
            let line = self.entry_text(&v[i]);
            if full || crate::text::byte_len(out.as_str()) as u128 + crate::text::byte_len(
                line.as_str(),
            ) as u128 > max_chars as u128 {
                full = true;
            } else {
                out.append(line.as_str());
            }
            i += 1;
        }
        assert(g.take(i as int) =~= g);
        out.append("</symbols>");
        out
    }
}

// ───────────────────────────── the order of what is picked ─────────────────────────────

proof fn lemma_with_new(v: Seq<SymbolView>, more: Seq<SymbolView>)
    ensures
        with_new(v, more).len() >= v.len(),
        with_new(v, more).take(v.len() as int) == v,
        forall|j: int|
            v.len() <= j < with_new(v, more).len() ==> more.contains(#[trigger] with_new(v, more)[j]),
        forall|i: int|
            0 <= i < more.len() ==> has_place(with_new(v, more), #[trigger] more[i]),
    decreases more.len(),
{
    let r = with_new(v, more);
    if more.len() == 0 {
        assert(v.take(v.len() as int) =~= v);
    } else {
        let d = more.drop_last();
        let b = with_new(v, d);
        lemma_with_new(v, d);
        let x = more[more.len() - 1];
        assert(r.take(v.len() as int) =~= b.take(v.len() as int));
        assert forall|j: int| v.len() <= j < r.len() implies more.contains(#[trigger] r[j]) by {
            if j < b.len() {
                assert(r[j] == b[j]);
                let i = choose|i: int| 0 <= i < d.len() && d[i] == b[j];
                assert(more[i] == r[j]);
            } else {
                assert(r[j] == x);
            }
        }
        assert forall|i: int| 0 <= i < more.len() implies has_place(r, #[trigger] more[i]) by {
            if i < d.len() {
                assert(d[i] == more[i]);
                let j = choose|j: int| 0 <= j < b.len() && same_place(#[trigger] b[j], d[i]);
                assert(r[j] == b[j]);
            } else if !has_place(b, x) {
                assert(same_place(r[b.len() as int], x));
            }
        }
    }
}

/// What is held already is not added.
proof fn lemma_with_old(v: Seq<SymbolView>, more: Seq<SymbolView>)
    requires
        forall|i: int| 0 <= i < more.len() ==> has_place(v, #[trigger] more[i]),
    ensures
        with_new(v, more) == v,
    decreases more.len(),
{
    if more.len() > 0 {
        let d = more.drop_last();
        assert forall|i: int| 0 <= i < d.len() implies has_place(v, #[trigger] d[i]) by {
            assert(d[i] == more[i]);
        }
        lemma_with_old(v, d);
        assert(has_place(v, more[more.len() - 1]));
    }
}

/// What is picked for names that stand as they are bears these names, and leaves
/// none of them out before there are sixteen.
pub(crate) proof fn lemma_picked_exactly(
    files: Files,
    names: Seq<(Seq<char>, Seq<SymbolView>)>,
    words: Seq<Seq<char>>,
)
    requires
        forall|i: int| 0 <= i < words.len() ==> defined(files, #[trigger] words[i]).len() > 0,
    ensures
        forall|j: int|
            0 <= j < picked(files, names, words).len() ==> words.contains(
                (#[trigger] picked(files, names, words)[j]).name,
            ),
        picked(files, names, words).len() < 16 ==> forall|w: Seq<char>, i: int|
            words.contains(w) && 0 <= i < first_four(defined(files, w)).len() ==> has_place(
                picked(files, names, words),
                #[trigger] first_four(defined(files, w))[i],
            ),
    decreases words.len(),
{
    if words.len() > 0 {
        let d = words.drop_last();
        let w = words[words.len() - 1];
        assert forall|i: int| 0 <= i < d.len() implies defined(files, #[trigger] d[i]).len() > 0 by {
            assert(d[i] == words[i]);
        }
        lemma_picked_exactly(files, names, d);
        let b = picked(files, names, d);
        let r = picked(files, names, words);
        let more = first_four(defined(files, w));
        lemma_with_new(b, more);
        lemma_defined_names(files, w);
        assert forall|j: int| 0 <= j < r.len() implies words.contains((#[trigger] r[j]).name) by {
            if j < b.len() {
                assert(r[j] == b[j]) by {
                    if b.len() < 16 {
                        assert(r.take(b.len() as int)[j] == r[j]);
                    }
                }
                let k = choose|k: int| 0 <= k < d.len() && d[k] == b[j].name;
                assert(words[k] == r[j].name);
            } else {
                assert(more.contains(r[j]));
                let k = choose|k: int| 0 <= k < more.len() && more[k] == r[j];
                assert(defined(files, w)[k].name == w);
                assert(words[words.len() - 1] == r[j].name);
            }
        }
        if r.len() < 16 {
            assert(b.len() < 16);
            assert forall|x: Seq<char>, i: int|
                words.contains(x) && 0 <= i < first_four(defined(files, x)).len() implies has_place(
                r,
                #[trigger] first_four(defined(files, x))[i],
            ) by {
                let s = first_four(defined(files, x))[i];
                if x == w {
                    assert(has_place(r, more[i]));
                } else {
                    let k = choose|k: int| 0 <= k < words.len() && words[k] == x;
                    assert(d[k] == x);
                    assert(has_place(b, s));
                    let j = choose|j: int| 0 <= j < b.len() && same_place(#[trigger] b[j], s);
                    assert(r.take(b.len() as int)[j] == r[j]);
                }
            }
        }
    }
}

/// The first name that is nearly `name` comes with all its definitions.
proof fn lemma_loosely(files: Files, names: Seq<(Seq<char>, Seq<SymbolView>)>, name: Seq<char>) -> (k: Seq<char>)
    requires
        forall|i: int| 0 <= i < names.len() ==> (#[trigger] names[i]).1 == defined(files, names[i].0),
    ensures
        defined_loosely(names, name).len() > 0 ==> defined_loosely(names, name) == defined(files, k),
    decreases names.len(),
{
    if names.len() == 0 {
        name
    } else if bare(names[0].0) == bare(name) {
        names[0].0
    } else {
        let d = names.skip(1);
        assert forall|i: int| 0 <= i < d.len() implies (#[trigger] d[i]).1 == defined(
            files,
            d[i].0,
        ) by {
            assert(d[i] == names[i + 1]);
        }
        lemma_loosely(files, d, name)
    }
}

/// Behind what is picked for names that stand as they are comes nothing that
/// bears one of these names.
pub(crate) proof fn lemma_picked_behind(
    files: Files,
    names: Seq<(Seq<char>, Seq<SymbolView>)>,
    exact: Seq<Seq<char>>,
    rest: Seq<Seq<char>>,
)
    requires
        forall|i: int| 0 <= i < names.len() ==> (#[trigger] names[i]).1 == defined(files, names[i].0),
        forall|i: int| 0 <= i < exact.len() ==> defined(files, #[trigger] exact[i]).len() > 0,
        forall|i: int| 0 <= i < rest.len() ==> defined(files, #[trigger] rest[i]).len() == 0,
    ensures
        ({
            let a = picked(files, names, exact);
            let r = picked(files, names, exact + rest);
            &&& a.len() <= r.len()
            &&& r.take(a.len() as int) == a
            &&& forall|j: int| a.len() <= j < r.len() ==> !exact.contains((#[trigger] r[j]).name)
        }),
    decreases rest.len(),
{
    let a = picked(files, names, exact);
    let r = picked(files, names, exact + rest);
    if rest.len() == 0 {
        assert(exact + rest =~= exact);
        assert(a.take(a.len() as int) =~= a);
    } else {
        let d = rest.drop_last();
        let w = rest[rest.len() - 1];
        let all = exact + rest;
        assert forall|i: int| 0 <= i < d.len() implies defined(files, #[trigger] d[i]).len() == 0 by {
            assert(d[i] == rest[i]);
        }
        assert(all.drop_last() =~= exact + d);
        assert(all.last() == w);
        lemma_picked_behind(files, names, exact, d);
        let b = picked(files, names, exact + d);
        if b.len() < 16 {
            let more = first_four(meant(files, names, w));
            assert(r == with_new(b, more));
            lemma_with_new(b, more);
            assert(r.take(a.len() as int) =~= b.take(a.len() as int)) by {
                assert forall|j: int| 0 <= j < a.len() implies r[j] == b[j] by {
                    assert(r.take(b.len() as int)[j] == r[j]);
                }
            }
            lemma_picked_exactly(files, names, exact);
            let k = lemma_loosely(files, names, w);
            lemma_defined_names(files, k);
            if more.len() > 0 && exact.contains(k) {
                assert forall|i: int| 0 <= i < more.len() implies has_place(b, #[trigger] more[i]) by {
                    assert(has_place(a, first_four(defined(files, k))[i]));
                    let j = choose|j: int| 0 <= j < a.len() && same_place(#[trigger] a[j], more[i]);
                    assert(b.take(a.len() as int)[j] == b[j]);
                }
                lemma_with_old(b, more);
            }
            assert forall|j: int| a.len() <= j < r.len() implies !exact.contains(
                (#[trigger] r[j]).name,
            ) by {
                if j < b.len() {
                    assert(r.take(b.len() as int)[j] == r[j]);
                    assert(!exact.contains(b[j].name));
                } else {
                    assert(more.contains(r[j]));
                    let i = choose|i: int| 0 <= i < more.len() && more[i] == r[j];
                    assert(more[i] == defined(files, k)[i]);
                }
            }
        }
    }
}

/// Of what is picked for a text, a symbol that the text names as it stands comes
/// before every symbol that it names but for case and underscores.
pub proof fn exact_names_come_first(
    files: Files,
    names: Seq<(Seq<char>, Seq<SymbolView>)>,
    words: Seq<Seq<char>>,
    i: int,
    j: int,
)
    requires
        crate::table::increasing(names),
        is_by_name(crate::table::as_map(names), files),
        0 <= i < j < picked(files, names, specific_first(files, words)).len(),
        words.contains(picked(files, names, specific_first(files, words))[j].name),
    ensures
        words.contains(picked(files, names, specific_first(files, words))[i].name),
{
    let yes = |w: Seq<char>| defined(files, w).len() > 0;
    let no = |w: Seq<char>| !(defined(files, w).len() > 0);
    let exact = words.filter(yes);
    let rest = words.filter(no);
    let v = picked(files, names, exact + rest);
    let a = picked(files, names, exact);
    crate::table::lemma_as_map(names);
    assert forall|k: int| 0 <= k < names.len() implies (#[trigger] names[k]).1 == defined(
        files,
        names[k].0,
    ) by {
        assert(crate::table::as_map(names).contains_key(names[k].0));
    }
    assert forall|k: int| 0 <= k < exact.len() implies defined(files, #[trigger] exact[k]).len()
        > 0 && words.contains(exact[k]) by {
        words.lemma_filter_pred(yes, k);
        assert(exact.contains(exact[k]));
        words.lemma_filter_contains_rev(yes, exact[k]);
    }
    assert forall|k: int| 0 <= k < rest.len() implies defined(files, #[trigger] rest[k]).len()
        == 0 by {
        words.lemma_filter_pred(no, k);
    }
    lemma_picked_behind(files, names, exact, rest);
    lemma_picked_exactly(files, names, exact);
    lemma_picked_defined(files, names, exact + rest);
    if j >= a.len() {
        let n = v[j].name;
        assert(defined(files, n).len() > 0);
        let k = choose|k: int| 0 <= k < words.len() && words[k] == n;
        assert(yes(words[k]));
        words.lemma_filter_contains(yes, k);
        assert(exact.contains(n));
    }
    assert(j < a.len());
    assert(v.take(a.len() as int)[i] == v[i]);
    assert(exact.contains(a[i].name));
    let k = choose|k: int| 0 <= k < exact.len() && exact[k] == a[i].name;
    assert(words.contains(exact[k]));
}

/// Every symbol that is picked is one that is defined.
proof fn lemma_picked_defined(
    files: Files,
    names: Seq<(Seq<char>, Seq<SymbolView>)>,
    words: Seq<Seq<char>>,
)
    requires
        forall|i: int| 0 <= i < names.len() ==> (#[trigger] names[i]).1 == defined(files, names[i].0),
    ensures
        all_defined(files, picked(files, names, words)),
    decreases words.len(),
{
    if words.len() > 0 {
        let d = words.drop_last();
        let w = words.last();
        lemma_picked_defined(files, names, d);
        let b = picked(files, names, d);
        if b.len() < 16 {
            let more = first_four(meant(files, names, w));
            let k = lemma_loosely(files, names, w);
            lemma_defined_names(files, k);
            lemma_defined_names(files, w);
            assert(all_defined(files, more));
            lemma_with_new_defined(files, b, more);
        }
    }
}

pub open spec fn all_defined(files: Files, v: Seq<SymbolView>) -> bool {
    forall|i: int| 0 <= i < v.len() ==> defined(files, (#[trigger] v[i]).name).len() > 0
}

proof fn lemma_defined_names(files: Files, name: Seq<char>)
    ensures
        forall|i: int|
            0 <= i < defined(files, name).len() ==> (#[trigger] defined(files, name)[i]).name
                == name,
    decreases files.len(),
{
    if files.len() > 0 {
        let d = files.drop_last();
        lemma_defined_names(d, name);
        let v = files.last().1.symbols;
        let pred = |s: SymbolView| s.name == name;
        assert forall|i: int| 0 <= i < defined(files, name).len() implies (
        #[trigger] defined(files, name)[i]).name == name by {
            let k = defined(d, name).len();
            if i < k {
                assert(defined(d, name)[i].name == name);
            } else {
                v.lemma_filter_pred(pred, i - k);
                assert(named(v, name)[i - k].name == name);
            }
        }
    }
}

proof fn lemma_with_new_defined(files: Files, v: Seq<SymbolView>, more: Seq<SymbolView>)
    requires
        all_defined(files, v),
        all_defined(files, more),
    ensures
        all_defined(files, with_new(v, more)),
    decreases more.len(),
{
    if more.len() > 0 {
        let d = more.drop_last();
        assert(all_defined(files, d)) by {
            assert(forall|i: int| 0 <= i < d.len() ==> d[i] == #[trigger] more[i]);
        }
        lemma_with_new_defined(files, v, d);
        let before = with_new(v, d);
        assert(defined(files, more[more.len() - 1].name).len() > 0);
        let r = with_new(v, more);
        assert forall|i: int| 0 <= i < r.len() implies defined(files, (#[trigger] r[i]).name).len()
            > 0 by {
            if i < before.len() {
                assert(r[i] == before[i]);
            }
        }
    }
}

} // verus!
