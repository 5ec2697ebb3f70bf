//! Stored credentials, and what the `auth` command shows of them. Reading and
//! writing the files is left to the caller, who hands over what they hold.

use crate::path::joined_path;
use crate::paths::Paths;
use crate::sort::{lists_once, sorted_once};
use crate::table::{as_map, Table};
use crate::text::{before_char, first_of, lemma_first_of, pad_right, padded_right, texts};
use vstd::prelude::*;

verus! {

/// A credential. `metadata` and `tokens` are JSON text.
#[derive(Debug)]
pub enum AuthInfo {
    Api { key: String, metadata: Option<String> },
    OAuth { tokens: String },
}

pub enum AuthView {
    Api { key: Seq<char>, metadata: Option<Seq<char>> },
    OAuth { tokens: Seq<char> },
}

impl View for AuthInfo {
    type V = AuthView;

    open spec fn view(&self) -> AuthView {
        match self {
            AuthInfo::Api { key, metadata } => AuthView::Api {
                key: key@,
                metadata: crate::text::opt_text(*metadata),
            },
            AuthInfo::OAuth { tokens } => AuthView::OAuth { tokens: tokens@ },
        }
    }
}

impl Clone for AuthInfo {
    fn clone(&self) -> (r: Self)
        ensures
            r@ == self@,
    {
        match self {
            AuthInfo::Api { key, metadata } => AuthInfo::Api {
                key: key.clone(),
                metadata: crate::text::copy_opt(metadata),
            },
            AuthInfo::OAuth { tokens } => AuthInfo::OAuth { tokens: tokens.clone() },
        }
    }
}

/// Where credentials are kept: a file of our own, and one that is only read.
#[derive(Debug)]
pub struct AuthStore {
    pub path: String,
    pub fallback: Option<String>,
}

/// What is read from the environment and the two files. `content` is there where
/// the environment gives credentials that can be read.
pub struct AuthFiles {
    pub content: Option<Table<AuthInfo>>,
    pub legacy: Table<AuthInfo>,
    pub own: Table<AuthInfo>,
}

/// All credentials: the environment's alone where it gives any; otherwise those
/// of the legacy file, with those of our own file over them.
pub open spec fn known(
    content: Option<Map<Seq<char>, AuthView>>,
    legacy: Map<Seq<char>, AuthView>,
    own: Map<Seq<char>, AuthView>,
) -> Map<Seq<char>, AuthView> {
    match content {
        Some(m) => m,
        None => legacy.union_prefer_right(own),
    }
}

impl AuthFiles {
    pub open spec fn content_view(&self) -> Option<Map<Seq<char>, AuthView>> {
        match self.content {
            Some(t) => Some(t@),
            None => None,
        }
    }
}

pub open spec fn looked_up(m: Map<Seq<char>, AuthView>, provider: Seq<char>) -> Option<AuthView> {
    if m.contains_key(provider) {
        Some(m[provider])
    } else {
        None
    }
}

pub open spec fn auth_view(o: Option<AuthInfo>) -> Option<AuthView> {
    match o {
        Some(a) => Some(a@),
        None => None,
    }
}

/// What is stored is found again, and nothing else changes, as long as the
/// environment gives no credentials.
pub proof fn stored_is_found(
    legacy: Map<Seq<char>, AuthView>,
    own: Map<Seq<char>, AuthView>,
    provider: Seq<char>,
    info: AuthView,
    other: Seq<char>,
)
    ensures
        looked_up(known(None, legacy, own.insert(provider, info)), provider) == Some(info),
        other != provider ==> looked_up(known(None, legacy, own.insert(provider, info)), other)
            == looked_up(known(None, legacy, own), other),
{
}

/// What is removed is found no more, unless the legacy file has it.
pub proof fn removed_is_gone(
    legacy: Map<Seq<char>, AuthView>,
    own: Map<Seq<char>, AuthView>,
    provider: Seq<char>,
    other: Seq<char>,
)
    ensures
        looked_up(known(None, legacy, own.remove(provider)), provider) == looked_up(
            legacy,
            provider,
        ),
        other != provider ==> looked_up(known(None, legacy, own.remove(provider)), other)
            == looked_up(known(None, legacy, own), other),
{
}

impl AuthStore {
    pub fn new(paths: &Paths) -> (s: Self)
        ensures
            s.path@ == joined_path(paths.data@, "auth.json"@),
            s.fallback matches Some(f) && f@ == joined_path(paths.legacy_data@, "auth.json"@),
    {
        AuthStore { path: paths.auth(), fallback: Some(paths.legacy_auth()) }
    }

    pub fn at(path: String) -> (s: Self)
        ensures
            s.path == path,
            s.fallback is None,
    {
        AuthStore { path, fallback: None }
    }

    pub fn path(&self) -> (p: &str)
        ensures
            p@ == self.path@,
    {
        self.path.as_str()
    }

    /// What the legacy file adds: nothing where the store has none.
    pub open spec fn legacy(&self, files: AuthFiles) -> Map<Seq<char>, AuthView> {
        if self.fallback is Some {
            files.legacy@
        } else {
            Map::empty()
        }
    }

    /// All credentials: environment, then our own file, then the legacy file.
    pub fn all(&self, files: AuthFiles) -> (r: Table<AuthInfo>)
        ensures
            r@ == known(files.content_view(), self.legacy(files), files.own@),
    {
        if let Some(m) = files.content {
            return m;
        }
        let mut out: Table<AuthInfo> = Table::new();
        if self.fallback.is_some() {
            out = files.legacy;
        }
        let ghost legacy = out@;
        let own = files.own;
        let ghost e = own.entries();
        let n: usize = own.len();
        let mut i: usize = 0;
        assert(legacy.union_prefer_right(as_map(e.take(0))) =~= legacy);
        while i < n
            invariant
                i <= n,
                n == e.len(),
                e == own.entries(),
                out@ == legacy.union_prefer_right(as_map(e.take(i as int))),
            decreases n - i,
        {
            assert(e.take(i + 1).drop_last() =~= e.take(i as int));
            let ghost before = out@;
            out.insert(own.key(i).to_owned(), own.value(i).clone());
            assert(legacy.union_prefer_right(as_map(e.take(i + 1))) =~= before.insert(
                e[i as int].0,
                e[i as int].1,
            ));
            i += 1;
        }
        assert(e.take(i as int) =~= e);
        out
    }

    /// The credential for one provider.
    pub fn get(&self, files: AuthFiles, provider: &str) -> (r: Option<AuthInfo>)
        ensures
            auth_view(r) == looked_up(
                known(files.content_view(), self.legacy(files), files.own@),
                provider@,
            ),
    {
        let mut all = self.all(files);
        all.remove(provider)
    }

    /// What our own file holds once a credential is stored, given what it held.
    pub fn set(&self, current: Table<AuthInfo>, provider: &str, info: AuthInfo) -> (r: Table<AuthInfo>)
        ensures
            r@ == current@.insert(provider@, info@),
    {
        let mut current = current;
        current.insert(provider.to_owned(), info);
        current
    }

    /// What our own file holds once a credential is removed, given what it held.
    pub fn remove(&self, current: Table<AuthInfo>, provider: &str) -> (r: Table<AuthInfo>)
        ensures
            r@ == current@.remove(provider@),
    {
        let mut current = current;
        let _ = current.remove(provider);
        current
    }
}

// ───────────────────────────── the command ─────────────────────────────

pub open spec fn kind_name(a: AuthView) -> Seq<char> {
    match a {
        AuthView::Api { .. } => "api key"@,
        AuthView::OAuth { .. } => "oauth"@,
    }
}

/// What `auth list` prints: a line for each provider in order, or where there is
/// none a note that says so.
pub open spec fn auth_lines(all: Seq<(Seq<char>, AuthView)>, path: Seq<char>) -> Seq<Seq<char>> {
    if all.len() == 0 {
        seq!["no stored credentials ("@ + path + ")"@]
    } else {
        Seq::new(all.len(), |i: int| pad_right(all[i].0, 20) + " "@ + kind_name(all[i].1))
    }
}

pub fn list_credentials(all: &Table<AuthInfo>, path: &str) -> (r: Vec<String>)
    ensures
        texts(r@) == auth_lines(all.entries(), path@),
{
    let mut r: Vec<String> = Vec::new();
    let n: usize = all.len();
    if n == 0 {
        let mut s = "no stored credentials (".to_owned();
        s.append(path);
        s.append(")");
        r.push(s);
        assert(texts(r@) =~= auth_lines(all.entries(), path@));
        return r;
    }
    let mut i: usize = 0;
    while i < n
        invariant
            i <= n,
            n > 0,
            n == all.entries().len(),
            texts(r@) == auth_lines(all.entries(), path@).take(i as int),
        decreases n - i,
    {
        let mut s = padded_right(all.key(i), 20);
        s.append(" ");
        let kind = match all.value(i) {
            AuthInfo::Api { .. } => "api key",
            AuthInfo::OAuth { .. } => "oauth",
        };
        s.append(kind);
        let ghost was = texts(r@);
        let ghost all_lines = auth_lines(all.entries(), path@);
        assert(s@ =~= all_lines[i as int]);
        r.push(s);
        assert(texts(r@) =~= was.push(all_lines[i as int]));
        assert(all_lines.take(i + 1) =~= all_lines.take(i as int).push(all_lines[i as int]));
        i += 1;
    }
    assert(auth_lines(all.entries(), path@).take(i as int) =~= auth_lines(all.entries(), path@));
    r
}

/// A provider of the catalog. `supported` where its protocol is one we speak.
#[derive(Debug)]
pub struct CatalogProvider {
    pub id: String,
    pub name: String,
    pub supported: bool,
    /// the environment variables that may hold a key
    pub env: Vec<String>,
}

pub struct CatalogProviderView {
    pub id: Seq<char>,
    pub name: Seq<char>,
    pub supported: bool,
    pub env: Seq<Seq<char>>,
}

impl View for CatalogProvider {
    type V = CatalogProviderView;

    open spec fn view(&self) -> CatalogProviderView {
        CatalogProviderView {
            id: self.id@,
            name: self.name@,
            supported: self.supported,
            env: texts(self.env@),
        }
    }
}

/// A provider of the free pool.
#[derive(Debug)]
pub struct FreeProvider {
    pub name: String,
    pub env: Vec<String>,
    pub signup: String,
    pub note: String,
}

pub struct FreeProviderView {
    pub name: Seq<char>,
    pub env: Seq<Seq<char>>,
    pub signup: Seq<char>,
    pub note: Seq<char>,
}

impl View for FreeProvider {
    type V = FreeProviderView;

    open spec fn view(&self) -> FreeProviderView {
        FreeProviderView {
            name: self.name@,
            env: texts(self.env@),
            signup: self.signup@,
            note: self.note@,
        }
    }
}

/// How a provider is offered: `id (name)`.
pub open spec fn label(id: Seq<char>, name: Seq<char>) -> Seq<char> {
    id + " ("@ + name + ")"@
}

/// The providers of the catalog that can be used: those of the free pool, and
/// those whose protocol we speak.
pub open spec fn from_catalog(
    catalog: Seq<(Seq<char>, CatalogProviderView)>,
    free: Map<Seq<char>, FreeProviderView>,
) -> Seq<Seq<char>>
    decreases catalog.len(),
{
    if catalog.len() == 0 {
        Seq::empty()
    } else {
        let rest = from_catalog(catalog.drop_last(), free);
        let p = catalog.last().1;
        if free.contains_key(p.id) || p.supported {
            rest.push(label(p.id, p.name))
        } else {
            rest
        }
    }
}

/// The providers of the free pool that the catalog lacks.
pub open spec fn from_pool(
    free: Seq<(Seq<char>, FreeProviderView)>,
    catalog: Map<Seq<char>, CatalogProviderView>,
) -> Seq<Seq<char>>
    decreases free.len(),
{
    if free.len() == 0 {
        Seq::empty()
    } else {
        let rest = from_pool(free.drop_last(), catalog);
        if catalog.contains_key(free.last().0) {
            rest
        } else {
            rest.push(label(free.last().0, free.last().1.name))
        }
    }
}

fn label_of(id: &str, name: &str) -> (s: String)
    ensures
        s@ == label(id@, name@),
{
    let mut s = id.to_owned();
    s.append(" (");
    s.append(name);
    s.append(")");
    s
}

/// The providers one can log in to, in order and each once.
pub fn login_choices(catalog: &Table<CatalogProvider>, free: &Table<FreeProvider>) -> (r: Vec<String>)
    ensures
        lists_once(
            texts(r@),
            from_catalog(catalog.entries(), free@) + from_pool(free.entries(), catalog@),
        ),
{
    let mut ids: Vec<String> = Vec::new();
    let n: usize = catalog.len();
    let mut i: usize = 0;
    let ghost ce = catalog.entries();
    assert(texts(ids@) =~= from_catalog(ce.take(0), free@));
    while i < n
        invariant
            i <= n,
            n == ce.len(),
            ce == catalog.entries(),
            texts(ids@) == from_catalog(ce.take(i as int), free@),
        decreases n - i,
    {
        let p = catalog.value(i);
        let ghost was = texts(ids@);
        assert(ce.take(i + 1).drop_last() =~= ce.take(i as int));
        if free.contains_key(p.id.as_str()) || p.supported {
            ids.push(label_of(p.id.as_str(), p.name.as_str()));
            assert(texts(ids@) =~= was.push(label(p@.id, p@.name)));
        }
        i += 1;
    }
    assert(ce.take(i as int) =~= ce);
    let ghost first = texts(ids@);
    let m: usize = free.len();
    let ghost fe = free.entries();
    let mut j: usize = 0;
    assert(texts(ids@) =~= first + from_pool(fe.take(0), catalog@));
    while j < m
        invariant
            j <= m,
            m == fe.len(),
            fe == free.entries(),
            texts(ids@) == first + from_pool(fe.take(j as int), catalog@),
        decreases m - j,
    {
        let ghost was = texts(ids@);
        assert(fe.take(j + 1).drop_last() =~= fe.take(j as int));
        if !catalog.contains_key(free.key(j)) {
            ids.push(label_of(free.key(j), free.value(j).name.as_str()));
            assert(texts(ids@) =~= was.push(label(fe[j as int].0, fe[j as int].1.name)));
            assert(texts(ids@) =~= first + from_pool(fe.take(j + 1), catalog@));
        }
        j += 1;
    }
    assert(fe.take(j as int) =~= fe);
    sorted_once(&ids)
}

/// The provider behind a choice: what stands before the first blank.
pub fn chosen_provider(pick: &str) -> (r: String)
    ensures
        r@ == pick@.take(first_of(pick@, ' ')),
{
    before_char(pick, ' ')
}

/// A choice leads back to its provider, as long as no blank is in the id.
pub proof fn choice_names_its_provider(id: Seq<char>, name: Seq<char>)
    requires
        !id.contains(' '),
    ensures
        label(id, name).take(first_of(label(id, name), ' ')) == id,
{
    reveal_strlit(" (");
    let l = label(id, name);
    assert(l[id.len() as int] == ' ');
    lemma_first_of(l, ' ');
    let n = first_of(l, ' ');
    if n < id.len() {
        assert(l[n] == id[n]);
    }
    assert(l.take(id.len() as int) =~= id);
}

} // verus!
