//! A local dashboard for API keys, the free pool, sessions and configuration:
//! what its pages show and whom it answers. Serving them is left to the caller.

use crate::auth::{AuthInfo, AuthView, CatalogProvider, CatalogProviderView, FreeProvider, FreeProviderView};
use crate::pool::{connected, find_usage, is_connected, usage_of, FreeModel, PoolCatalog};
use crate::provider::{ModelView, PoolInfo, Provider, ProviderView, Registry, POOL_PROVIDER};
use crate::router::{usage_views, ModelUsage, ModelUsageView};
use crate::session::{Message, MessageWithParts, SessionModel};
use crate::sort::{keys_of, order, order_of, places, Key};
use crate::table::{Table};
use crate::text::{
    chars_of, copy_opt, copy_texts, hex, hex_of, lemma_lex_irreflexive, lemma_lex_total, lemma_lex_transitive, lex_lt,
    opt_text, same, text_less, text_of, texts, trim, trimmed,
};
use vstd::prelude::*;

verus! {

// ───────────────────────────── access ─────────────────────────────

/// The bytes in hexadecimal, two digits each.
pub open spec fn hex_text(bytes: Seq<u8>) -> Seq<char>
    decreases bytes.len(),
{
    if bytes.len() == 0 {
        Seq::empty()
    } else {
        hex_text(bytes.drop_last()) + hex(bytes.last() as nat, 2)
    }
}

/// The token that random bytes make.
pub fn token_of(bytes: &Vec<u8>) -> (s: String)
    ensures
        s@ == hex_text(bytes@),
{
    let mut s = String::new();
    let mut i: usize = 0;
    assert(s@ =~= hex_text(bytes@.take(0)));
    while i < bytes.len()
        invariant
            i <= bytes@.len(),
            s@ == hex_text(bytes@.take(i as int)),
        decreases bytes@.len() - i,
    {
        assert(bytes@.take(i + 1).drop_last() =~= bytes@.take(i as int));
        s.append(hex_of(bytes[i] as u64, 2).as_str());
        i += 1;
    }
    assert(bytes@.take(i as int) =~= bytes@);
    s
}

/// Where the dashboard is to be opened.
pub fn dashboard_url(addr: &str, token: &str) -> (s: String)
    ensures
        s@ == "http://"@ + addr@ + "/?token="@ + token@,
{
    let mut s = "http://".to_owned();
    s.append(addr);
    s.append("/?token=");
    s.append(token);
    s
}

/// Whether a request may pass: its `Authorization` header is `Bearer` with the
/// token, and nothing else.
pub fn is_authorized(header: Option<&str>, token: &str) -> (b: bool)
    ensures
        b == (header matches Some(h) && h@ == "Bearer "@ + token@),
{
    match header {
        Some(h) => {
            let mut want = "Bearer ".to_owned();
            want.append(token);
            same(h, want.as_str())
        },
        None => false,
    }
}

/// A key as it is shown: dots for a short one, otherwise its ends.
pub open spec fn masked(key: Seq<char>) -> Seq<char> {
    let n = key.len() as int;
    if n <= 8 {
        Seq::new(n as nat, |i: int| '•')
    } else {
        key.take(3) + "…"@ + key.skip(n - 4)
    }
}

pub fn mask(key: &str) -> (s: String)
    ensures
        s@ == masked(key@),
{
    let v = chars_of(key);
    let n: usize = v.len();
    if n <= 8 {
        let mut s = String::new();
        let mut i: usize = 0;
        while i < n
            invariant
                i <= n,
                s@ == Seq::new(i as nat, |j: int| '•'),
            decreases n - i,
        {
            s.push('•');
            i += 1;
            assert(s@ =~= Seq::new(i as nat, |j: int| '•'));
        }
        assert(s@ =~= masked(key@));
        return s;
    }
    let mut s = text_of(&v, 0, 3);
    s.append("…");
    s.append(text_of(&v, n - 4, n).as_str());
    assert(v@.subrange(0, 3) =~= key@.take(3));
    assert(v@.subrange(n - 4, n as int) =~= key@.skip(n - 4));
    s
}

/// A mask shows at most seven characters of a key, and less than it holds.
pub proof fn mask_hides(key: Seq<char>)
    ensures
        masked(key).len() <= 8,
        key.len() > 8 ==> forall|i: int|
            0 <= i < 8 && i != 3 ==> #[trigger] masked(key)[i] == key[if i < 3 {
                i
            } else {
                key.len() - 8 + i
            }],
        key.len() <= 8 ==> forall|i: int|
            0 <= i < key.len() ==> #[trigger] masked(key)[i] == '•',
{
    reveal_strlit("…");
}

/// The key to store: what was sent without the blanks around it, and an error
/// where nothing is left.
pub fn checked_key(key: &str) -> (r: Result<String, &'static str>)
    ensures
        match r {
            Ok(k) => trim(key@).len() > 0 && k@ == trim(key@),
            Err(e) => trim(key@).len() == 0 && e@ == "empty key"@,
        },
{
    let t = trimmed(key);
    if t.as_str().unicode_len() == 0 {
        Err("empty key")
    } else {
        Ok(t)
    }
}

/// Whether the whole pool is asked for.
pub fn wants_all(all: Option<&str>) -> (b: bool)
    ensures
        b == (all matches Some(a) && (a@ == "1"@ || a@ == "true"@)),
{
    match all {
        Some(a) => same(a, "1") || same(a, "true"),
        None => false,
    }
}

// ───────────────────────────── providers ─────────────────────────────

/// What the dashboard shows of a provider.
#[derive(Debug)]
pub struct ProviderRow {
    pub id: String,
    pub name: String,
    pub connected: bool,
    pub source: String,
    pub models: usize,
    pub env: Vec<String>,
    pub pool: bool,
    pub signup: Option<String>,
    pub note: Option<String>,
    pub stored: bool,
    pub masked: Option<String>,
}

pub struct ProviderRowView {
    pub id: Seq<char>,
    pub name: Seq<char>,
    pub connected: bool,
    pub source: Seq<char>,
    pub models: nat,
    pub env: Seq<Seq<char>>,
    pub pool: bool,
    pub signup: Option<Seq<char>>,
    pub note: Option<Seq<char>>,
    pub stored: bool,
    pub masked: Option<Seq<char>>,
}

impl View for ProviderRow {
    type V = ProviderRowView;

    open spec fn view(&self) -> ProviderRowView {
        ProviderRowView {
            id: self.id@,
            name: self.name@,
            connected: self.connected,
            source: self.source@,
            models: self.models as nat,
            env: texts(self.env@),
            pool: self.pool,
            signup: opt_text(self.signup),
            note: opt_text(self.note),
            stored: self.stored,
            masked: opt_text(self.masked),
        }
    }
}

impl Clone for ProviderRow {
    fn clone(&self) -> (r: Self)
        ensures
            r@ == self@,
    {
        ProviderRow {
            id: self.id.clone(),
            name: self.name.clone(),
            connected: self.connected,
            source: self.source.clone(),
            models: self.models,
            env: copy_texts(&self.env),
            pool: self.pool,
            signup: copy_opt(&self.signup),
            note: copy_opt(&self.note),
            stored: self.stored,
            masked: copy_opt(&self.masked),
        }
    }
}

/// The API key that is stored for a provider.
pub open spec fn stored_key(stored: Map<Seq<char>, AuthView>, id: Seq<char>) -> Option<Seq<char>> {
    if stored.contains_key(id) {
        match stored[id] {
            AuthView::Api { key, .. } => Some(key),
            AuthView::OAuth { .. } => None,
        }
    } else {
        None
    }
}

/// The variables that may hold a provider's key: the pool knows best, then the
/// catalog.
pub open spec fn env_of(
    free: Map<Seq<char>, FreeProviderView>,
    catalog: Map<Seq<char>, CatalogProviderView>,
    id: Seq<char>,
) -> Seq<Seq<char>> {
    if free.contains_key(id) {
        free[id].env
    } else if catalog.contains_key(id) {
        catalog[id].env
    } else {
        Seq::empty()
    }
}

pub open spec fn provider_row(
    p: ProviderView,
    stored: Map<Seq<char>, AuthView>,
    free: Map<Seq<char>, FreeProviderView>,
    catalog: Map<Seq<char>, CatalogProviderView>,
) -> ProviderRowView {
    let key = stored_key(stored, p.id);
    let pool = free.contains_key(p.id);
    ProviderRowView {
        id: p.id,
        name: p.name,
        connected: p.connected,
        source: p.source,
        models: p.models.len(),
        env: env_of(free, catalog, p.id),
        pool,
        signup: if pool {
            Some(free[p.id].signup)
        } else {
            None
        },
        note: if pool {
            Some(free[p.id].note)
        } else {
            None
        },
        stored: key is Some,
        masked: match key {
            Some(k) => Some(masked(k)),
            None => None,
        },
    }
}

/// A row for each provider but the pool's own.
pub open spec fn raw_rows(
    reg: Seq<(Seq<char>, ProviderView)>,
    stored: Map<Seq<char>, AuthView>,
    free: Map<Seq<char>, FreeProviderView>,
    catalog: Map<Seq<char>, CatalogProviderView>,
) -> Seq<ProviderRowView>
    decreases reg.len(),
{
    if reg.len() == 0 {
        Seq::empty()
    } else {
        let rest = raw_rows(reg.drop_last(), stored, free, catalog);
        let p = reg.last().1;
        if p.id == POOL_PROVIDER@ {
            rest
        } else {
            rest.push(provider_row(p, stored, free, catalog))
        }
    }
}

/// What rows are sorted by: connected ones first, then those of the pool, then
/// by id.
pub struct RowKey {
    pub away: bool,
    pub outside: bool,
    pub id: String,
}

pub struct RowKeyView {
    pub away: bool,
    pub outside: bool,
    pub id: Seq<char>,
}

impl View for RowKey {
    type V = RowKeyView;

    open spec fn view(&self) -> RowKeyView {
        RowKeyView { away: self.away, outside: self.outside, id: self.id@ }
    }
}

impl Key for RowKey {
    open spec fn lt(a: RowKeyView, b: RowKeyView) -> bool {
        if a.away != b.away {
            !a.away
        } else if a.outside != b.outside {
            !a.outside
        } else {
            lex_lt(a.id, b.id)
        }
    }

    fn less(&self, other: &Self) -> (r: bool) {
        if self.away != other.away {
            !self.away
        } else if self.outside != other.outside {
            !self.outside
        } else {
            text_less(self.id.as_str(), other.id.as_str())
        }
    }

    proof fn lt_irreflexive(a: RowKeyView) {
        lemma_lex_irreflexive(a.id);
    }

    proof fn lt_transitive(a: RowKeyView, b: RowKeyView, c: RowKeyView) {
        if lex_lt(a.id, b.id) && lex_lt(b.id, c.id) {
            lemma_lex_transitive(a.id, b.id, c.id);
        }
    }

    proof fn lt_total(a: RowKeyView, b: RowKeyView) {
        lemma_lex_total(a.id, b.id);
    }
}

pub open spec fn row_key(r: ProviderRowView) -> RowKeyView {
    RowKeyView { away: !r.connected, outside: !r.pool, id: r.id }
}

pub open spec fn row_keys(rows: Seq<ProviderRowView>) -> Seq<RowKeyView> {
    Seq::new(rows.len(), |i: int| row_key(rows[i]))
}

/// The rows in order.
pub open spec fn sorted_rows(rows: Seq<ProviderRowView>) -> Seq<ProviderRowView> {
    let p = order::<RowKey>(row_keys(rows));
    Seq::new(p.len(), |i: int| rows[p[i]])
}

pub open spec fn row_views(v: Seq<ProviderRow>) -> Seq<ProviderRowView> {
    Seq::new(v.len(), |i: int| v[i]@)
}

fn row_of(
    p: &Provider,
    stored: &Table<AuthInfo>,
    free: &Table<FreeProvider>,
    catalog: &Table<CatalogProvider>,
) -> (r: ProviderRow)
    ensures
        r@ == provider_row(p@, stored@, free@, catalog@),
{
    let id = p.id.as_str();
    let pool = free.get(id);
    let env = match pool {
        Some(f) => copy_texts(&f.env),
        None => match catalog.get(id) {
            Some(c) => copy_texts(&c.env),
            None => Vec::new(),
        },
    };
    let shown = match stored.get(id) {
        Some(AuthInfo::Api { key, .. }) => Some(mask(key.as_str())),
        _ => None,
    };
    let (signup, note) = match pool {
        Some(f) => (Some(f.signup.clone()), Some(f.note.clone())),
        None => (None, None),
    };
    assert(texts(env@) =~= env_of(free@, catalog@, p@.id));
    ProviderRow {
        id: p.id.clone(),
        name: p.name.clone(),
        connected: p.connected,
        source: p.source.clone(),
        models: p.models.len(),
        env,
        pool: pool.is_some(),
        signup,
        note,
        stored: shown.is_some(),
        masked: shown,
    }
}

/// Every provider we know how to talk to: those of the registry and of the pool.
pub fn provider_rows(
    registry: &Registry,
    stored: &Table<AuthInfo>,
    free: &Table<FreeProvider>,
    catalog: &Table<CatalogProvider>,
) -> (r: Vec<ProviderRow>)
    ensures
        row_views(r@) == sorted_rows(raw_rows(registry@, stored@, free@, catalog@)),
{
    let ghost reg = registry@;
    let mut rows: Vec<ProviderRow> = Vec::new();
    let n: usize = registry.providers.len();
    let mut i: usize = 0;
    assert(row_views(rows@) =~= raw_rows(reg.take(0), stored@, free@, catalog@));
    while i < n
        invariant
            i <= n,
            n == reg.len(),
            reg == registry@,
            row_views(rows@) == raw_rows(reg.take(i as int), stored@, free@, catalog@),
        decreases n - i,
    {
        let p = registry.providers.value(i);
        assert(reg.take(i + 1).drop_last() =~= reg.take(i as int));
        if !same(p.id.as_str(), POOL_PROVIDER) {
            let ghost was = row_views(rows@);
            let row = row_of(p, stored, free, catalog);
            let ghost rv = row@;
            rows.push(row);
            assert(row_views(rows@) =~= was.push(rv));
        }
        i += 1;
    }
    assert(reg.take(i as int) =~= reg);
    let ghost raw = row_views(rows@);
    let mut keys: Vec<RowKey> = Vec::new();
    let mut j: usize = 0;
    while j < rows.len()
        invariant
            j <= rows@.len(),
            raw == row_views(rows@),
            keys@.len() == j,
            forall|k: int| 0 <= k < j ==> (#[trigger] keys@[k])@ == row_key(raw[k]),
        decreases rows@.len() - j,
    {
        let row = &rows[j];
        keys.push(RowKey { away: !row.connected, outside: !row.pool, id: row.id.clone() });
        assert(keys@[j as int]@ == row_key(raw[j as int]));
        j += 1;
    }
    assert(keys_of(keys@) =~= row_keys(raw));
    let p = order_of(&keys);
    let mut out: Vec<ProviderRow> = Vec::new();
    let mut k: usize = 0;
    while k < p.len()
        invariant
            k <= p@.len(),
            raw == row_views(rows@),
            forall|x: int| 0 <= x < p@.len() ==> #[trigger] p@[x] < rows@.len(),
            out@.len() == k,
            forall|x: int| 0 <= x < k ==> (#[trigger] out@[x])@ == raw[p@[x] as int],
        decreases p@.len() - k,
    {
        out.push(rows[p[k]].clone());
        k += 1;
    }
    proof {
        let q = order::<RowKey>(row_keys(raw));
        assert(places(p@) == q);
        assert forall|x: int| 0 <= x < out@.len() implies row_views(out@)[x] == sorted_rows(
            raw,
        )[x] by {
            assert(q[x] == p@[x]);
            assert(out@[x]@ == raw[p@[x] as int]);
        }
        assert(row_views(out@) =~= sorted_rows(raw));
    }
    out
}

/// Connected providers come first, and among those that are alike in that, the
/// ones of the pool.
pub proof fn connected_come_first(rows: Seq<ProviderRowView>, i: int, j: int)
    requires
        0 <= i < j < sorted_rows(rows).len(),
    ensures
        sorted_rows(rows)[j].connected ==> sorted_rows(rows)[i].connected,
        sorted_rows(rows)[j].connected == sorted_rows(rows)[i].connected
            && sorted_rows(rows)[j].pool ==> sorted_rows(rows)[i].pool,
{
    let keys = row_keys(rows);
    let p = order::<RowKey>(keys);
    crate::sort::order_is_stable::<RowKey>(keys);
    assert(!RowKey::lt(keys[p[j]], keys[p[i]]));
    assert(keys[p[i]] == row_key(rows[p[i]]));
    assert(keys[p[j]] == row_key(rows[p[j]]));
}

// ───────────────────────────── pool ─────────────────────────────

pub struct FreeModelView {
    pub provider: Seq<char>,
    pub id: Seq<char>,
    pub name: Seq<char>,
    pub quality: u32,
    pub speed: u32,
    pub context: u64,
    pub tools: bool,
    pub info: PoolInfo,
}

impl View for FreeModel {
    type V = FreeModelView;

    open spec fn view(&self) -> FreeModelView {
        FreeModelView {
            provider: self.provider@,
            id: self.id@,
            name: self.name@,
            quality: self.quality,
            speed: self.speed,
            context: self.context,
            tools: self.tools,
            info: self.info,
        }
    }
}

impl Clone for FreeModel {
    fn clone(&self) -> (r: Self)
        ensures
            r@ == self@,
    {
        FreeModel {
            provider: self.provider.clone(),
            id: self.id.clone(),
            name: self.name.clone(),
            quality: self.quality,
            speed: self.speed,
            context: self.context,
            tools: self.tools,
            info: self.info,
        }
    }
}

pub open spec fn free_views(v: Seq<FreeModel>) -> Seq<FreeModelView> {
    Seq::new(v.len(), |i: int| v[i]@)
}

/// Whether the shipped pool lists a model.
pub open spec fn shipped(models: Seq<FreeModelView>, provider: Seq<char>, id: Seq<char>) -> bool {
    exists|i: int| 0 <= i < models.len() && #[trigger] models[i].provider == provider && models[i].id
        == id
}

/// A model that joined the pool by the user's choice.
pub open spec fn joined_model(provider: Seq<char>, m: ModelView, info: PoolInfo) -> FreeModelView {
    FreeModelView {
        provider,
        id: m.id,
        name: m.name,
        quality: info.quality,
        speed: info.speed,
        context: m.context,
        tools: m.tool_call,
        info,
    }
}

/// The models of one provider that are in the pool though it is not shipped with
/// them.
pub open spec fn joined_of(
    provider: Seq<char>,
    models: Seq<(Seq<char>, ModelView)>,
    cat: Seq<FreeModelView>,
) -> Seq<FreeModelView>
    decreases models.len(),
{
    if models.len() == 0 {
        Seq::empty()
    } else {
        let rest = joined_of(provider, models.drop_last(), cat);
        let m = models.last().1;
        match m.pool {
            Some(info) => if shipped(cat, provider, m.id) {
                rest
            } else {
                rest.push(joined_model(provider, m, info))
            },
            None => rest,
        }
    }
}

pub open spec fn joined_models(
    reg: Seq<(Seq<char>, ProviderView)>,
    cat: Seq<FreeModelView>,
) -> Seq<FreeModelView>
    decreases reg.len(),
{
    if reg.len() == 0 {
        Seq::empty()
    } else {
        let rest = joined_models(reg.drop_last(), cat);
        let p = reg.last().1;
        if p.id == POOL_PROVIDER@ {
            rest
        } else {
            rest + joined_of(p.id, p.models, cat)
        }
    }
}

/// The members of the pool: those it is shipped with, then those that joined.
pub open spec fn members(
    reg: Seq<(Seq<char>, ProviderView)>,
    cat: Seq<FreeModelView>,
) -> Seq<FreeModelView> {
    cat + joined_models(reg, cat)
}

fn is_shipped(models: &Vec<FreeModel>, provider: &str, id: &str) -> (b: bool)
    ensures
        b == shipped(free_views(models@), provider@, id@),
{
    let ghost all = free_views(models@);
    let mut i: usize = 0;
    while i < models.len()
        invariant
            i <= models@.len(),
            all == free_views(models@),
            forall|k: int|
                0 <= k < i ==> !(#[trigger] all[k].provider == provider@ && all[k].id == id@),
        decreases models@.len() - i,
    {
        let m = &models[i];
        assert(all[i as int] == m@);
        if same(m.provider.as_str(), provider) && same(m.id.as_str(), id) {
            assert(all[i as int].provider == provider@);
            return true;
        }
        i += 1;
    }
    false
}

fn add_joined(out: &mut Vec<FreeModel>, p: &Provider, cat: &Vec<FreeModel>)
    ensures
        free_views(final(out)@) == free_views(old(out)@) + joined_of(
            p@.id,
            p@.models,
            free_views(cat@),
        ),
{
    let ghost start = free_views(out@);
    let ghost e = p@.models;
    let ghost cv = free_views(cat@);
    let n: usize = p.models.len();
    let mut i: usize = 0;
    assert(start =~= start + joined_of(p@.id, e.take(0), cv));
    while i < n
        invariant
            i <= n,
            n == e.len(),
            e == p@.models,
            cv == free_views(cat@),
            free_views(out@) == start + joined_of(p@.id, e.take(i as int), cv),
        decreases n - i,
    {
        let m = p.models.value(i);
        assert(e.take(i + 1).drop_last() =~= e.take(i as int));
        assert(e.take(i + 1).last() == e[i as int]);
        if let Some(info) = m.pool {
            if !is_shipped(cat, p.id.as_str(), m.id.as_str()) {
                let ghost was = free_views(out@);
                let x = FreeModel {
                    provider: p.id.clone(),
                    id: m.id.clone(),
                    name: m.name.clone(),
                    quality: info.quality,
                    speed: info.speed,
                    context: m.context,
                    tools: m.tool_call,
                    info,
                };
                let ghost xv = x@;
                out.push(x);
                assert(free_views(out@) =~= was.push(xv));
                assert(xv == joined_model(p@.id, m@, info));
                assert(was.push(xv) =~= start + joined_of(p@.id, e.take(i as int), cv).push(xv));
            }
        }
        i += 1;
    }
    assert(e.take(i as int) =~= e);
}

fn members_of(registry: &Registry, cat: &Vec<FreeModel>) -> (out: Vec<FreeModel>)
    ensures
        free_views(out@) == members(registry@, free_views(cat@)),
{
    let ghost cv = free_views(cat@);
    let ghost reg = registry@;
    let mut out: Vec<FreeModel> = Vec::new();
    let mut i: usize = 0;
    while i < cat.len()
        invariant
            i <= cat@.len(),
            cv == free_views(cat@),
            free_views(out@) == cv.take(i as int),
        decreases cat@.len() - i,
    {
        let ghost was = free_views(out@);
        let m = cat[i].clone();
        let ghost mv = m@;
        out.push(m);
        assert(free_views(out@) =~= was.push(mv));
        assert(cv.take(i + 1) =~= cv.take(i as int).push(cv[i as int]));
        i += 1;
    }
    assert(cv.take(i as int) =~= cv);
    let n: usize = registry.providers.len();
    let mut j: usize = 0;
    assert(cv =~= cv + joined_models(reg.take(0), cv));
    while j < n
        invariant
            j <= n,
            n == reg.len(),
            reg == registry@,
            cv == free_views(cat@),
            free_views(out@) == cv + joined_models(reg.take(j as int), cv),
        decreases n - j,
    {
        let p = registry.providers.value(j);
        assert(reg.take(j + 1).drop_last() =~= reg.take(j as int));
        assert(reg.take(j + 1).last() == reg[j as int]);
        if !same(p.id.as_str(), POOL_PROVIDER) {
            add_joined(&mut out, p, cat);
        }
        j += 1;
        assert(free_views(out@) =~= cv + joined_models(reg.take(j as int), cv));
    }
    assert(reg.take(j as int) =~= reg);
    out
}

/// What the dashboard shows of a member of the pool.
#[derive(Debug)]
pub struct PoolRow {
    pub model: FreeModel,
    pub connected: bool,
    /// the provider is connected, but the user keeps the model out
    pub excluded: bool,
    pub usage: ModelUsage,
}

pub struct PoolRowView {
    pub model: FreeModelView,
    pub connected: bool,
    pub excluded: bool,
    pub usage: ModelUsageView,
}

impl View for PoolRow {
    type V = PoolRowView;

    open spec fn view(&self) -> PoolRowView {
        PoolRowView {
            model: self.model@,
            connected: self.connected,
            excluded: self.excluded,
            usage: self.usage@,
        }
    }
}

/// The usage of a member; all zero where there is none.
pub open spec fn usage_or_none(
    usage: Seq<ModelUsageView>,
    provider: Seq<char>,
    id: Seq<char>,
) -> ModelUsageView {
    match usage_of(usage, provider, id) {
        Some(u) => u,
        None => ModelUsageView {
            provider,
            model: id,
            rpm_used: 0,
            rpd_used: 0,
            tpm_used: 0,
            tpd_used: 0,
            cooldown_secs: 0,
            last_error: Seq::empty(),
            ttft_ms: 0,
            tps: 0,
        },
    }
}

pub open spec fn kept_out(registry: Registry, provider: Seq<char>, id: Seq<char>) -> bool {
    match registry.found(provider, id) {
        Some(m) => m.pool is None,
        None => true,
    }
}

pub open spec fn pool_row(registry: Registry, usage: Seq<ModelUsageView>, m: FreeModelView) -> PoolRowView {
    let on = connected(registry@, m.provider);
    PoolRowView {
        model: m,
        connected: on,
        excluded: on && kept_out(registry, m.provider, m.id),
        usage: usage_or_none(usage, m.provider, m.id),
    }
}

/// A row for each member whose provider is connected, or for all.
pub open spec fn pool_table(
    registry: Registry,
    usage: Seq<ModelUsageView>,
    models: Seq<FreeModelView>,
    all: bool,
) -> Seq<PoolRowView>
    decreases models.len(),
{
    if models.len() == 0 {
        Seq::empty()
    } else {
        let rest = pool_table(registry, usage, models.drop_last(), all);
        if all || connected(registry@, models.last().provider) {
            rest.push(pool_row(registry, usage, models.last()))
        } else {
            rest
        }
    }
}

pub open spec fn requests_total(usage: Seq<ModelUsageView>) -> nat
    decreases usage.len(),
{
    if usage.len() == 0 {
        0
    } else {
        requests_total(usage.drop_last()) + usage.last().rpd_used as nat
    }
}

pub open spec fn tokens_total(usage: Seq<ModelUsageView>) -> nat
    decreases usage.len(),
{
    if usage.len() == 0 {
        0
    } else {
        tokens_total(usage.drop_last()) + usage.last().tpd_used as nat
    }
}

/// The pool with what was used of it in a day.
pub struct PoolReport {
    pub rows: Vec<PoolRow>,
    pub requests_today: u128,
    pub tokens_today: u128,
}

pub open spec fn pool_views(v: Seq<PoolRow>) -> Seq<PoolRowView> {
    Seq::new(v.len(), |i: int| v[i]@)
}

fn pool_row_of(registry: &Registry, usage: &Vec<ModelUsage>, m: &FreeModel) -> (r: PoolRow)
    ensures
        r@ == pool_row(*registry, usage_views(usage@), m@),
{
    let provider = m.provider.as_str();
    let id = m.id.as_str();
    let on = is_connected(registry, provider);
    let out = match registry.get(provider, id) {
        Some(x) => x.pool.is_none(),
        None => true,
    };
    let u = match find_usage(usage, provider, id) {
        Some(u) => ModelUsage {
            provider: u.provider.clone(),
            model: u.model.clone(),
            rpm_used: u.rpm_used,
            rpd_used: u.rpd_used,
            tpm_used: u.tpm_used,
            tpd_used: u.tpd_used,
            cooldown_secs: u.cooldown_secs,
            last_error: u.last_error.clone(),
            ttft_ms: u.ttft_ms,
            tps: u.tps,
        },
        None => {
            let e = String::new();
            assert(e@ =~= Seq::<char>::empty());
            ModelUsage {
                provider: m.provider.clone(),
                model: m.id.clone(),
                rpm_used: 0,
                rpd_used: 0,
                tpm_used: 0,
                tpd_used: 0,
                cooldown_secs: 0,
                last_error: e,
                ttft_ms: 0,
                tps: 0,
            }
        },
    };
    PoolRow { model: m.clone(), connected: on, excluded: on && out, usage: u }
}

/// The pool as the dashboard shows it.
pub fn pool_rows(registry: &Registry, cat: &PoolCatalog, usage: &Vec<ModelUsage>, all: bool) -> (r:
    PoolReport)
    ensures
        pool_views(r.rows@) == pool_table(
            *registry,
            usage_views(usage@),
            members(registry@, free_views(cat.models@)),
            all,
        ),
        r.requests_today == requests_total(usage_views(usage@)),
        r.tokens_today == tokens_total(usage_views(usage@)),
{
    let ghost uv = usage_views(usage@);
    let mut requests: u128 = 0;
    let mut tokens: u128 = 0;
    let mut i: usize = 0;
    while i < usage.len()
        invariant
            i <= usage@.len(),
            uv == usage_views(usage@),
            requests == requests_total(uv.take(i as int)),
            tokens == tokens_total(uv.take(i as int)),
            requests <= i * u64::MAX,
            tokens <= i * u64::MAX,
        decreases usage@.len() - i,
    {
        assert(uv.take(i + 1).drop_last() =~= uv.take(i as int));
        assert((i + 1) * u64::MAX == i * u64::MAX + u64::MAX) by (nonlinear_arith);
        assert((i + 1) * u64::MAX <= u128::MAX) by (nonlinear_arith)
            requires
                i + 1 <= u64::MAX,
        ;
        requests += usage[i].rpd_used as u128;
        tokens += usage[i].tpd_used as u128;
        i += 1;
    }
    assert(uv.take(i as int) =~= uv);
    let models = members_of(registry, &cat.models);
    let ghost mv = free_views(models@);
    let mut rows: Vec<PoolRow> = Vec::new();
    let mut j: usize = 0;
    assert(pool_views(rows@) =~= pool_table(*registry, uv, mv.take(0), all));
    while j < models.len()
        invariant
            j <= models@.len(),
            mv == free_views(models@),
            uv == usage_views(usage@),
            pool_views(rows@) == pool_table(*registry, uv, mv.take(j as int), all),
        decreases models@.len() - j,
    {
        let m = &models[j];
        assert(mv.take(j + 1).drop_last() =~= mv.take(j as int));
        assert(mv.take(j + 1).last() == m@);
        if all || is_connected(registry, m.provider.as_str()) {
            let ghost was = pool_views(rows@);
            let r = pool_row_of(registry, usage, m);
            let ghost rv = r@;
            rows.push(r);
            assert(pool_views(rows@) =~= was.push(rv));
        }
        j += 1;
    }
    assert(mv.take(j as int) =~= mv);
    PoolReport { rows, requests_today: requests, tokens_today: tokens }
}

/// How many rows can be called now.
pub open spec fn ready_count(rows: Seq<PoolRowView>) -> nat
    decreases rows.len(),
{
    if rows.len() == 0 {
        0
    } else {
        let r = rows.last();
        ready_count(rows.drop_last()) + (if r.connected && r.usage.cooldown_secs == 0 {
            1nat
        } else {
            0
        })
    }
}

/// How many rows rest.
pub open spec fn cooling_count(rows: Seq<PoolRowView>) -> nat
    decreases rows.len(),
{
    if rows.len() == 0 {
        0
    } else {
        cooling_count(rows.drop_last()) + (if rows.last().usage.cooldown_secs > 0 {
            1nat
        } else {
            0
        })
    }
}

/// How many models of the pool are ready, and how many rest.
pub fn pool_counts(rows: &Vec<PoolRow>) -> (r: (usize, usize))
    ensures
        r.0 == ready_count(pool_views(rows@)),
        r.1 == cooling_count(pool_views(rows@)),
{
    let ghost v = pool_views(rows@);
    let mut ready: usize = 0;
    let mut cooling: usize = 0;
    let mut i: usize = 0;
    while i < rows.len()
        invariant
            i <= rows@.len(),
            v == pool_views(rows@),
            ready <= i,
            cooling <= i,
            ready == ready_count(v.take(i as int)),
            cooling == cooling_count(v.take(i as int)),
        decreases rows@.len() - i,
    {
        let r = &rows[i];
        assert(v.take(i + 1).drop_last() =~= v.take(i as int));
        assert(v.take(i + 1).last() == r@);
        if r.connected && r.usage.cooldown_secs == 0 {
            ready += 1;
        }
        if r.usage.cooldown_secs > 0 {
            cooling += 1;
        }
        i += 1;
    }
    assert(v.take(i as int) =~= v);
    (ready, cooling)
}

/// No model is both ready and resting.
pub proof fn counts_do_not_overlap(rows: Seq<PoolRowView>)
    ensures
        ready_count(rows) + cooling_count(rows) <= rows.len(),
    decreases rows.len(),
{
    if rows.len() > 0 {
        counts_do_not_overlap(rows.drop_last());
    }
}

// ───────────────────────────── sessions ─────────────────────────────

/// Sessions that changed within the day before `now`.
pub open spec fn today(updated: Seq<u64>, now: u64) -> nat
    decreases updated.len(),
{
    if updated.len() == 0 {
        0
    } else {
        today(updated.drop_last(), now) + (if updated.last() + 86_400_000 >= now {
            1nat
        } else {
            0
        })
    }
}

pub fn sessions_today(updated: &Vec<u64>, now: u64) -> (n: usize)
    ensures
        n == today(updated@, now),
{
    let since: u64 = if now > 86_400_000 {
        now - 86_400_000
    } else {
        0
    };
    let mut n: usize = 0;
    let mut i: usize = 0;
    while i < updated.len()
        invariant
            i <= updated@.len(),
            n <= i,
            since == (if now > 86_400_000 {
                now - 86_400_000
            } else {
                0
            }),
            n == today(updated@.take(i as int), now),
        decreases updated@.len() - i,
    {
        assert(updated@.take(i + 1).drop_last() =~= updated@.take(i as int));
        if updated[i] >= since {
            n += 1;
        }
        i += 1;
    }
    assert(updated@.take(i as int) =~= updated@);
    n
}

/// What the later-first order sorts by.
pub open spec fn lateness(updated: Seq<u64>) -> Seq<u64> {
    Seq::new(updated.len(), |i: int| (u64::MAX - updated[i]) as u64)
}

/// The places of the sessions, the one that changed last first; sessions that
/// changed at one time stay in the order that they were in.
pub fn latest_first(updated: &Vec<u64>) -> (p: Vec<usize>)
    ensures
        places(p@) == order::<u64>(lateness(updated@)),
        p@.len() == updated@.len(),
        forall|i: int| 0 <= i < p@.len() ==> #[trigger] p@[i] < updated@.len(),
{
    let mut keys: Vec<u64> = Vec::new();
    let mut i: usize = 0;
    while i < updated.len()
        invariant
            i <= updated@.len(),
            keys@.len() == i,
            forall|k: int| 0 <= k < i ==> #[trigger] keys@[k] == u64::MAX - updated@[k],
        decreases updated@.len() - i,
    {
        keys.push(u64::MAX - updated[i]);
        i += 1;
    }
    assert(keys_of(keys@) =~= lateness(updated@));
    order_of(&keys)
}

/// Along the order, sessions are never older than the ones behind them.
pub proof fn latest_come_first(updated: Seq<u64>, i: int, j: int)
    requires
        0 <= i < j < updated.len(),
    ensures
        ({
            let p = order::<u64>(lateness(updated));
            &&& p.len() == updated.len()
            &&& 0 <= p[i] < updated.len()
            &&& 0 <= p[j] < updated.len()
            &&& p[i] != p[j]
            &&& updated[p[i]] >= updated[p[j]]
        }),
{
    let keys = lateness(updated);
    crate::sort::order_is_stable::<u64>(keys);
    let p = order::<u64>(keys);
    assert(!<u64 as Key>::lt(keys[p[j]], keys[p[i]]));
}

/// The tokens of a session: what its last reply that used any counts.
pub open spec fn session_tokens(msgs: Seq<MessageWithParts>) -> u64
    decreases msgs.len(),
{
    if msgs.len() == 0 {
        0
    } else {
        match msgs.last().info {
            Message::Assistant(a) => if a.tokens.effective_total > 0 {
                a.tokens.effective_total
            } else {
                session_tokens(msgs.drop_last())
            },
            Message::User(_) => session_tokens(msgs.drop_last()),
        }
    }
}

pub fn tokens_of_session(msgs: &Vec<MessageWithParts>) -> (n: u64)
    ensures
        n == session_tokens(msgs@),
{
    let mut n: u64 = 0;
    let mut i: usize = 0;
    while i < msgs.len()
        invariant
            i <= msgs@.len(),
            n == session_tokens(msgs@.take(i as int)),
        decreases msgs@.len() - i,
    {
        assert(msgs@.take(i + 1).drop_last() =~= msgs@.take(i as int));
        if let Message::Assistant(a) = &msgs[i].info {
            if a.tokens.effective_total > 0 {
                n = a.tokens.effective_total;
            }
        }
        i += 1;
    }
    assert(msgs@.take(i as int) =~= msgs@);
    n
}

/// `provider/model`, where a session has used one.
pub fn session_model_name(model: &Option<SessionModel>) -> (r: Option<String>)
    ensures
        opt_text(r) == (match model {
            Some(m) => Some(m.provider_id@ + "/"@ + m.id@),
            None => None,
        }),
{
    match model {
        Some(m) => {
            let mut s = m.provider_id.clone();
            s.append("/");
            s.append(m.id.as_str());
            Some(s)
        },
        None => None,
    }
}

} // verus!
