//! What is shown of providers, models and sessions.

use crate::auth::{
    from_catalog, from_pool, kind_name, known, looked_up, AuthView, CatalogProviderView, FreeProviderView,
};
use crate::config::Config;
use crate::pool::{
    best_quality, connected, connected_count, limits_of, model_count, model_line, model_lines, provider_lines,
    setup_lines, state, status_lines, usage_of, FreeModel, PoolCatalog,
};
use crate::provider::{ModelView, PoolInfo, ProviderView, Registry, POOL_PROVIDER};
use crate::router::ModelUsageView;
use crate::routing::{has_pool_model, pool_failure, pool_providers, sticky_minutes};
use crate::session::{Message, MessageWithParts};
use crate::table::as_map;
use crate::text::{clip, decimal, first_line, hex, hex_digit, join};
use crate::web::{
    cooling_count, hex_text, joined_model, joined_models, joined_of, masked, members, pool_row, pool_table,
    provider_row, raw_rows, ready_count, requests_total, session_tokens, shipped, today, tokens_total,
    FreeModelView, PoolRowView,
};
use vstd::prelude::*;

verus! {

// ───────────────────────────── the pool ─────────────────────────────

/// The usage of a model is the first row on it.
pub proof fn usage_is_the_first_row(rows: Seq<ModelUsageView>, provider: Seq<char>, model: Seq<char>)
    ensures
        match usage_of(rows, provider, model) {
            Some(u) => exists|i: int|
                0 <= i < rows.len() && #[trigger] rows[i] == u && u.provider == provider && u.model == model && forall|j: int|
                    0 <= j < i ==> !((#[trigger] rows[j]).provider == provider && rows[j].model == model),
            None => forall|i: int|
                0 <= i < rows.len() ==> !((#[trigger] rows[i]).provider == provider && rows[i].model == model),
        },
    decreases rows.len(),
{
    if rows.len() > 0 {
        if rows[0].provider == provider && rows[0].model == model {
            assert(rows[0] == usage_of(rows, provider, model)->0);
        } else {
            let d = rows.skip(1);
            usage_is_the_first_row(d, provider, model);
            match usage_of(d, provider, model) {
                Some(u) => {
                    let i = choose|i: int|
                        0 <= i < d.len() && #[trigger] d[i] == u && u.provider == provider && u.model == model
                            && forall|j: int|
                            0 <= j < i ==> !((#[trigger] d[j]).provider == provider && d[j].model == model);
                    assert(rows[i + 1] == u);
                    assert forall|j: int| 0 <= j < i + 1 implies !((#[trigger] rows[j]).provider == provider
                        && rows[j].model == model) by {
                        if j > 0 {
                            assert(rows[j] == d[j - 1]);
                        }
                    }
                },
                None => {
                    assert forall|i: int| 0 <= i < rows.len() implies !((#[trigger] rows[i]).provider == provider
                        && rows[i].model == model) by {
                        if i > 0 {
                            assert(rows[i] == d[i - 1]);
                        }
                    }
                },
            }
        }
    }
}

/// A provider has the models that the catalog lists under it, and the best of them is the
/// best that it has.
pub proof fn providers_are_summed_up(models: Seq<FreeModel>, more: FreeModel, provider: Seq<char>)
    ensures
        model_count(Seq::empty(), provider) == 0,
        model_count(models.push(more), provider) == model_count(models, provider) + (if more.provider@ == provider {
            1nat
        } else {
            0
        }),
        forall|i: int|
            0 <= i < models.len() && (#[trigger] models[i]).provider@ == provider ==> models[i].quality <= best_quality(
                models,
                provider,
            ),
        best_quality(models, provider) == 0 || exists|i: int|
            0 <= i < models.len() && (#[trigger] models[i]).provider@ == provider && models[i].quality == best_quality(
                models,
                provider,
            ),
    decreases models.len(),
{
    assert(models.push(more).drop_last() =~= models);
    if models.len() > 0 {
        let d = models.drop_last();
        providers_are_summed_up(d, more, provider);
        assert forall|i: int| 0 <= i < models.len() && (#[trigger] models[i]).provider@ == provider implies models[i].quality
            <= best_quality(models, provider) by {
            if i < d.len() {
                assert(d[i] == models[i]);
            }
        }
        if best_quality(models, provider) > 0 {
            if best_quality(models, provider) == best_quality(d, provider) {
                let i = choose|i: int|
                    0 <= i < d.len() && (#[trigger] d[i]).provider@ == provider && d[i].quality == best_quality(d, provider);
                assert(models[i] == d[i]);
            } else {
                assert(models[models.len() - 1].quality == best_quality(models, provider));
            }
        }
    }
}

/// Setup names every provider of the catalog on two lines, behind the head, and then how
/// many are connected; a tip closes it where none is.
pub proof fn setup_names_every_provider(reg: Seq<(Seq<char>, ProviderView)>, cat: PoolCatalog, i: int)
    requires
        0 <= i < cat.providers.entries().len(),
    ensures
        ({
            let e = cat.providers.entries();
            let out = setup_lines(reg, cat);
            let none = connected_count(reg, e) == 0;
            &&& out.len() == 2 + 2 * e.len() + (if none {
                1int
            } else {
                0int
            })
            &&& out[1 + 2 * i] == provider_lines(reg, cat.models@, e[i].0, e[i].1)[0]
            &&& out[2 + 2 * i] == "     "@ + e[i].1.signup + "  — "@ + e[i].1.note
            &&& none <==> forall|k: int| 0 <= k < e.len() ==> !connected(reg, (#[trigger] e[k]).0)
        }),
{
    let e = cat.providers.entries();
    lemma_provider_lines(reg, cat.models@, e, i);
    lemma_connected_count(reg, e);
}

proof fn lemma_provider_lines(
    reg: Seq<(Seq<char>, ProviderView)>,
    models: Seq<FreeModel>,
    e: Seq<(Seq<char>, FreeProviderView)>,
    i: int,
)
    requires
        0 <= i < e.len(),
    ensures
        crate::pool::providers_lines(reg, models, e).len() == 2 * e.len(),
        crate::pool::providers_lines(reg, models, e)[2 * i] == provider_lines(reg, models, e[i].0, e[i].1)[0],
        crate::pool::providers_lines(reg, models, e)[2 * i + 1] == provider_lines(reg, models, e[i].0, e[i].1)[1],
    decreases e.len(),
{
    let d = e.drop_last();
    if d.len() > 0 {
        lemma_provider_lines(
            reg,
            models,
            d,
            if i < d.len() {
                i
            } else {
                0
            },
        );
    }
    if d.len() == 0 {
        assert(crate::pool::providers_lines(reg, models, d).len() == 0);
    }
    if i < d.len() {
        assert(d[i] == e[i]);
    }
}

proof fn lemma_connected_count(reg: Seq<(Seq<char>, ProviderView)>, e: Seq<(Seq<char>, FreeProviderView)>)
    ensures
        connected_count(reg, e) == 0 <==> forall|k: int| 0 <= k < e.len() ==> !connected(reg, (#[trigger] e[k]).0),
    decreases e.len(),
{
    if e.len() > 0 {
        let d = e.drop_last();
        lemma_connected_count(reg, d);
        if connected_count(reg, e) == 0 {
            assert forall|k: int| 0 <= k < e.len() implies !connected(reg, (#[trigger] e[k]).0) by {
                if k < d.len() {
                    assert(d[k] == e[k]);
                }
            }
        } else if !connected(reg, e.last().0) {
            let k = choose|k: int| 0 <= k < d.len() && connected(reg, (#[trigger] d[k]).0);
            assert(e[k] == d[k]);
        } else {
            assert(connected(reg, e[e.len() - 1].0));
        }
    }
}

/// The list shows the models of connected providers, or all, each with the rest that its
/// usage shows.
pub proof fn the_list_shows_what_is_connected(
    reg: Seq<(Seq<char>, ProviderView)>,
    models: Seq<FreeModel>,
    usage: Seq<ModelUsageView>,
    all: bool,
    m: FreeModel,
)
    ensures
        model_lines(reg, Seq::empty(), usage, all).len() == 0,
        model_lines(reg, models.push(m), usage, all) == (if all || connected(reg, m.provider@) {
            model_lines(reg, models, usage, all).push(
                model_line(
                    m,
                    connected(reg, m.provider@),
                    match usage_of(usage, m.provider@, m.id@) {
                        Some(u) => u.cooldown_secs,
                        None => 0,
                    },
                ),
            )
        } else {
            model_lines(reg, models, usage, all)
        }),
        connected(reg, m.provider@) <==> as_map(reg).contains_key(m.provider@) && as_map(reg)[m.provider@].connected,
{
    assert(models.push(m).drop_last() =~= models);
}

/// Status has a line for each model that it is given, in order, between its head and where
/// the ledger is; the limits are those that the registry gives the model.
pub proof fn status_has_a_line_for_each(registry: Registry, usage: Seq<ModelUsageView>, ledger: Seq<char>, i: int)
    requires
        0 <= i < usage.len(),
    ensures
        status_lines(registry, usage, ledger).len() == usage.len() + 2,
        status_lines(registry, usage, ledger)[i + 1] == crate::pool::status_line(
            usage[i],
            limits_of(registry, usage[i]),
        ),
        status_lines(registry, usage, ledger).last() == "\nledger: "@ + ledger,
        registry.found(usage[i].provider, usage[i].model) matches Some(m) ==> (m.pool matches Some(p) ==> limits_of(
            registry,
            usage[i],
        ) == p),
        usage[i].cooldown_secs == 0 ==> state(usage[i]) == "ready"@,
        usage[i].cooldown_secs > 0 ==> state(usage[i]) == "⏸ "@ + decimal(usage[i].cooldown_secs as nat) + "s  "@ + clip(
            first_line(usage[i].last_error),
            60,
        ),
{
}

// ───────────────────────────── the dashboard ─────────────────────────────

/// A token is two hexadecimal digits for each byte.
pub proof fn tokens_spell_their_bytes(bytes: Seq<u8>, i: int)
    requires
        0 <= i < bytes.len(),
    ensures
        hex_text(bytes).len() == 2 * bytes.len(),
        hex_text(bytes)[2 * i] == hex_digit(bytes[i] as nat / 16),
        hex_text(bytes)[2 * i + 1] == hex_digit(bytes[i] as nat % 16),
    decreases bytes.len(),
{
    let d = bytes.drop_last();
    let b = bytes.last() as nat;
    reveal_with_fuel(hex, 3);
    assert(hex(b, 2).len() == 2);
    assert(hex(b, 2)[0] == hex_digit(b / 16 % 16));
    assert(hex(b, 2)[1] == hex_digit(b % 16));
    if d.len() == 0 {
        assert(hex_text(d).len() == 0);
    }
    if d.len() > 0 {
        tokens_spell_their_bytes(
            d,
            if i < d.len() {
                i
            } else {
                0
            },
        );
    }
}

/// A row tells of a provider whether it is connected, how many models it has, where its key
/// may come from, and of its stored key only the mask.
pub proof fn provider_rows_tell_of_the_provider(
    p: ProviderView,
    stored: Map<Seq<char>, AuthView>,
    free: Map<Seq<char>, FreeProviderView>,
    catalog: Map<Seq<char>, CatalogProviderView>,
)
    ensures
        ({
            let r = provider_row(p, stored, free, catalog);
            &&& r.id == p.id && r.name == p.name && r.connected == p.connected && r.source == p.source && r.models
                == p.models.len()
            &&& r.pool <==> free.contains_key(p.id)
            &&& free.contains_key(p.id) ==> r.env == free[p.id].env && r.signup == Some(free[p.id].signup) && r.note == Some(
                free[p.id].note,
            )
            &&& !free.contains_key(p.id) ==> r.signup is None && r.note is None && r.env == (if catalog.contains_key(p.id) {
                catalog[p.id].env
            } else {
                Seq::empty()
            })
            &&& stored.contains_key(p.id) ==> (stored[p.id] matches AuthView::Api { key, .. } ==> r.stored && r.masked
                == Some(masked(key)))
            &&& !stored.contains_key(p.id) || stored[p.id] is OAuth ==> !r.stored && r.masked is None
        }),
{
}

/// Every provider but the pool itself has a row.
pub proof fn every_provider_has_a_row(
    reg: Seq<(Seq<char>, ProviderView)>,
    p: (Seq<char>, ProviderView),
    stored: Map<Seq<char>, AuthView>,
    free: Map<Seq<char>, FreeProviderView>,
    catalog: Map<Seq<char>, CatalogProviderView>,
)
    ensures
        raw_rows(Seq::empty(), stored, free, catalog).len() == 0,
        raw_rows(reg.push(p), stored, free, catalog) == (if p.1.id == "lunar"@ {
            raw_rows(reg, stored, free, catalog)
        } else {
            raw_rows(reg, stored, free, catalog).push(provider_row(p.1, stored, free, catalog))
        }),
{
    assert(reg.push(p).drop_last() =~= reg);
}

/// The pool has the models of the catalog, and behind them those of the registry that the
/// catalog does not list.
pub proof fn members_are_listed_once(reg: Seq<(Seq<char>, ProviderView)>, cat: Seq<FreeModelView>, m: FreeModelView)
    ensures
        forall|i: int| 0 <= i < cat.len() ==> members(reg, cat)[i] == #[trigger] cat[i],
        joined_models(reg, cat).contains(m) ==> !shipped(cat, m.provider, m.id) && exists|i: int, j: int|
            0 <= i < reg.len() && (#[trigger] reg[i]).1.id == m.provider && m.provider != POOL_PROVIDER@ && 0 <= j
                < reg[i].1.models.len() && (#[trigger] reg[i].1.models[j]).1.pool is Some && m == joined_model(
                m.provider,
                reg[i].1.models[j].1,
                reg[i].1.models[j].1.pool->0,
            ),
    decreases reg.len(),
{
    if reg.len() > 0 {
        let d = reg.drop_last();
        members_are_listed_once(d, cat, m);
        let p = reg.last().1;
        let rest = joined_models(d, cat);
        let own = joined_of(p.id, p.models, cat);
        let all = joined_models(reg, cat);
        if all.contains(m) {
            if rest.contains(m) {
                let (i, j) = choose|i: int, j: int|
                    0 <= i < d.len() && (#[trigger] d[i]).1.id == m.provider && m.provider != POOL_PROVIDER@ && 0 <= j
                        < d[i].1.models.len() && (#[trigger] d[i].1.models[j]).1.pool is Some && m == joined_model(
                        m.provider,
                        d[i].1.models[j].1,
                        d[i].1.models[j].1.pool->0,
                    );
                assert(reg[i] == d[i]);
                assert(reg[i].1.models[j].1.pool is Some);
            } else {
                let x = choose|x: int| 0 <= x < all.len() && all[x] == m;
                if x < rest.len() {
                    assert(rest[x] == m);
                }
                assert(own[x - rest.len()] == m);
                let j = lemma_joined_from(p.id, p.models, cat, x - rest.len());
                assert(reg[reg.len() - 1].1.models[j].1.pool is Some);
            }
        }
    }
}

proof fn lemma_joined_from(provider: Seq<char>, models: Seq<(Seq<char>, ModelView)>, cat: Seq<FreeModelView>, x: int) -> (j:
    int)
    requires
        0 <= x < joined_of(provider, models, cat).len(),
    ensures
        0 <= j < models.len(),
        models[j].1.pool is Some,
        joined_of(provider, models, cat)[x] == joined_model(provider, models[j].1, models[j].1.pool->0),
        !shipped(cat, provider, models[j].1.id),
    decreases models.len(),
{
    let d = models.drop_last();
    let rest = joined_of(provider, d, cat);
    if x < rest.len() {
        let j = lemma_joined_from(provider, d, cat, x);
        assert(models[j] == d[j]);
        j
    } else {
        models.len() - 1
    }
}

/// A model that the user added is shown with its own name, context and tools, and with the
/// quality and speed that it was added with.
pub proof fn added_models_are_shown_as_they_are(provider: Seq<char>, m: ModelView, info: PoolInfo)
    ensures
        ({
            let j = joined_model(provider, m, info);
            &&& j.provider == provider && j.id == m.id && j.name == m.name && j.context == m.context && j.tools == m.tool_call
            &&& j.quality == info.quality && j.speed == info.speed && j.info == info
        }),
{
}

/// A row of the pool: connected as its provider is, left out where it is connected and the
/// registry has it without a place in the pool, and with its usage, or none.
pub proof fn pool_rows_tell_of_the_model(
    registry: Registry,
    usage: Seq<ModelUsageView>,
    models: Seq<FreeModelView>,
    m: FreeModelView,
    all: bool,
)
    ensures
        ({
            let r = pool_row(registry, usage, m);
            &&& r.model == m
            &&& r.connected == connected(registry@, m.provider)
            &&& r.excluded ==> r.connected
            &&& r.connected ==> (r.excluded <==> !(registry.found(m.provider, m.id) matches Some(x) && x.pool is Some))
            &&& usage_of(usage, m.provider, m.id) matches Some(u) ==> r.usage == u
            &&& usage_of(usage, m.provider, m.id) is None ==> r.usage.rpm_used == 0 && r.usage.rpd_used == 0
                && r.usage.tpm_used == 0 && r.usage.tpd_used == 0 && r.usage.cooldown_secs == 0
                && r.usage.last_error.len() == 0 && r.usage.ttft_ms == 0 && r.usage.tps == 0
        }),
        pool_table(registry, usage, Seq::empty(), all).len() == 0,
        pool_table(registry, usage, models.push(m), all) == (if all || connected(registry@, m.provider) {
            pool_table(registry, usage, models, all).push(pool_row(registry, usage, m))
        } else {
            pool_table(registry, usage, models, all)
        }),
{
    assert(models.push(m).drop_last() =~= models);
}

/// The totals of the day add up the day's requests and tokens of every model.
pub proof fn totals_add_up_the_day(usage: Seq<ModelUsageView>, u: ModelUsageView)
    ensures
        requests_total(Seq::empty()) == 0 && tokens_total(Seq::empty()) == 0,
        requests_total(usage.push(u)) == requests_total(usage) + u.rpd_used,
        tokens_total(usage.push(u)) == tokens_total(usage) + u.tpd_used,
{
    assert(usage.push(u).drop_last() =~= usage);
}

/// A model is ready where it is connected and does not rest, and cooling where it rests.
pub proof fn models_are_ready_or_cooling(rows: Seq<PoolRowView>, r: PoolRowView)
    ensures
        ready_count(Seq::empty()) == 0 && cooling_count(Seq::empty()) == 0,
        r.usage.cooldown_secs > 0 ==> cooling_count(rows.push(r)) == cooling_count(rows) + 1 && ready_count(rows.push(r))
            == ready_count(rows),
        r.usage.cooldown_secs == 0 ==> cooling_count(rows.push(r)) == cooling_count(rows),
        r.usage.cooldown_secs == 0 && r.connected ==> ready_count(rows.push(r)) == ready_count(rows) + 1,
        r.usage.cooldown_secs == 0 && !r.connected ==> ready_count(rows.push(r)) == ready_count(rows),
{
    assert(rows.push(r).drop_last() =~= rows);
}

/// A session is of today where it was updated within a day.
pub proof fn sessions_of_a_day_are_counted(updated: Seq<u64>, u: u64, now: u64)
    ensures
        today(Seq::empty(), now) == 0,
        today(updated.push(u), now) == today(updated, now) + (if now - u <= 24 * 60 * 60 * 1000 {
            1nat
        } else {
            0
        }),
{
    assert(updated.push(u).drop_last() =~= updated);
}

/// The tokens of a session are those of its last reply that has any.
pub proof fn the_last_reply_tells_the_tokens(msgs: Seq<MessageWithParts>, m: MessageWithParts)
    ensures
        session_tokens(Seq::empty()) == 0,
        m.info matches Message::Assistant(a) ==> session_tokens(msgs.push(m)) == (if a.tokens.effective_total > 0 {
            a.tokens.effective_total
        } else {
            session_tokens(msgs)
        }),
        m.info is User ==> session_tokens(msgs.push(m)) == session_tokens(msgs),
{
    assert(msgs.push(m).drop_last() =~= msgs);
}

// ───────────────────────────── keys ─────────────────────────────

/// What the environment gives stands in for every file; of the files the own one goes
/// before the one of old.
pub proof fn credentials_have_an_order(
    content: Option<Map<Seq<char>, AuthView>>,
    legacy: Map<Seq<char>, AuthView>,
    own: Map<Seq<char>, AuthView>,
    provider: Seq<char>,
)
    ensures
        content matches Some(m) ==> looked_up(known(content, legacy, own), provider) == looked_up(m, provider),
        content is None && own.contains_key(provider) ==> looked_up(known(content, legacy, own), provider) == Some(
            own[provider],
        ),
        content is None && !own.contains_key(provider) && legacy.contains_key(provider) ==> looked_up(
            known(content, legacy, own),
            provider,
        ) == Some(legacy[provider]),
        content is None && !own.contains_key(provider) && !legacy.contains_key(provider) ==> looked_up(
            known(content, legacy, own),
            provider,
        ) is None,
{
}

/// One can log in to the providers of the catalog that are supported or in the pool, and to
/// those of the pool that the catalog does not have.
pub proof fn logins_are_offered(
    catalog: Seq<(Seq<char>, CatalogProviderView)>,
    c: (Seq<char>, CatalogProviderView),
    free: Seq<(Seq<char>, FreeProviderView)>,
    f: (Seq<char>, FreeProviderView),
    known_free: Map<Seq<char>, FreeProviderView>,
    known_catalog: Map<Seq<char>, CatalogProviderView>,
)
    ensures
        from_catalog(Seq::empty(), known_free).len() == 0 && from_pool(Seq::empty(), known_catalog).len() == 0,
        c.1.supported || known_free.contains_key(c.1.id) ==> from_catalog(catalog.push(c), known_free) == from_catalog(
            catalog,
            known_free,
        ).push(c.1.id + " ("@ + c.1.name + ")"@),
        !c.1.supported && !known_free.contains_key(c.1.id) ==> from_catalog(catalog.push(c), known_free)
            == from_catalog(catalog, known_free),
        known_catalog.contains_key(f.0) ==> from_pool(free.push(f), known_catalog) == from_pool(free, known_catalog),
        !known_catalog.contains_key(f.0) ==> from_pool(free.push(f), known_catalog) == from_pool(free, known_catalog).push(
            f.0 + " ("@ + f.1.name + ")"@,
        ),
{
    assert(catalog.push(c).drop_last() =~= catalog);
    assert(free.push(f).drop_last() =~= free);
}

/// A key and a login are told apart.
pub proof fn kinds_of_credentials_are_named(a: AuthView)
    ensures
        a is Api ==> kind_name(a) == "api key"@,
        a is OAuth ==> kind_name(a) == "oauth"@,
{
}

// ───────────────────────────── why nothing is routed ─────────────────────────────

/// Where nothing can be picked, either no provider of the pool is connected, which is said,
/// or the connected ones are named.
pub proof fn failures_name_the_pool(reg: Seq<(Seq<char>, ProviderView)>, id: Seq<char>)
    ensures
        pool_providers(reg).contains(id) <==> exists|i: int|
            0 <= i < reg.len() && (#[trigger] reg[i]).1.connected && reg[i].1.id == id && id != "lunar"@ && has_pool_model(
                reg[i].1,
            ),
        pool_providers(reg).len() == 0 ==> pool_failure(reg)
            == "no pool provider is connected — add a key with `lz auth login <provider>` (see `lz pool setup`)"@,
        pool_providers(reg).len() > 0 ==> pool_failure(reg) == "every pool model is rate limited or cooling down ("@ + join(
            pool_providers(reg),
            ", "@,
        ) + "). Check `lz pool status`"@,
    decreases reg.len(),
{
    if reg.len() > 0 {
        let d = reg.drop_last();
        failures_name_the_pool(d, id);
        let before = pool_providers(d);
        let all = pool_providers(reg);
        if before.contains(id) {
            let x = choose|x: int| 0 <= x < before.len() && before[x] == id;
            assert(all[x] == id);
            let i = choose|i: int|
                0 <= i < d.len() && (#[trigger] d[i]).1.connected && d[i].1.id == id && id != "lunar"@ && has_pool_model(
                    d[i].1,
                );
            assert(reg[i] == d[i]);
        }
        if all.contains(id) && !before.contains(id) {
            let x = choose|x: int| 0 <= x < all.len() && all[x] == id;
            if x < before.len() {
                assert(before[x] == id);
            }
            assert(reg[reg.len() - 1].1.id == id);
        }
        if exists|i: int|
            0 <= i < reg.len() && (#[trigger] reg[i]).1.connected && reg[i].1.id == id && id != "lunar"@ && has_pool_model(
                reg[i].1,
            ) {
            let i = choose|i: int|
                0 <= i < reg.len() && (#[trigger] reg[i]).1.connected && reg[i].1.id == id && id != "lunar"@
                    && has_pool_model(reg[i].1);
            if i < d.len() {
                assert(d[i] == reg[i]);
            } else {
                assert(all[all.len() - 1] == id);
            }
        }
    }
}

/// A session sticks to its model for what was set, else for half an hour.
pub proof fn sessions_stick_for_half_an_hour(config: Config)
    ensures
        config.sticky_minutes matches Some(n) ==> sticky_minutes(config) == n,
        config.sticky_minutes is None ==> sticky_minutes(config) == 30,
{
}

/// A model is found under its provider and its name, and only there.
pub proof fn models_are_found_by_name(reg: Registry, provider: Seq<char>, name: Seq<char>, i: int, j: int)
    requires
        crate::table::increasing(reg@),
        0 <= i < reg@.len(),
        crate::table::increasing(reg@[i].1.models),
    ensures
        reg@[i].0 == provider && 0 <= j < reg@[i].1.models.len() && reg@[i].1.models[j].0 == name ==> reg.found(
            provider,
            name,
        ) == Some(reg@[i].1.models[j].1),
        reg@[i].0 == provider && (forall|k: int|
            0 <= k < reg@[i].1.models.len() ==> (#[trigger] reg@[i].1.models[k]).0 != name) ==> reg.found(provider, name) is None,
        (forall|k: int| 0 <= k < reg@.len() ==> (#[trigger] reg@[k]).0 != provider) ==> reg.found(provider, name) is None,
{
    crate::table::lemma_as_map(reg@);
    crate::table::lemma_as_map(reg@[i].1.models);
}

// ───────────────────────────── lines ─────────────────────────────

/// A line of the status: each use beside its own limit, where there is one; then how fast the
/// model is, where that was measured; then its state.
pub proof fn status_lines_set_use_beside_limits(u: ModelUsageView, f: PoolInfo, n: u64, l: u64)
    ensures
        crate::pool::used_of(n, Some(l)) == decimal(n as nat) + "/"@ + decimal(l as nat),
        crate::pool::used_of(n, None) == decimal(n as nat),
        ({
            let at = |used: u64, limit: Option<u64>, width: nat|
                crate::text::pad_left(crate::pool::used_of(used, limit), width);
            let first = if u.ttft_ms > 0 {
                decimal(u.ttft_ms as nat) + "ms"@
            } else {
                "-"@
            };
            let rate = if u.tps > 0 {
                decimal(u.tps as nat)
            } else {
                "-"@
            };
            crate::pool::status_line(u, f) == crate::text::pad_right(u.provider, 22) + " "@ + crate::text::pad_right(
                u.model,
                44,
            ) + " "@ + at(u.rpm_used, f.rpm, 7) + " "@ + at(u.rpd_used, f.rpd, 8) + " "@ + at(u.tpm_used, f.tpm, 9) + " "@
                + at(u.tpd_used, f.tpd, 9) + " "@ + crate::text::pad_left(first, 8) + " "@ + crate::text::pad_left(rate, 5)
                + "  "@ + state(u)
        }),
{
}

/// A line of the list: what the model is worth, whether it can be used, what it can do, and its
/// four limits in order; and how long it still rests.
pub proof fn list_lines_give_the_limits_in_order(m: FreeModel, on: bool, secs: u64)
    ensures
        ({
            let limit = |v: Option<u64>| match v {
                Some(n) => decimal(n as nat),
                None => "-"@,
            };
            let rest = if secs > 0 {
                "  ⏸ "@ + decimal(secs as nat) + "s"@
            } else {
                Seq::empty()
            };
            let tools = if m.tools {
                "yes"@
            } else {
                "no"@
            };
            let mark = if on {
                "●"@
            } else {
                "○"@
            };
            model_line(m, on, secs) == crate::text::pad_right(decimal(m.quality as nat), 4) + " "@ + crate::text::pad_right(
                decimal(m.speed as nat),
                4,
            ) + " "@ + mark + " "@ + crate::text::pad_right(m.provider@, 22) + " "@ + crate::text::pad_right(m.id@, 48)
                + " "@ + crate::text::pad_right(tools, 5) + " "@ + crate::text::pad_right(
                decimal((m.context / 1000) as nat) + "k"@,
                7,
            ) + " "@ + limit(m.info.rpm) + "/"@ + limit(m.info.rpd) + "/"@ + limit(m.info.tpm) + "/"@ + limit(m.info.tpd)
                + rest
        }),
{
}

/// A provider in setup: whether it is connected, how many models it has and how good the best
/// is, and the variables that may hold its key.
pub proof fn setup_lines_name_the_keys(
    reg: Seq<(Seq<char>, ProviderView)>,
    models: Seq<FreeModel>,
    id: Seq<char>,
    p: FreeProviderView,
)
    ensures
        provider_lines(reg, models, id, p).len() == 2,
        ({
            let mark = if connected(reg, id) {
                "●"@
            } else {
                "○"@
            };
            provider_lines(reg, models, id, p)[0] == mark + " "@ + crate::text::pad_right(id, 22) + " "@
                + crate::text::pad_left(decimal(model_count(models, id)), 3) + " models  best quality "@
                + crate::text::pad_left(decimal(best_quality(models, id) as nat), 3) + "  "@ + join(p.env, " | "@)
        }),
{
}

/// Each stored credential is listed with what it is; where there is none, where they would be.
pub proof fn credentials_are_listed(all: Seq<(Seq<char>, AuthView)>, path: Seq<char>, i: int)
    ensures
        all.len() == 0 ==> crate::auth::auth_lines(all, path).len() == 1 && crate::auth::auth_lines(all, path)[0]
            == "no stored credentials ("@ + path + ")"@,
        all.len() > 0 ==> crate::auth::auth_lines(all, path).len() == all.len(),
        0 <= i < all.len() ==> crate::auth::auth_lines(all, path)[i] == crate::text::pad_right(all[i].0, 20) + " "@ + (
        if all[i].1 is Api {
            "api key"@
        } else {
            "oauth"@
        }),
{
}

} // verus!
