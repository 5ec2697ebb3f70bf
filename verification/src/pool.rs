//! The free-tier pool: setup help, model list, quota status.

use crate::auth::{FreeProvider, FreeProviderView};
use crate::provider::{PoolInfo, ProviderView, Registry};
use crate::router::{usage_views, ModelUsage, ModelUsageView};
use crate::table::{as_map, Table};
use crate::text::{
    clip, clipped, decimal, decimal_of, first_line, first_line_of, join, joined, pad_left, pad_right, padded_left,
    padded_right, same, texts,
};
use vstd::prelude::*;

verus! {

/// A model of the free pool.
#[derive(Debug)]
pub struct FreeModel {
    pub provider: String,
    pub id: String,
    pub name: String,
    pub quality: u32,
    pub speed: u32,
    /// context window in tokens
    pub context: u64,
    pub tools: bool,
    pub info: PoolInfo,
}

/// The pool as it is shipped.
pub struct PoolCatalog {
    pub version: String,
    pub providers: Table<FreeProvider>,
    pub models: Vec<FreeModel>,
}

/// Whether a provider can be called.
pub open spec fn connected(reg: Seq<(Seq<char>, ProviderView)>, id: Seq<char>) -> bool {
    as_map(reg).contains_key(id) && as_map(reg)[id].connected
}

pub fn is_connected(registry: &Registry, id: &str) -> (b: bool)
    ensures
        b == connected(registry@, id@),
{
    match registry.providers.get(id) {
        Some(p) => p.connected,
        None => false,
    }
}

/// The usage of one model: that of the first row on it.
pub open spec fn usage_of(
    rows: Seq<ModelUsageView>,
    provider: Seq<char>,
    model: Seq<char>,
) -> Option<ModelUsageView>
    decreases rows.len(),
{
    if rows.len() == 0 {
        None
    } else if rows[0].provider == provider && rows[0].model == model {
        Some(rows[0])
    } else {
        usage_of(rows.skip(1), provider, model)
    }
}

pub fn find_usage<'a>(rows: &'a Vec<ModelUsage>, provider: &str, model: &str) -> (r: Option<
    &'a ModelUsage,
>)
    ensures
        match r {
            Some(u) => usage_of(usage_views(rows@), provider@, model@) == Some(u@),
            None => usage_of(usage_views(rows@), provider@, model@) is None,
        },
{
    let ghost all = usage_views(rows@);
    let mut i: usize = 0;
    assert(all.skip(0) =~= all);
    while i < rows.len()
        invariant
            i <= rows@.len(),
            all == usage_views(rows@),
            usage_of(all, provider@, model@) == usage_of(all.skip(i as int), provider@, model@),
        decreases rows@.len() - i,
    {
        let u = &rows[i];
        assert(all.skip(i as int)[0] == u@);
        if same(u.provider.as_str(), provider) && same(u.model.as_str(), model) {
            return Some(u);
        }
        assert(all.skip(i as int).skip(1) =~= all.skip(i + 1));
        i += 1;
    }
    None
}

fn add_text(out: &mut Vec<String>, s: String)
    ensures
        texts(final(out)@) == texts(old(out)@).push(s@),
{
    let ghost was = texts(out@);
    out.push(s);
    assert(texts(out@) =~= was.push(s@));
}

// ───────────────────────────── setup ─────────────────────────────

/// How many models a provider has in the pool.
pub open spec fn model_count(models: Seq<FreeModel>, provider: Seq<char>) -> nat
    decreases models.len(),
{
    if models.len() == 0 {
        0
    } else {
        let rest = model_count(models.drop_last(), provider);
        if models.last().provider@ == provider {
            rest + 1
        } else {
            rest
        }
    }
}

/// The quality of a provider's best model in the pool.
pub open spec fn best_quality(models: Seq<FreeModel>, provider: Seq<char>) -> u32
    decreases models.len(),
{
    if models.len() == 0 {
        0
    } else {
        let rest = best_quality(models.drop_last(), provider);
        if models.last().provider@ == provider && models.last().quality > rest {
            models.last().quality
        } else {
            rest
        }
    }
}

fn survey(models: &Vec<FreeModel>, provider: &str) -> (r: (usize, u32))
    ensures
        r.0 == model_count(models@, provider@),
        r.1 == best_quality(models@, provider@),
{
    let mut n: usize = 0;
    let mut best: u32 = 0;
    let mut i: usize = 0;
    while i < models.len()
        invariant
            i <= models@.len(),
            n <= i,
            n == model_count(models@.take(i as int), provider@),
            best == best_quality(models@.take(i as int), provider@),
        decreases models@.len() - i,
    {
        assert(models@.take(i + 1).drop_last() =~= models@.take(i as int));
        if same(models[i].provider.as_str(), provider) {
            n += 1;
            if models[i].quality > best {
                best = models[i].quality;
            }
        }
        i += 1;
    }
    assert(models@.take(i as int) =~= models@);
    (n, best)
}

pub open spec fn dot(on: bool) -> Seq<char> {
    if on {
        "●"@
    } else {
        "○"@
    }
}

fn dot_of(on: bool) -> (s: &'static str)
    ensures
        s@ == dot(on),
{
    if on {
        "●"
    } else {
        "○"
    }
}

pub open spec fn setup_head(models: nat, providers: nat, version: Seq<char>) -> Seq<char> {
    "Free-tier pool: "@ + decimal(models) + " models across "@ + decimal(providers)
        + " providers (catalog "@ + version
        + ").\nAdd a key with `lz auth login <provider>` or export the env var; then use model `lunar/auto`.\n"@
}

/// The two lines on one provider of the pool.
pub open spec fn provider_lines(
    reg: Seq<(Seq<char>, ProviderView)>,
    models: Seq<FreeModel>,
    id: Seq<char>,
    p: FreeProviderView,
) -> Seq<Seq<char>> {
    seq![
        dot(connected(reg, id)) + " "@ + pad_right(id, 22) + " "@ + pad_left(
            decimal(model_count(models, id)),
            3,
        ) + " models  best quality "@ + pad_left(decimal(best_quality(models, id) as nat), 3) + "  "@
            + join(p.env, " | "@),
        "     "@ + p.signup + "  — "@ + p.note,
    ]
}

pub open spec fn providers_lines(
    reg: Seq<(Seq<char>, ProviderView)>,
    models: Seq<FreeModel>,
    e: Seq<(Seq<char>, FreeProviderView)>,
) -> Seq<Seq<char>>
    decreases e.len(),
{
    if e.len() == 0 {
        Seq::empty()
    } else {
        providers_lines(reg, models, e.drop_last()) + provider_lines(
            reg,
            models,
            e.last().0,
            e.last().1,
        )
    }
}

/// How many providers of the pool are connected.
pub open spec fn connected_count(
    reg: Seq<(Seq<char>, ProviderView)>,
    e: Seq<(Seq<char>, FreeProviderView)>,
) -> nat
    decreases e.len(),
{
    if e.len() == 0 {
        0
    } else {
        let rest = connected_count(reg, e.drop_last());
        if connected(reg, e.last().0) {
            rest + 1
        } else {
            rest
        }
    }
}

/// What `pool setup` prints, one text for each print.
pub open spec fn setup_lines(reg: Seq<(Seq<char>, ProviderView)>, cat: PoolCatalog) -> Seq<Seq<char>> {
    let e = cat.providers.entries();
    let n = connected_count(reg, e);
    seq![setup_head(cat.models@.len(), e.len(), cat.version@)] + providers_lines(
        reg,
        cat.models@,
        e,
    ) + seq![
        "\n"@ + decimal(n) + "/"@ + decimal(e.len())
            + " providers connected. `lunar/auto` balances quality, speed and quota; `lunar/smart` and `lunar/fast` force one."@,
    ] + (if n == 0 {
        seq![
            "Tip: Groq, Cerebras, Google AI Studio and OpenRouter keys take a minute each and need no card."@,
        ]
    } else {
        Seq::empty()
    })
}

fn add_provider(
    out: &mut Vec<String>,
    registry: &Registry,
    models: &Vec<FreeModel>,
    id: &str,
    p: &FreeProvider,
) -> (on: bool)
    ensures
        on == connected(registry@, id@),
        texts(final(out)@) == texts(old(out)@) + provider_lines(registry@, models@, id@, p@),
{
    let ghost was = texts(out@);
    let on = is_connected(registry, id);
    let (n, best) = survey(models, id);
    let mut s = dot_of(on).to_owned();
    s.append(" ");
    s.append(padded_right(id, 22).as_str());
    s.append(" ");
    s.append(padded_left(decimal_of(n as u64).as_str(), 3).as_str());
    s.append(" models  best quality ");
    s.append(padded_left(decimal_of(best as u64).as_str(), 3).as_str());
    s.append("  ");
    s.append(joined(&p.env, " | ").as_str());
    add_text(out, s);
    let mut t = "     ".to_owned();
    t.append(p.signup.as_str());
    t.append("  — ");
    t.append(p.note.as_str());
    add_text(out, t);
    assert(texts(out@) =~= was + provider_lines(registry@, models@, id@, p@));
    on
}

/// How to join the pool, provider by provider.
pub fn setup(registry: &Registry, cat: &PoolCatalog) -> (out: Vec<String>)
    ensures
        texts(out@) == setup_lines(registry@, *cat),
{
    let ghost e = cat.providers.entries();
    let k: usize = cat.providers.len();
    let mut out: Vec<String> = Vec::new();
    let mut s = "Free-tier pool: ".to_owned();
    s.append(decimal_of(cat.models.len() as u64).as_str());
    s.append(" models across ");
    s.append(decimal_of(k as u64).as_str());
    s.append(" providers (catalog ");
    s.append(cat.version.as_str());
    s.append(
        ").\nAdd a key with `lz auth login <provider>` or export the env var; then use model `lunar/auto`.\n",
    );
    add_text(&mut out, s);
    let ghost head = texts(out@);
    assert(head =~= seq![setup_head(cat.models@.len(), e.len(), cat.version@)]);
    let mut n: usize = 0;
    let mut i: usize = 0;
    assert(texts(out@) =~= head + providers_lines(registry@, cat.models@, e.take(0)));
    while i < k
        invariant
            i <= k,
            k == e.len(),
            e == cat.providers.entries(),
            n <= i,
            n == connected_count(registry@, e.take(i as int)),
            texts(out@) == head + providers_lines(registry@, cat.models@, e.take(i as int)),
        decreases k - i,
    {
        assert(e.take(i + 1).drop_last() =~= e.take(i as int));
        let on = add_provider(
            &mut out,
            registry,
            &cat.models,
            cat.providers.key(i),
            cat.providers.value(i),
        );
        if on {
            n += 1;
        }
        i += 1;
        assert(texts(out@) =~= head + providers_lines(registry@, cat.models@, e.take(i as int)));
    }
    assert(e.take(i as int) =~= e);
    let mut t = "\n".to_owned();
    t.append(decimal_of(n as u64).as_str());
    t.append("/");
    t.append(decimal_of(k as u64).as_str());
    t.append(
        " providers connected. `lunar/auto` balances quality, speed and quota; `lunar/smart` and `lunar/fast` force one.",
    );
    add_text(&mut out, t);
    if n == 0 {
        add_text(
            &mut out,
            "Tip: Groq, Cerebras, Google AI Studio and OpenRouter keys take a minute each and need no card.".to_owned(),
        );
    }
    assert(texts(out@) =~= setup_lines(registry@, *cat));
    out
}

// ───────────────────────────── list ─────────────────────────────

pub open spec fn limit(v: Option<u64>) -> Seq<char> {
    match v {
        Some(n) => decimal(n as nat),
        None => "-"@,
    }
}

fn limit_of(v: Option<u64>) -> (s: String)
    ensures
        s@ == limit(v),
{
    match v {
        Some(n) => decimal_of(n),
        None => "-".to_owned(),
    }
}

pub open spec fn list_head() -> Seq<char> {
    pad_right("qual"@, 4) + " "@ + pad_right("spd"@, 4) + "   "@ + pad_right("provider"@, 22) + " "@
        + pad_right("model"@, 48) + " "@ + pad_right("tools"@, 5) + " "@ + pad_right("ctx"@, 7)
        + " limits rpm/rpd/tpm/tpd"@
}

/// How long a model still rests, as the list shows it.
pub open spec fn pause(secs: u64) -> Seq<char> {
    if secs > 0 {
        "  ⏸ "@ + decimal(secs as nat) + "s"@
    } else {
        Seq::empty()
    }
}

pub open spec fn resting(u: Option<ModelUsageView>) -> u64 {
    match u {
        Some(u) => u.cooldown_secs,
        None => 0,
    }
}

pub open spec fn model_line(m: FreeModel, on: bool, secs: u64) -> Seq<char> {
    pad_right(decimal(m.quality as nat), 4) + " "@ + pad_right(decimal(m.speed as nat), 4) + " "@
        + dot(on) + " "@ + pad_right(m.provider@, 22) + " "@ + pad_right(m.id@, 48) + " "@
        + pad_right(
        if m.tools {
            "yes"@
        } else {
            "no"@
        },
        5,
    ) + " "@ + pad_right(decimal((m.context / 1000) as nat) + "k"@, 7) + " "@ + limit(m.info.rpm)
        + "/"@ + limit(m.info.rpd) + "/"@ + limit(m.info.tpm) + "/"@ + limit(m.info.tpd) + pause(secs)
}

/// The lines on the models of the pool: those of the connected providers, or all.
pub open spec fn model_lines(
    reg: Seq<(Seq<char>, ProviderView)>,
    models: Seq<FreeModel>,
    usage: Seq<ModelUsageView>,
    all: bool,
) -> Seq<Seq<char>>
    decreases models.len(),
{
    if models.len() == 0 {
        Seq::empty()
    } else {
        let rest = model_lines(reg, models.drop_last(), usage, all);
        let m = models.last();
        let on = connected(reg, m.provider@);
        if on || all {
            rest.push(model_line(m, on, resting(usage_of(usage, m.provider@, m.id@))))
        } else {
            rest
        }
    }
}

/// What `pool list` prints, one text for each print.
pub open spec fn list_lines(
    reg: Seq<(Seq<char>, ProviderView)>,
    models: Seq<FreeModel>,
    usage: Seq<ModelUsageView>,
    all: bool,
) -> Seq<Seq<char>> {
    seq![list_head()] + model_lines(reg, models, usage, all) + (if all {
        Seq::empty()
    } else {
        seq!["\n(connected providers only; `--all` shows the whole pool)"@]
    })
}

fn model_line_of(m: &FreeModel, on: bool, secs: u64) -> (s: String)
    ensures
        s@ == model_line(*m, on, secs),
{
    let mut s = padded_right(decimal_of(m.quality as u64).as_str(), 4);
    s.append(" ");
    s.append(padded_right(decimal_of(m.speed as u64).as_str(), 4).as_str());
    s.append(" ");
    s.append(dot_of(on));
    s.append(" ");
    s.append(padded_right(m.provider.as_str(), 22).as_str());
    s.append(" ");
    s.append(padded_right(m.id.as_str(), 48).as_str());
    s.append(" ");
    let tools = if m.tools {
        "yes"
    } else {
        "no"
    };
    s.append(padded_right(tools, 5).as_str());
    s.append(" ");
    let mut k = decimal_of(m.context / 1000);
    k.append("k");
    s.append(padded_right(k.as_str(), 7).as_str());
    s.append(" ");
    s.append(limit_of(m.info.rpm).as_str());
    s.append("/");
    s.append(limit_of(m.info.rpd).as_str());
    s.append("/");
    s.append(limit_of(m.info.tpm).as_str());
    s.append("/");
    s.append(limit_of(m.info.tpd).as_str());
    let mut p = String::new();
    if secs > 0 {
        p = "  ⏸ ".to_owned();
        p.append(decimal_of(secs).as_str());
        p.append("s");
    }
    assert(p@ =~= pause(secs));
    s.append(p.as_str());
    s
}

/// The models of the pool with their limits.
pub fn list(registry: &Registry, cat: &PoolCatalog, usage: &Vec<ModelUsage>, all: bool) -> (out: Vec<
    String,
>)
    ensures
        texts(out@) == list_lines(registry@, cat.models@, usage_views(usage@), all),
{
    let ghost rows = usage_views(usage@);
    let mut out: Vec<String> = Vec::new();
    let mut h = padded_right("qual", 4);
    h.append(" ");
    h.append(padded_right("spd", 4).as_str());
    h.append("   ");
    h.append(padded_right("provider", 22).as_str());
    h.append(" ");
    h.append(padded_right("model", 48).as_str());
    h.append(" ");
    h.append(padded_right("tools", 5).as_str());
    h.append(" ");
    h.append(padded_right("ctx", 7).as_str());
    h.append(" limits rpm/rpd/tpm/tpd");
    add_text(&mut out, h);
    let ghost head = texts(out@);
    assert(head =~= seq![list_head()]);
    let mut i: usize = 0;
    assert(texts(out@) =~= head + model_lines(registry@, cat.models@.take(0), rows, all));
    while i < cat.models.len()
        invariant
            i <= cat.models@.len(),
            rows == usage_views(usage@),
            texts(out@) == head + model_lines(registry@, cat.models@.take(i as int), rows, all),
        decreases cat.models@.len() - i,
    {
        assert(cat.models@.take(i + 1).drop_last() =~= cat.models@.take(i as int));
        let m = &cat.models[i];
        let on = is_connected(registry, m.provider.as_str());
        if on || all {
            let secs: u64 = match find_usage(usage, m.provider.as_str(), m.id.as_str()) {
                Some(u) => u.cooldown_secs,
                None => 0,
            };
            add_text(&mut out, model_line_of(m, on, secs));
        }
        i += 1;
        assert(texts(out@) =~= head + model_lines(
            registry@,
            cat.models@.take(i as int),
            rows,
            all,
        ));
    }
    assert(cat.models@.take(i as int) =~= cat.models@);
    if !all {
        add_text(
            &mut out,
            "\n(connected providers only; `--all` shows the whole pool)".to_owned(),
        );
    }
    assert(texts(out@) =~= list_lines(registry@, cat.models@, rows, all));
    out
}

// ───────────────────────────── status ─────────────────────────────

/// What is used of a limit, where there is one.
pub open spec fn used_of(used: u64, limit: Option<u64>) -> Seq<char> {
    match limit {
        Some(l) => decimal(used as nat) + "/"@ + decimal(l as nat),
        None => decimal(used as nat),
    }
}

fn used_text(used: u64, limit: Option<u64>) -> (s: String)
    ensures
        s@ == used_of(used, limit),
{
    let mut s = decimal_of(used);
    if let Some(l) = limit {
        s.append("/");
        s.append(decimal_of(l).as_str());
    }
    s
}

/// Whether a model rests, for how long and why.
pub open spec fn state(u: ModelUsageView) -> Seq<char> {
    if u.cooldown_secs > 0 {
        "⏸ "@ + decimal(u.cooldown_secs as nat) + "s  "@ + clip(first_line(u.last_error), 60)
    } else {
        "ready"@
    }
}

pub open spec fn status_head() -> Seq<char> {
    pad_right("provider"@, 22) + " "@ + pad_right("model"@, 44) + " "@ + pad_left("rpm"@, 7) + " "@
        + pad_left("rpd"@, 8) + " "@ + pad_left("tpm"@, 9) + " "@ + pad_left("tpd"@, 9) + " "@
        + pad_left("ttft"@, 8) + " "@ + pad_left("tok/s"@, 5) + "  state"@
}

/// The limits of a model that the registry lists, and none otherwise.
pub open spec fn limits_of(registry: Registry, u: ModelUsageView) -> PoolInfo {
    match registry.found(u.provider, u.model) {
        Some(m) => match m.pool {
            Some(p) => p,
            None => PoolInfo { quality: 0, speed: 0, rpm: None, rpd: None, tpm: None, tpd: None },
        },
        None => PoolInfo { quality: 0, speed: 0, rpm: None, rpd: None, tpm: None, tpd: None },
    }
}

pub open spec fn status_line(u: ModelUsageView, f: PoolInfo) -> Seq<char> {
    pad_right(u.provider, 22) + " "@ + pad_right(u.model, 44) + " "@ + pad_left(
        used_of(u.rpm_used, f.rpm),
        7,
    ) + " "@ + pad_left(used_of(u.rpd_used, f.rpd), 8) + " "@ + pad_left(
        used_of(u.tpm_used, f.tpm),
        9,
    ) + " "@ + pad_left(used_of(u.tpd_used, f.tpd), 9) + " "@ + pad_left(
        if u.ttft_ms > 0 {
            decimal(u.ttft_ms as nat) + "ms"@
        } else {
            "-"@
        },
        8,
    ) + " "@ + pad_left(
        if u.tps > 0 {
            decimal(u.tps as nat)
        } else {
            "-"@
        },
        5,
    ) + "  "@ + state(u)
}

/// What `pool status` prints, one text for each print.
pub open spec fn status_lines(
    registry: Registry,
    usage: Seq<ModelUsageView>,
    ledger: Seq<char>,
) -> Seq<Seq<char>> {
    if usage.len() == 0 {
        seq!["no pool provider connected — run `lz pool setup`"@]
    } else {
        seq![status_head()] + Seq::new(
            usage.len(),
            |i: int| status_line(usage[i], limits_of(registry, usage[i])),
        ) + seq!["\nledger: "@ + ledger]
    }
}

fn status_line_of(u: &ModelUsage, f: PoolInfo) -> (s: String)
    ensures
        s@ == status_line(u@, f),
{
    let mut s = padded_right(u.provider.as_str(), 22);
    s.append(" ");
    s.append(padded_right(u.model.as_str(), 44).as_str());
    s.append(" ");
    s.append(padded_left(used_text(u.rpm_used, f.rpm).as_str(), 7).as_str());
    s.append(" ");
    s.append(padded_left(used_text(u.rpd_used, f.rpd).as_str(), 8).as_str());
    s.append(" ");
    s.append(padded_left(used_text(u.tpm_used, f.tpm).as_str(), 9).as_str());
    s.append(" ");
    s.append(padded_left(used_text(u.tpd_used, f.tpd).as_str(), 9).as_str());
    s.append(" ");
    let mut first = "-".to_owned();
    if u.ttft_ms > 0 {
        first = decimal_of(u.ttft_ms);
        first.append("ms");
    }
    s.append(padded_left(first.as_str(), 8).as_str());
    s.append(" ");
    let mut rate = "-".to_owned();
    if u.tps > 0 {
        rate = decimal_of(u.tps);
    }
    s.append(padded_left(rate.as_str(), 5).as_str());
    s.append("  ");
    let mut st = "ready".to_owned();
    if u.cooldown_secs > 0 {
        st = "⏸ ".to_owned();
        st.append(decimal_of(u.cooldown_secs).as_str());
        st.append("s  ");
        st.append(clipped(first_line_of(u.last_error.as_str()).as_str(), 60).as_str());
    }
    s.append(st.as_str());
    s
}

/// What is used of the pool's limits. `ledger` is the path of the ledger.
pub fn status(registry: &Registry, usage: &Vec<ModelUsage>, ledger: &str) -> (out: Vec<String>)
    ensures
        texts(out@) == status_lines(*registry, usage_views(usage@), ledger@),
{
    let ghost rows = usage_views(usage@);
    let mut out: Vec<String> = Vec::new();
    if usage.len() == 0 {
        add_text(&mut out, "no pool provider connected — run `lz pool setup`".to_owned());
        assert(texts(out@) =~= status_lines(*registry, rows, ledger@));
        return out;
    }
    let mut h = padded_right("provider", 22);
    h.append(" ");
    h.append(padded_right("model", 44).as_str());
    h.append(" ");
    h.append(padded_left("rpm", 7).as_str());
    h.append(" ");
    h.append(padded_left("rpd", 8).as_str());
    h.append(" ");
    h.append(padded_left("tpm", 9).as_str());
    h.append(" ");
    h.append(padded_left("tpd", 9).as_str());
    h.append(" ");
    h.append(padded_left("ttft", 8).as_str());
    h.append(" ");
    h.append(padded_left("tok/s", 5).as_str());
    h.append("  state");
    add_text(&mut out, h);
    let ghost all = status_lines(*registry, rows, ledger@);
    assert(all.len() == rows.len() + 2);
    assert(texts(out@) =~= all.take(1));
    let mut i: usize = 0;
    while i < usage.len()
        invariant
            i <= usage@.len(),
            rows == usage_views(usage@),
            rows.len() > 0,
            all == status_lines(*registry, rows, ledger@),
            all.len() == rows.len() + 2,
            texts(out@) == all.take(i + 1),
        decreases usage@.len() - i,
    {
        let u = &usage[i];
        let f = match registry.get(u.provider.as_str(), u.model.as_str()) {
            Some(m) => match m.pool {
                Some(p) => p,
                None => PoolInfo::default(),
            },
            None => PoolInfo::default(),
        };
        assert(rows[i as int] == u@);
        add_text(&mut out, status_line_of(u, f));
        assert(all[i + 1] == status_line(u@, limits_of(*registry, u@)));
        assert(all.take(i + 2) =~= all.take(i + 1).push(all[i + 1]));
        i += 1;
    }
    let mut t = "\nledger: ".to_owned();
    t.append(ledger);
    add_text(&mut out, t);
    assert(texts(out@) =~= all);
    out
}

} // verus!
