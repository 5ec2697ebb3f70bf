//! Turning the model of a prompt into the one that is called.

use crate::config::Config;
use crate::provider::{Model, ModelView, ProviderView, Registry, Strategy, POOL_PROVIDER};
use crate::router::{candidates, picked, Need, NeedView, Router, RouterView};
use crate::text::{join, joined, same, texts};
use crate::usage::MINUTE;
use vstd::prelude::*;

verus! {

/// How to fail over from the model that was picked.
pub struct RouteInput {
    pub strategy: Strategy,
    pub need: Need,
    pub sticky_minutes: u64,
}

/// The model to call.
pub struct Routed {
    pub model: Model,
    /// where failover applies
    pub route: Option<RouteInput>,
    /// why it was picked, where the pool picked it: told to whoever watches
    pub announced: Option<String>,
}

/// Whether a provider has a model in the pool.
pub open spec fn has_pool_model(p: ProviderView) -> bool {
    exists|i: int| 0 <= i < p.models.len() && (#[trigger] p.models[i]).1.pool is Some
}

/// The connected providers that have models in the pool.
pub open spec fn pool_providers(reg: Seq<(Seq<char>, ProviderView)>) -> Seq<Seq<char>>
    decreases reg.len(),
{
    if reg.len() == 0 {
        Seq::empty()
    } else {
        let p = reg.last().1;
        let before = pool_providers(reg.drop_last());
        if p.connected && p.id != POOL_PROVIDER@ && has_pool_model(p) {
            before.push(p.id)
        } else {
            before
        }
    }
}

/// What is said when the pool has no model to give.
pub open spec fn pool_failure(reg: Seq<(Seq<char>, ProviderView)>) -> Seq<char> {
    let ids = pool_providers(reg);
    if ids.len() == 0 {
        "no pool provider is connected — add a key with `lz auth login <provider>` (see `lz pool setup`)"@
    } else {
        "every pool model is rate limited or cooling down ("@ + join(ids, ", "@)
            + "). Check `lz pool status`"@
    }
}

pub fn pool_providers_of(registry: &Registry) -> (r: Vec<String>)
    ensures
        texts(r@) == pool_providers(registry@),
{
    let ghost reg = registry@;
    let n = registry.providers.len();
    let mut out: Vec<String> = Vec::new();
    let mut i: usize = 0;
    assert(texts(out@) =~= pool_providers(reg.take(0)));
    while i < n
        invariant
            i <= n,
            n == reg.len(),
            reg == registry@,
            texts(out@) == pool_providers(reg.take(i as int)),
        decreases n - i,
    {
        let p = registry.providers.value(i);
        assert(reg.take(i + 1).drop_last() =~= reg.take(i as int));
        assert(reg.take(i + 1).last() == reg[i as int]);
        let k = p.models.len();
        let mut j: usize = 0;
        let mut any = false;
        while j < k
            invariant
                j <= k,
                k == p@.models.len(),
                any == (exists|x: int| 0 <= x < j && (#[trigger] p@.models[x]).1.pool is Some),
            decreases k - j,
        {
            let m = p.models.value(j);
            assert(p@.models[j as int].1 == m@);
            if m.pool.is_some() {
                any = true;
            }
            j += 1;
        }
        if p.connected && !same(p.id.as_str(), POOL_PROVIDER) && any {
            let ghost was = texts(out@);
            out.push(p.id.clone());
            assert(texts(out@) =~= was.push(p@.id));
        }
        i += 1;
    }
    assert(reg.take(n as int) =~= reg);
    out
}

pub fn pool_failure_of(registry: &Registry) -> (s: String)
    ensures
        s@ == pool_failure(registry@),
{
    let ids = pool_providers_of(registry);
    assert(texts(ids@).len() == ids@.len());
    if ids.len() == 0 {
        "no pool provider is connected — add a key with `lz auth login <provider>` (see `lz pool setup`)".to_owned()
    } else {
        let mut s = "every pool model is rate limited or cooling down (".to_owned();
        s.append(joined(&ids, ", ").as_str());
        s.append("). Check `lz pool status`");
        s
    }
}

pub open spec fn sticky_minutes(config: Config) -> u64 {
    match config.sticky_minutes {
        Some(n) => n,
        None => 30,
    }
}

/// What a virtual model is routed to: a model of the pool with the reason for
/// it, and the router afterwards.
pub open spec fn pool_pick(
    router: RouterView,
    reg: Seq<(Seq<char>, ProviderView)>,
    config: Config,
    strategy: Strategy,
    need: NeedView,
    session: Seq<char>,
    now: u64,
    scores: Seq<i64>,
) -> (RouterView, Option<(ModelView, Seq<char>)>) {
    picked(
        router,
        candidates(reg, need, Seq::empty()),
        strategy,
        need,
        session,
        sticky_minutes(config) as int,
        now as int,
        scores,
    )
}

/// Resolve a virtual model of the pool (or keep a concrete one). `strategy` is
/// that of the virtual model, and none for a concrete one. Failover applies to a
/// virtual model, and to a member of the pool unless it is switched off.
pub fn route_model(
    router: &mut Router,
    registry: &Registry,
    config: &Config,
    model: &Model,
    strategy: Option<Strategy>,
    need: Need,
    session_id: &str,
    now: u64,
    scores: &Vec<i64>,
) -> (r: Result<Routed, String>)
    requires
        strategy is Some ==> scores@.len() == candidates(registry@, need@, Seq::empty()).len(),
        now + sticky_minutes(*config) * MINUTE <= u64::MAX,
    ensures
        match strategy {
            Some(s) => {
                let (after, pick) = pool_pick(
                    old(router)@,
                    registry@,
                    *config,
                    s,
                    need@,
                    session_id@,
                    now,
                    scores@,
                );
                &&& final(router)@ == after
                &&& match r {
                    Ok(routed) => {
                        &&& pick matches Some(p) && routed.model@ == p.0 && (
                        routed.announced matches Some(why) && why@ == "routed:"@ + p.1)
                        &&& routed.route matches Some(i) && i.strategy == s && i.need@ == need@
                            && i.sticky_minutes == sticky_minutes(*config)
                    },
                    Err(why) => pick is None && why@ == pool_failure(registry@),
                }
            },
            None => {
                &&& final(router)@ == old(router)@
                &&& r matches Ok(routed)
                &&& routed.model@ == model@ && routed.announced is None
                &&& match routed.route {
                    Some(i) => model.pool is Some && config.fallback != Some(false) && i.strategy
                        == Strategy::Auto && i.need@ == need@ && i.sticky_minutes == 0,
                    None => model.pool is None || config.fallback == Some(false),
                }
            },
        },
{
    let minutes: u64 = match config.sticky_minutes {
        Some(n) => n,
        None => 30,
    };
    let fallback = match config.fallback {
        Some(b) => b,
        None => true,
    };
    if let Some(s) = strategy {
        let none: Vec<String> = Vec::new();
        assert(texts(none@) =~= Seq::empty());
        return match router.pick(registry, s, &need, session_id, &none, minutes, now, scores) {
            Some(p) => {
                let mut why = "routed:".to_owned();
                why.append(p.reason.as_str());
                Ok(
                    Routed {
                        model: p.model,
                        route: Some(RouteInput { strategy: s, need, sticky_minutes: minutes }),
                        announced: Some(why),
                    },
                )
            },
            None => Err(pool_failure_of(registry)),
        };
    }
    let route = if model.pool.is_some() && fallback {
        Some(RouteInput { strategy: Strategy::Auto, need, sticky_minutes: 0 })
    } else {
        None
    };
    Ok(Routed { model: model.clone(), route, announced: None })
}

} // verus!
