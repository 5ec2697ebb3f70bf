use lunarzero::provider::{Model, PoolInfo, Provider, Registry, Strategy};
use lunarzero::router::{candidates_for, weights_for, Ledger, LlmError, Need, Pick, Router};
use lunarzero::table::Table;
use lunarzero::usage::Usage;

const NOW: u64 = 1_700_000_000_000;

fn model(p: &str, id: &str, quality: u32, speed: u32, rpm: Option<u64>) -> Model {
    Model {
        provider_id: p.into(),
        id: id.into(),
        name: id.into(),
        api_id: id.into(),
        npm: "@ai-sdk/openai-compatible".into(),
        tool_call: true,
        attachment: false,
        protocol: Some("openai-chat".into()),
        context: 128_000,
        input: None,
        max_output: 8192,
        variants: Vec::new(),
        pool: Some(PoolInfo { quality, speed, rpm, ..Default::default() }),
    }
}

fn registry(models: Vec<Model>) -> Registry {
    let mut providers: Table<Provider> = Table::new();
    for m in models {
        let mut own: Table<Model> = Table::new();
        if let Some(p) = providers.remove(&m.provider_id) {
            own = p.models;
        }
        let id = m.provider_id.clone();
        own.insert(m.id.clone(), m);
        providers.insert(
            id.clone(),
            Provider { id: id.clone(), name: id, source: "env".into(), connected: true, models: own },
        );
    }
    Registry { providers }
}

fn order_key(score: f64) -> i64 {
    let bits = score.to_bits() as i64;
    if bits < 0 {
        i64::MIN ^ bits ^ -1
    } else {
        bits
    }
}

fn share(headroom: f64, used: Option<(u64, u64)>) -> f64 {
    match used {
        Some((n, limit)) => headroom.min(1.0 - n as f64 / limit as f64),
        None => headroom,
    }
}

fn scores(r: &mut Router, reg: &Registry, strategy: Strategy, need: &Need) -> Vec<i64> {
    let (w_int, w_speed, w_head) = weights_for(strategy, need);
    candidates_for(reg, need, &Vec::new())
        .iter()
        .map(|m| {
            let Ok(s) = r.ledger.available(m, need.tokens, NOW) else {
                return 0;
            };
            let headroom = share(share(share(share(1.0, s.rpm), s.rpd), s.tpm), s.tpd);
            let f = m.pool.as_ref().unwrap();
            let score = w_int as f64 / 100.0 * (f.quality as f64 / 100.0)
                + w_speed as f64 / 100.0 * (f.speed as f64 / 100.0)
                + w_head as f64 / 100.0 * headroom;
            order_key(score)
        })
        .collect()
}

fn pick(r: &mut Router, reg: &Registry, strategy: Strategy, need: &Need, sticky: u64) -> Option<Pick> {
    let s = scores(r, reg, strategy, need);
    r.pick(reg, strategy, need, "s", &Vec::new(), sticky, NOW, &s)
}

#[test]
fn smart_prefers_quality_fast_prefers_speed() {
    let reg = registry(vec![model("a", "big", 90, 20, None), model("b", "quick", 30, 95, None)]);
    let mut r = Router::new(None);
    let need = Need { tools: true, ..Default::default() };
    assert_eq!(pick(&mut r, &reg, Strategy::Smart, &need, 0).unwrap().model.id, "big");
    assert_eq!(pick(&mut r, &reg, Strategy::Fast, &need, 0).unwrap().model.id, "quick");
}

#[test]
fn rate_limit_and_cooldown_fail_over() {
    let reg = registry(vec![model("a", "big", 90, 20, Some(1)), model("b", "quick", 30, 95, None)]);
    let mut r = Router::new(None);
    let need = Need { tools: true, ..Default::default() };
    let first = pick(&mut r, &reg, Strategy::Smart, &need, 0).unwrap().model;
    assert_eq!(first.id, "big");
    r.record_request(&first, 100, NOW);
    // rpm exhausted → next best
    assert_eq!(pick(&mut r, &reg, Strategy::Smart, &need, 0).unwrap().model.id, "quick");
    // explicit 429 on quick → nothing left
    let quick = reg.get("b", "quick").unwrap().clone();
    r.record_failure(
        &quick,
        &LlmError::RateLimited { message: "slow down".into(), retry_after_ms: None },
        NOW,
    );
    assert!(pick(&mut r, &reg, Strategy::Smart, &need, 0).is_none());
    let usage = r.usage(&reg, NOW);
    assert!(usage.iter().any(|u| u.model == "quick" && u.cooldown_secs > 0));
}

#[test]
fn sticky_keeps_session_on_model() {
    let reg = registry(vec![model("a", "big", 90, 20, None), model("b", "quick", 30, 95, None)]);
    let mut r = Router::new(None);
    let need = Need::default();
    assert_eq!(pick(&mut r, &reg, Strategy::Fast, &need, 30).unwrap().model.id, "quick");
    // strategy changes but sticky wins while the model is usable
    assert_eq!(pick(&mut r, &reg, Strategy::Smart, &need, 30).unwrap().reason, "sticky");
    r.clear_sticky("s");
    assert_eq!(pick(&mut r, &reg, Strategy::Smart, &need, 30).unwrap().model.id, "big");
}

#[test]
fn tools_requirement_filters() {
    let mut no_tools = model("a", "chat", 95, 95, None);
    no_tools.tool_call = false;
    let reg = registry(vec![no_tools, model("b", "agent", 60, 60, None)]);
    let mut r = Router::new(None);
    let need = Need { tools: true, ..Default::default() };
    assert_eq!(pick(&mut r, &reg, Strategy::Smart, &need, 0).unwrap().model.id, "agent");
}

fn limited(error: &str, retry: Option<u64>) -> LlmError {
    LlmError::RateLimited { message: error.into(), retry_after_ms: retry }
}

fn status(status: u16, error: &str) -> LlmError {
    LlmError::Provider { status, message: error.into(), retry_after_ms: None }
}

#[test]
fn cooldowns_follow_the_failure() {
    let m = model("a", "m", 1, 1, None);
    let first = |e: LlmError| Router::new(None).record_failure(&m, &e, NOW);
    let minute = 60_000;
    assert_eq!(first(LlmError::Authentication { message: "no".into() }), 60 * minute);
    assert_eq!(first(limited("slow down", None)), 2 * minute);
    assert_eq!(first(limited("slow down", Some(90_000))), 3 * minute);
    assert_eq!(first(limited("slow down", Some(u64::MAX))), 60 * minute);
    let midnight = lunarzero::router::next_utc_midnight(NOW) - NOW;
    assert_eq!(first(limited("Requests Per Day reached", None)), midnight);
    assert_eq!(first(status(404, "gone")), 24 * 60 * minute);
    assert_eq!(first(status(400, "shape")), 30 * minute);
    assert_eq!(first(status(422, "shape")), 30 * minute);
    assert_eq!(first(status(402, "pay")), 6 * 60 * minute);
    assert_eq!(first(status(403, "pay")), 6 * 60 * minute);
    assert_eq!(first(status(429, "slow")), 2 * minute);
    assert_eq!(first(status(429, "daily quota")), midnight);
    assert_eq!(first(status(500, "oops")), minute);
    assert_eq!(first(LlmError::Network { message: "n".into() }), minute);
    assert_eq!(first(LlmError::Timeout { message: "n".into() }), minute);
    assert_eq!(first(LlmError::InvalidOutput { message: "n".into() }), 10 * minute);
    assert_eq!(first(LlmError::InvalidRequest { message: "n".into() }), 10 * minute);
    assert_eq!(first(LlmError::Other { message: "n".into() }), 0);
}

#[test]
fn repeated_failures_back_off() {
    let m = model("a", "m", 1, 1, None);
    let mut r = Router::new(None);
    let waits: Vec<u64> = (0..8).map(|_| r.record_failure(&m, &limited("slow", None), NOW) / 60_000).collect();
    assert_eq!(waits, vec![2, 4, 8, 16, 32, 60, 60, 60]);
    let mut r = Router::new(None);
    let waits: Vec<u64> = (0..7).map(|_| r.record_failure(&m, &status(500, "x"), NOW) / 1000).collect();
    assert_eq!(waits, vec![60, 120, 240, 480, 900, 900, 900]);
    let mut r = Router::new(None);
    let e = LlmError::Network { message: "x".into() };
    let waits: Vec<u64> = (0..6).map(|_| r.record_failure(&m, &e, NOW) / 1000).collect();
    assert_eq!(waits, vec![60, 120, 240, 480, 480, 480]);
    // a request ends the run of failures
    r.record_request(&m, 0, NOW);
    assert_eq!(r.record_failure(&m, &e, NOW), 60_000);
}

#[test]
fn failed_logins_rest_the_provider() {
    let reg = registry(vec![
        model("a", "x", 90, 90, None),
        model("a", "y", 80, 80, None),
        model("b", "z", 10, 10, None),
    ]);
    let mut r = Router::new(None);
    let need = Need::default();
    let x = reg.get("a", "x").unwrap().clone();
    r.record_failure(&x, &LlmError::Authentication { message: "bad key".into() }, NOW);
    assert_eq!(pick(&mut r, &reg, Strategy::Smart, &need, 0).unwrap().model.id, "z");
    let usage = r.usage(&reg, NOW);
    assert_eq!(usage.iter().map(|u| u.cooldown_secs).collect::<Vec<_>>(), vec![3600, 3600, 0]);
    assert_eq!(r.ledger.available(&x, 0, NOW).err().unwrap().name(), "provider cooldown");
    r.reset_cooldowns();
    assert_eq!(pick(&mut r, &reg, Strategy::Smart, &need, 0).unwrap().model.id, "x");
}

#[test]
fn limits_refuse_by_name() {
    let mut m = model("a", "m", 1, 1, None);
    let day = 86_400_000;
    let with = |rpm, rpd, tpm, tpd| Some(PoolInfo { quality: 1, speed: 1, rpm, rpd, tpm, tpd });
    let mut r = Router::new(None);
    r.record_request(&m, 100, NOW - 120_000);
    r.record_request(&m, 50, NOW - 1_000);
    r.record_tokens(&m, 25, NOW);
    let look = |r: &mut Router, m: &Model, tokens| match r.ledger.available(m, tokens, NOW) {
        Ok(_) => "ok",
        Err(e) => e.name(),
    };
    m.pool = with(Some(1), None, None, None);
    assert_eq!(look(&mut r, &m, 0), "rpm");
    m.pool = with(Some(2), Some(2), None, None);
    assert_eq!(look(&mut r, &m, 0), "rpd");
    m.pool = with(Some(2), Some(3), Some(80), None);
    assert_eq!(look(&mut r, &m, 6), "tpm");
    assert_eq!(look(&mut r, &m, 5), "ok");
    m.pool = with(None, None, None, Some(180));
    assert_eq!(look(&mut r, &m, 6), "tpd");
    let s = r.ledger.available(&m, 5, NOW).unwrap();
    assert_eq!((s.rpm, s.tpd, s.failures), (None, Some((175, 180)), 0));
    // what lies more than a day back is forgotten
    assert_eq!(r.ledger.available(&m, 180, NOW + day + 1).unwrap().tpd, Some((0, 180)));
    m.pool = None;
    assert_eq!(look(&mut r, &m, 0), "not in pool");
    m.pool = with(None, None, None, None);
    r.record_failure(&m, &limited("slow", None), NOW);
    assert_eq!(look(&mut r, &m, 0), "cooldown");
}

#[test]
fn latency_is_kept_where_it_was_measured() {
    let m = model("a", "m", 1, 1, None);
    let mut r = Router::new(None);
    assert_eq!(r.measured(&m), (0, 0));
    r.record_latency(&m, 0, 100, 0, 1.0f64.to_bits(), 2.0f64.to_bits());
    assert_eq!(r.measured(&m), (0, 0));
    r.record_latency(&m, 700, 20, 10, 700.9f64.to_bits(), 33.5f64.to_bits());
    assert_eq!(r.measured(&m), (700.9f64.to_bits(), 33.5f64.to_bits()));
    r.record_latency(&m, 5, 19, 10, 9.0f64.to_bits(), 1.0f64.to_bits());
    assert_eq!(r.measured(&m), (9.0f64.to_bits(), 33.5f64.to_bits()));
    let u = r.usage(&registry(vec![model("a", "m", 1, 1, None)]), NOW);
    assert_eq!((u[0].ttft_ms, u[0].tps), (9, 33));
}

#[test]
fn stickiness_ends_with_time_and_failure() {
    let reg = registry(vec![model("a", "big", 90, 20, None), model("b", "quick", 30, 95, None)]);
    let need = Need::default();
    let mut r = Router::new(None);
    let none = Vec::new();
    assert_eq!(r.pick(&reg, Strategy::Fast, &need, "s", &none, 30, NOW, &vec![1, 2]).unwrap().model.id, "quick");
    let later = NOW + 30 * 60_000;
    assert_eq!(r.pick(&reg, Strategy::Smart, &need, "s", &none, 30, later - 1, &vec![2, 1]).unwrap().reason, "sticky");
    assert_eq!(r.pick(&reg, Strategy::Smart, &need, "t", &none, 30, NOW, &vec![2, 1]).unwrap().model.id, "big");
    let p = r.pick(&reg, Strategy::Smart, &need, "s", &none, 30, later, &vec![2, 1]).unwrap();
    assert_eq!((p.model.id.as_str(), p.reason.as_str()), ("big", "smart"));
    r.record_failure(&p.model, &limited("slow", None), later);
    assert_eq!(r.pick(&reg, Strategy::Smart, &need, "s", &none, 30, later, &vec![2, 1]).unwrap().model.id, "quick");
    // a model that is left out by its key
    let out = vec!["b/quick".to_string()];
    assert!(r.pick(&reg, Strategy::Smart, &need, "s", &out, 0, later, &vec![1]).is_none());
    // of equal scores the first one wins
    assert_eq!(Router::new(None).pick(&reg, Strategy::Fast, &need, "s", &none, 0, NOW, &vec![7, 7]).unwrap().model.id, "big");
}

#[test]
fn candidates_must_fit() {
    let mut blind = model("a", "m", 1, 1, None);
    blind.attachment = false;
    let mut seeing = model("b", "m", 1, 1, None);
    seeing.attachment = true;
    let mut outside = model("c", "m", 1, 1, None);
    outside.pool = None;
    let mut silent = model("d", "m", 1, 1, None);
    silent.protocol = None;
    let reg = registry(vec![blind, seeing, outside, silent, model("lunar", "m", 1, 1, None)]);
    let ids = |need: &Need| {
        candidates_for(&reg, need, &Vec::new()).iter().map(|m| m.provider_id.clone()).collect::<Vec<_>>()
    };
    assert_eq!(ids(&Need::default()), vec!["a", "b"]);
    assert_eq!(ids(&Need { vision: true, ..Default::default() }), vec!["b"]);
    // a context of 128000 holds 1.1 times the tokens and 2048 more
    assert_eq!(ids(&Need { tokens: 114_501, ..Default::default() }).len(), 2);
    assert_eq!(ids(&Need { tokens: 114_502, ..Default::default() }).len(), 0);
    assert_eq!(candidates_for(&reg, &Need::default(), &vec!["a/m".into()]).len(), 1);
}

#[test]
fn strategies_follow_the_request() {
    let need = |tools: bool, tokens: u64, text: &str| Need { tools, vision: false, tokens, user_text: text.into() };
    let kind = |n: Need| lunarzero::router::classify(&n).name();
    assert_eq!(kind(need(true, 0, "")), "smart");
    assert_eq!(kind(need(false, 24_001, "")), "smart");
    assert_eq!(kind(need(false, 24_000, "hi")), "fast");
    assert_eq!(kind(need(false, 0, "Please REFACTOR this")), "smart");
    let long = "a ".repeat(90);
    assert_eq!(kind(need(false, 0, &long)), "auto");
    assert_eq!(kind(need(false, 0, &format!("{long} tl;dr"))), "fast");
    assert_eq!(weights_for(Strategy::Auto, &need(false, 0, &long)), (50, 30, 20));
    assert_eq!(weights_for(Strategy::Auto, &need(false, 0, "hi")), (25, 55, 20));
    assert_eq!(weights_for(Strategy::Smart, &need(false, 0, "hi")), (75, 5, 20));
}

#[test]
fn doubles_are_reckoned_as_the_machine_does() {
    for (context, tokens) in [
        (128_000u64, 114_501u64),
        (128_000, 114_502),
        (2_048, 0),
        (2_047, 0),
        (3_148, 1_000),
        (3_147, 1_000),
        (1 << 40, 999_999_999_999),
        (u64::MAX >> 11, (u64::MAX >> 12) + 1),
        (13_048, 10_000),
        (2_059, 10),
        (2_058, 10),
    ] {
        let want = context as f64 >= (tokens as f64) * 1.1 + 2048.0;
        assert_eq!(lunarzero::double::context_fits(context, tokens), want, "{context} {tokens}");
    }
    for x in [0.0f64, 0.99, 1.0, 2.5, 250.0, 1e15 + 0.5, 1.8e19, 1e300, f64::INFINITY, -3.0, f64::NAN, 4_503_599_627_370_497.0] {
        assert_eq!(lunarzero::double::whole_of(x.to_bits()), x as u64, "{x}");
    }
}

#[test]
fn a_ledger_is_restored() {
    let usage = |reqs: &[u64]| Usage {
        reqs: reqs.iter().copied().collect(),
        toks: Default::default(),
        cooldown_until: 0,
        failures: 0,
        last_error: String::new(),
        ttft_bits: 0,
        tps_bits: 0,
    };
    // of one key the last entry counts
    let l = Ledger::restore(
        vec![("p/b".into(), usage(&[1])), ("p/a".into(), usage(&[2])), ("p/b".into(), usage(&[3, 4]))],
        vec![("p".into(), (9, "no".into()))],
    );
    let r = Router::new(Some(l));
    assert_eq!(r.ledger.models.len(), 2);
    assert_eq!(r.ledger.models.get("p/b").map(|u| u.reqs.len()), Some(2));
    assert_eq!(r.ledger.models.get("p/a").map(|u| u.reqs.len()), Some(1));
    assert_eq!(r.ledger.providers.get("p").map(|p| p.0), Some(9));
    assert_eq!(r.sticky.len(), 0);
}
