use lunarzero::auth::{AuthInfo, CatalogProvider, FreeProvider};
use lunarzero::pool::{FreeModel, PoolCatalog};
use lunarzero::provider::{Model, PoolInfo, Provider, Registry};
use lunarzero::router::ModelUsage;
use lunarzero::session::SessionModel;
use lunarzero::table::Table;
use lunarzero::web::{
    checked_key, dashboard_url, is_authorized, latest_first, mask, pool_counts, pool_rows, provider_rows,
    session_model_name, sessions_today, token_of, wants_all,
};

fn model(provider: &str, id: &str, pool: bool) -> Model {
    Model {
        provider_id: provider.into(),
        id: id.into(),
        name: format!("{id} name"),
        api_id: id.into(),
        npm: "n".into(),
        tool_call: true,
        attachment: false,
        protocol: None,
        context: 8000,
        input: None,
        max_output: 10,
        variants: Vec::new(),
        pool: if pool { Some(PoolInfo { quality: 5, speed: 6, ..Default::default() }) } else { None },
    }
}

fn provider(id: &str, connected: bool, models: Vec<Model>) -> Provider {
    let mut t: Table<Model> = Table::new();
    for m in models {
        t.insert(m.id.clone(), m);
    }
    Provider { id: id.into(), name: id.to_uppercase(), source: "env".into(), connected, models: t }
}

fn registry(list: Vec<Provider>) -> Registry {
    let mut providers: Table<Provider> = Table::new();
    for p in list {
        providers.insert(p.id.clone(), p);
    }
    Registry { providers }
}

fn free(provider: &str, id: &str) -> FreeModel {
    FreeModel {
        provider: provider.into(),
        id: id.into(),
        name: id.into(),
        quality: 1,
        speed: 2,
        context: 3,
        tools: true,
        info: PoolInfo::default(),
    }
}

#[test]
fn tokens_are_hexadecimal() {
    assert_eq!(token_of(&vec![0, 15, 160, 255]), "000fa0ff");
    assert_eq!(token_of(&vec![7; 16]).len(), 32);
    assert_eq!(dashboard_url("127.0.0.1:4", "ab"), "http://127.0.0.1:4/?token=ab");
}

#[test]
fn only_the_token_opens() {
    assert!(is_authorized(Some("Bearer abc"), "abc"));
    assert!(!is_authorized(Some("Bearer abcd"), "abc"));
    assert!(!is_authorized(Some("bearer abc"), "abc"));
    assert!(!is_authorized(Some("abc"), "abc"));
    assert!(!is_authorized(None, "abc"));
}

#[test]
fn keys_are_masked() {
    assert_eq!(mask(""), "");
    assert_eq!(mask("12345678"), "••••••••");
    assert_eq!(mask("sk-123456789"), "sk-…6789");
    assert_eq!(mask("ключ-длинный"), "клю…нный");
}

#[test]
fn keys_are_trimmed_and_must_not_be_empty() {
    assert_eq!(checked_key("  k \n"), Ok("k".to_string()));
    assert_eq!(checked_key(" \t"), Err("empty key"));
}

#[test]
fn whole_pool_on_request() {
    assert!(wants_all(Some("1")) && wants_all(Some("true")));
    assert!(!wants_all(Some("yes")) && !wants_all(None) && !wants_all(Some("")));
}

#[test]
fn provider_rows_are_sorted() {
    let reg = registry(vec![
        provider("zeta", true, vec![]),
        provider("alpha", false, vec![]),
        provider("groq", true, vec![model("groq", "a", true), model("groq", "b", false)]),
        provider("beta", false, vec![]),
        provider("lunar", true, vec![]),
        provider("cere", false, vec![]),
    ]);
    let mut stored: Table<AuthInfo> = Table::new();
    stored.insert("groq".into(), AuthInfo::Api { key: "gsk_1234567890".into(), metadata: None });
    stored.insert("zeta".into(), AuthInfo::OAuth { tokens: "{}".into() });
    let mut free: Table<FreeProvider> = Table::new();
    for id in ["groq", "cere"] {
        free.insert(
            id.into(),
            FreeProvider { name: "N".into(), env: vec!["G".into()], signup: "u".into(), note: "o".into() },
        );
    }
    let mut cat: Table<CatalogProvider> = Table::new();
    for id in ["zeta", "groq"] {
        cat.insert(
            id.into(),
            CatalogProvider { id: id.into(), name: id.into(), supported: true, env: vec!["Z".into()] },
        );
    }
    let rows = provider_rows(&reg, &stored, &free, &cat);
    let ids: Vec<&str> = rows.iter().map(|r| r.id.as_str()).collect();
    assert_eq!(ids, vec!["groq", "zeta", "cere", "alpha", "beta"]);
    let g = &rows[0];
    assert_eq!((g.name.as_str(), g.models, g.pool, g.stored), ("GROQ", 2, true, true));
    assert_eq!((g.signup.as_deref(), g.note.as_deref()), (Some("u"), Some("o")));
    assert_eq!((g.env.clone(), g.masked.as_deref()), (vec!["G".to_string()], Some("gsk…7890")));
    let z = &rows[1];
    assert_eq!((z.env.clone(), z.stored, z.masked.clone(), z.pool), (vec!["Z".to_string()], false, None, false));
    assert!(rows[3].env.is_empty());
}

fn usage(provider: &str, model: &str, cooldown_secs: u64) -> ModelUsage {
    ModelUsage {
        provider: provider.into(),
        model: model.into(),
        rpm_used: 1,
        rpd_used: 10,
        tpm_used: 2,
        tpd_used: u64::MAX,
        cooldown_secs,
        last_error: "e".into(),
        ttft_ms: 5,
        tps: 6,
    }
}

#[test]
fn pool_rows_follow_the_catalog_then_the_registry() {
    let cat = PoolCatalog {
        version: "v".into(),
        providers: Table::new(),
        models: vec![free("groq", "a"), free("groq", "gone"), free("off", "x")],
    };
    let reg = registry(vec![
        provider("groq", true, vec![model("groq", "a", true), model("groq", "gone", false), model("groq", "mine", true)]),
        provider("off", false, vec![model("off", "x", true)]),
        provider("lunar", true, vec![model("lunar", "auto", true)]),
    ]);
    let u = vec![usage("groq", "a", 7), usage("groq", "mine", 0)];
    let r = pool_rows(&reg, &cat, &u, false);
    let ids: Vec<&str> = r.rows.iter().map(|r| r.model.id.as_str()).collect();
    assert_eq!(ids, vec!["a", "gone", "mine"]);
    assert_eq!(r.rows.iter().map(|r| r.excluded).collect::<Vec<_>>(), vec![false, true, false]);
    assert_eq!(r.rows[2].model.quality, 5);
    assert_eq!(r.rows[2].model.name, "mine name");
    assert_eq!((r.rows[0].usage.cooldown_secs, r.rows[1].usage.cooldown_secs), (7, 0));
    assert_eq!(r.requests_today, 20);
    assert_eq!(r.tokens_today, 2 * (u64::MAX as u128));
    let all = pool_rows(&reg, &cat, &u, true);
    assert_eq!(all.rows.len(), 4);
    assert!(!all.rows[2].connected && !all.rows[2].excluded);
    // ready and resting rows, of four
    assert_eq!(pool_counts(&all.rows), (2, 1));
}

#[test]
fn sessions_are_counted_and_ordered() {
    let day = 86_400_000;
    assert_eq!(sessions_today(&vec![0, 5, day, day + 5], day + 5), 3);
    assert_eq!(sessions_today(&vec![0, 1], 10), 2);
    assert_eq!(latest_first(&vec![3, 9, 3, 7]), vec![1, 3, 0, 2]);
    let m = SessionModel { id: "m".into(), provider_id: "p".into(), variant: None };
    assert_eq!(session_model_name(&Some(m)).as_deref(), Some("p/m"));
    assert_eq!(session_model_name(&None), None);
}
