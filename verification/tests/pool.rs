use lunarzero::auth::FreeProvider;
use lunarzero::pool::{find_usage, is_connected, list, setup, status, FreeModel, PoolCatalog};
use lunarzero::provider::{Model, PoolInfo, Provider, Registry};
use lunarzero::router::ModelUsage;
use lunarzero::table::Table;

fn info(rpm: Option<u64>, rpd: Option<u64>) -> PoolInfo {
    PoolInfo { quality: 1, speed: 2, rpm, rpd, ..Default::default() }
}

fn free(provider: &str, id: &str, quality: u32) -> FreeModel {
    FreeModel {
        provider: provider.into(),
        id: id.into(),
        name: id.into(),
        quality,
        speed: 40,
        context: 131_072,
        tools: quality > 50,
        info: info(Some(30), None),
    }
}

fn catalog() -> PoolCatalog {
    let mut providers: Table<FreeProvider> = Table::new();
    for id in ["groq", "cerebras"] {
        providers.insert(
            id.into(),
            FreeProvider {
                name: id.to_uppercase(),
                env: vec![format!("{}_KEY", id.to_uppercase()), "ALT".into()],
                signup: format!("https://{id}.example"),
                note: "free".into(),
            },
        );
    }
    PoolCatalog {
        version: "2025-01".into(),
        providers,
        models: vec![free("groq", "llama", 60), free("groq", "qwen", 75), free("cerebras", "gpt", 50)],
    }
}

fn registry(connected: &[&str]) -> Registry {
    let mut providers: Table<Provider> = Table::new();
    for id in ["groq", "cerebras"] {
        let mut models: Table<Model> = Table::new();
        models.insert(
            "llama".into(),
            Model {
                provider_id: id.into(),
                id: "llama".into(),
                name: "llama".into(),
                api_id: "llama".into(),
                npm: "n".into(),
                tool_call: true,
                attachment: false,
                protocol: None,
                context: 1000,
                input: None,
                max_output: 10,
                variants: Vec::new(),
                pool: Some(info(Some(30), Some(1000))),
            },
        );
        providers.insert(
            id.into(),
            Provider {
                id: id.into(),
                name: id.into(),
                source: "env".into(),
                connected: connected.contains(&id),
                models,
            },
        );
    }
    Registry { providers }
}

fn usage(model: &str, cooldown_secs: u64) -> ModelUsage {
    ModelUsage {
        provider: "groq".into(),
        model: model.into(),
        rpm_used: 3,
        rpd_used: 12,
        tpm_used: 400,
        tpd_used: 5000,
        cooldown_secs,
        last_error: "slow down\nplease".into(),
        ttft_ms: 250,
        tps: 0,
    }
}

#[test]
fn setup_lists_providers() {
    let out = setup(&registry(&["groq"]), &catalog());
    assert_eq!(out.len(), 6);
    assert_eq!(
        out[0],
        "Free-tier pool: 3 models across 2 providers (catalog 2025-01).\nAdd a key with `lz auth login <provider>` or export the env var; then use model `lunar/auto`.\n"
    );
    assert_eq!(
        out[1],
        format!("{} {:<22} {:>3} models  best quality {:>3}  {}", "○", "cerebras", 1, 50, "CEREBRAS_KEY | ALT")
    );
    assert_eq!(out[2], "     https://cerebras.example  — free");
    assert_eq!(
        out[3],
        format!("{} {:<22} {:>3} models  best quality {:>3}  {}", "●", "groq", 2, 75, "GROQ_KEY | ALT")
    );
    assert_eq!(
        out[5],
        "\n1/2 providers connected. `lunar/auto` balances quality, speed and quota; `lunar/smart` and `lunar/fast` force one."
    );
    let out = setup(&registry(&[]), &catalog());
    assert_eq!(
        out[6],
        "Tip: Groq, Cerebras, Google AI Studio and OpenRouter keys take a minute each and need no card."
    );
}

#[test]
fn list_shows_connected_models_or_all() {
    let cat = catalog();
    let reg = registry(&["groq"]);
    let out = list(&reg, &cat, &vec![usage("qwen", 9)], false);
    assert_eq!(out.len(), 4);
    assert_eq!(
        out[0],
        format!(
            "{:<4} {:<4}   {:<22} {:<48} {:<5} {:<7} limits rpm/rpd/tpm/tpd",
            "qual", "spd", "provider", "model", "tools", "ctx"
        )
    );
    assert_eq!(
        out[1],
        format!("{:<4} {:<4} {} {:<22} {:<48} {:<5} {:<7} 30/-/-/-", 60, 40, "●", "groq", "llama", "yes", "131k")
    );
    assert!(out[2].ends_with("30/-/-/-  ⏸ 9s"));
    assert_eq!(out[3], "\n(connected providers only; `--all` shows the whole pool)");
    let out = list(&reg, &cat, &Vec::new(), true);
    assert_eq!(out.len(), 4);
    assert!(out[3].starts_with("50   40   ○ cerebras"));
    assert!(out[3].contains("no    131k"));
}

#[test]
fn status_shows_what_is_used() {
    let reg = registry(&["groq"]);
    let out = status(&reg, &vec![usage("llama", 0), usage("other", 61)], "/state/quota.json");
    assert_eq!(
        out[0],
        format!(
            "{:<22} {:<44} {:>7} {:>8} {:>9} {:>9} {:>8} {:>5}  state",
            "provider", "model", "rpm", "rpd", "tpm", "tpd", "ttft", "tok/s"
        )
    );
    assert_eq!(
        out[1],
        format!(
            "{:<22} {:<44} {:>7} {:>8} {:>9} {:>9} {:>8} {:>5}  {}",
            "groq", "llama", "3/30", "12/1000", "400", "5000", "250ms", "-", "ready"
        )
    );
    assert_eq!(
        out[2],
        format!(
            "{:<22} {:<44} {:>7} {:>8} {:>9} {:>9} {:>8} {:>5}  {}",
            "groq", "other", "3", "12", "400", "5000", "250ms", "-", "⏸ 61s  slow down"
        )
    );
    assert_eq!(out[3], "\nledger: /state/quota.json");
    assert_eq!(
        status(&reg, &Vec::new(), "/x"),
        vec!["no pool provider connected — run `lz pool setup`"]
    );
}

#[test]
fn usage_is_found_by_provider_and_model() {
    let rows = vec![usage("a", 1), usage("b", 2), usage("b", 3)];
    assert_eq!(find_usage(&rows, "groq", "b").unwrap().cooldown_secs, 2);
    assert!(find_usage(&rows, "x", "b").is_none());
    assert!(is_connected(&registry(&["groq"]), "groq"));
    assert!(!is_connected(&registry(&["groq"]), "cerebras"));
    assert!(!is_connected(&registry(&["groq"]), "unknown"));
}
