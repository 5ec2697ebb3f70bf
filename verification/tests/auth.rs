use lunarzero::auth::{
    chosen_provider, list_credentials, login_choices, AuthFiles, AuthInfo, AuthStore, CatalogProvider, FreeProvider,
};
use lunarzero::paths::Paths;
use lunarzero::table::Table;

fn api(key: &str) -> AuthInfo {
    AuthInfo::Api { key: key.into(), metadata: None }
}

fn table(entries: &[(&str, &str)]) -> Table<AuthInfo> {
    let mut t: Table<AuthInfo> = Table::new();
    for (p, k) in entries {
        t.insert(p.to_string(), api(k));
    }
    t
}

fn files(own: Table<AuthInfo>) -> AuthFiles {
    AuthFiles { content: None, legacy: Table::new(), own }
}

fn key(a: Option<AuthInfo>) -> Option<String> {
    match a {
        Some(AuthInfo::Api { key, .. }) => Some(key),
        _ => None,
    }
}

#[test]
fn roundtrip() {
    let store = AuthStore::at("/tmp/auth.json".into());
    let own = store.set(Table::new(), "openai", api("sk-1"));
    let mut copy: Table<AuthInfo> = Table::new();
    copy.insert(own.key(0).to_string(), own.value(0).clone());
    assert!(matches!(store.get(files(copy), "openai"), Some(AuthInfo::Api { key, .. }) if key == "sk-1"));
    let own = store.remove(own, "openai");
    assert!(store.get(files(own), "openai").is_none());
}

#[test]
fn own_file_goes_before_the_legacy_one() {
    let p = Paths::detect("/h".into(), None, None, None);
    let store = AuthStore::new(&p);
    assert_eq!(store.path(), "/h/.local/share/lunarzero/auth.json");
    assert_eq!(store.fallback.as_deref(), Some("/h/.local/share/opencode/auth.json"));
    let both = || AuthFiles {
        content: None,
        legacy: table(&[("a", "old"), ("b", "old")]),
        own: table(&[("a", "new"), ("c", "new")]),
    };
    assert_eq!(key(store.get(both(), "a")).as_deref(), Some("new"));
    assert_eq!(key(store.get(both(), "b")).as_deref(), Some("old"));
    assert_eq!(key(store.get(both(), "c")).as_deref(), Some("new"));
    assert!(store.get(both(), "d").is_none());
    assert_eq!(store.all(both()).keys(), vec!["a", "b", "c"]);
    // a store without a fallback does not look at the legacy file
    let alone = AuthStore::at("/x".into());
    assert!(alone.get(both(), "b").is_none());
}

#[test]
fn environment_replaces_both_files() {
    let p = Paths::detect("/h".into(), None, None, None);
    let store = AuthStore::new(&p);
    let f = || AuthFiles {
        content: Some(table(&[("e", "env")])),
        legacy: table(&[("a", "old")]),
        own: table(&[("b", "new")]),
    };
    assert_eq!(store.all(f()).keys(), vec!["e"]);
    assert!(store.get(f(), "b").is_none());
}

#[test]
fn removing_uncovers_the_legacy_login() {
    let p = Paths::detect("/h".into(), None, None, None);
    let store = AuthStore::new(&p);
    let own = store.remove(table(&[("a", "new"), ("z", "kept")]), "a");
    let f = AuthFiles { content: None, legacy: table(&[("a", "old")]), own };
    let all = store.all(f);
    assert_eq!(key(all.get("a").cloned()).as_deref(), Some("old"));
    assert_eq!(key(all.get("z").cloned()).as_deref(), Some("kept"));
}

#[test]
fn credentials_are_listed_in_columns() {
    let mut t = table(&[("openai", "k")]);
    t.insert("a-provider-with-a-long-name".into(), AuthInfo::OAuth { tokens: "{}".into() });
    assert_eq!(
        list_credentials(&t, "/p"),
        vec!["a-provider-with-a-long-name oauth", "openai               api key"]
    );
    assert_eq!(list_credentials(&Table::new(), "/p"), vec!["no stored credentials (/p)"]);
}

#[test]
fn login_offers_what_can_be_used() {
    let mut cat: Table<CatalogProvider> = Table::new();
    for (id, supported) in [("openai", true), ("exotic", false), ("groq", false)] {
        cat.insert(
            id.into(),
            CatalogProvider { id: id.into(), name: id.to_uppercase(), supported, env: Vec::new() },
        );
    }
    let mut free: Table<FreeProvider> = Table::new();
    for id in ["groq", "cerebras"] {
        free.insert(
            id.into(),
            FreeProvider { name: format!("Free {id}"), env: Vec::new(), signup: "s".into(), note: "n".into() },
        );
    }
    let ids = login_choices(&cat, &free);
    assert_eq!(ids, vec!["cerebras (Free cerebras)", "groq (GROQ)", "openai (OPENAI)"]);
    assert_eq!(chosen_provider(&ids[0]), "cerebras");
    assert_eq!(chosen_provider("plain"), "plain");
}
