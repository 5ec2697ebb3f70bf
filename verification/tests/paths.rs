use lunarzero::paths::{env_names, env_var, expand_home, resolve_path, theme_dirs, BaseDirs, Paths};

fn some(s: &str) -> Option<String> {
    Some(s.to_string())
}

fn base() -> BaseDirs {
    BaseDirs {
        config: "/h/.config".into(),
        data: "/h/.local/share".into(),
        cache: "/h/.cache".into(),
        state: None,
    }
}

fn paths() -> Paths {
    Paths::detect("/h".into(), Some(base()), None, None)
}

#[test]
fn layout_follows_the_base_directories() {
    let p = paths();
    assert_eq!(p.home, "/h");
    assert_eq!(p.config, "/h/.config/lunarzero");
    assert_eq!(p.data, "/h/.local/share/lunarzero");
    assert_eq!(p.cache, "/h/.cache/lunarzero");
    assert_eq!(p.state, "/h/.local/state/lunarzero");
    assert_eq!(p.legacy_config, "/h/.config/opencode");
    assert_eq!(p.legacy_data, "/h/.local/share/opencode");
    let q = Paths::detect("/h".into(), None, None, None);
    assert_eq!(
        (&q.config, &q.data, &q.cache, &q.state, &q.legacy_config, &q.legacy_data),
        (&p.config, &p.data, &p.cache, &p.state, &p.legacy_config, &p.legacy_data)
    );
}

#[test]
fn environment_overrides_config_directories() {
    let p = Paths::detect("/h".into(), Some(base()), some("/x"), some("/y"));
    assert_eq!((p.config.as_str(), p.legacy_config.as_str()), ("/x", "/y"));
    let p = Paths::detect("/h".into(), Some(base()), some(""), some(""));
    assert_eq!(p.config, "/h/.config/lunarzero");
    assert_eq!(p.legacy_config, "/h/.config/opencode");
    let mut b = base();
    b.state = some("/st");
    assert_eq!(Paths::detect("/h".into(), Some(b), None, None).state, "/st/lunarzero");
}

#[test]
fn variables_have_two_names() {
    assert_eq!(env_names("DB"), ("LZ_DB".to_string(), "OPENCODE_DB".to_string()));
    assert_eq!(env_var(some("a"), some("b")), some("a"));
    assert_eq!(env_var(None, some("b")), some("b"));
    assert_eq!(env_var(some(""), some("b")), None);
    assert_eq!(env_var(None, some("")), None);
    assert_eq!(env_var(None, None), None);
}

#[test]
fn files_have_their_places() {
    let p = paths();
    assert_eq!(p.db(None), "/h/.local/share/lunarzero/lunarzero.db");
    assert_eq!(p.db(some("/tmp/x.db")), "/tmp/x.db");
    assert_eq!(p.auth(), "/h/.local/share/lunarzero/auth.json");
    assert_eq!(p.legacy_auth(), "/h/.local/share/opencode/auth.json");
    assert_eq!(p.mcp_auth(), "/h/.local/share/lunarzero/mcp-auth.json");
    assert_eq!(p.tool_output(), "/h/.local/share/lunarzero/tool-output");
    assert_eq!(p.snapshot(), "/h/.local/share/lunarzero/snapshot");
    assert_eq!(p.plans(), "/h/.local/share/lunarzero/plans");
    assert_eq!(p.log(), "/h/.local/share/lunarzero/log");
    assert_eq!(p.models_cache(), "/h/.cache/lunarzero/models.json");
    assert_eq!(p.kv(), "/h/.local/state/lunarzero/kv.json");
    assert_eq!(
        p.ensure(),
        vec![
            p.config.clone(),
            p.data.clone(),
            p.cache.clone(),
            p.state.clone(),
            p.tool_output(),
            p.log()
        ]
    );
}

#[test]
fn global_config_directories_are_listed_once() {
    let p = paths();
    assert_eq!(p.global_config_dirs(), vec!["/h/.config/opencode", "/h/.config/lunarzero"]);
    let p = Paths::detect("/h".into(), Some(base()), some("/same"), some("/same/."));
    assert_eq!(p.global_config_dirs(), vec!["/same"]);
    assert_eq!(
        theme_dirs(&paths(), &vec!["/w/.lz".to_string()]),
        vec!["/h/.config/opencode/themes", "/h/.config/lunarzero/themes", "/w/.lz/themes"]
    );
}

#[test]
fn home_is_expanded() {
    assert_eq!(expand_home("~/a", "/h"), "/h/a");
    assert_eq!(expand_home("~", "/h"), "/h");
    assert_eq!(expand_home("$HOME/a/b", "/h"), "/h/a/b");
    assert_eq!(expand_home("$HOME", "/h"), "/h");
    assert_eq!(expand_home("~x", "/h"), "~x");
    assert_eq!(expand_home("$HOMEx", "/h"), "$HOMEx");
    assert_eq!(expand_home("/etc", "/h"), "/etc");
}

#[test]
fn relative_paths_start_at_the_project() {
    assert_eq!(resolve_path("src/a.rs", "/h", "/w"), "/w/src/a.rs");
    assert_eq!(resolve_path("/etc/x", "/h", "/w"), "/etc/x");
    assert_eq!(resolve_path("~/x", "/h", "/w"), "/h/x");
}
