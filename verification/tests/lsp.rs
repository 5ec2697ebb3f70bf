use lunarzero::lsp::{
    capabilities, diagnostic_of, key_of, notice_of, path_from_uri, percent_decode, published, pull_params,
    pull_suffices, pulled, report, sync_kind, uri, wait_ms, watched_params, ClientStep, Diagnostic, Documents,
    LspManager, ServerInfo, SyncCapability, Touch, WaitEvent, Waiting,
};

fn issue(severity: u8, line: u32, message: &str) -> Diagnostic {
    Diagnostic { severity, line, character: 4, message: message.into() }
}

#[test]
fn errors_are_reported() {
    assert_eq!(report("/a.rs", &vec![issue(2, 0, "warn")]), None);
    assert_eq!(
        report("/a.rs", &vec![issue(1, 0, "bad"), issue(2, 1, "w"), issue(1, 9, "worse")]).unwrap(),
        "<diagnostics file=\"/a.rs\">\nERROR [1:5] bad\nERROR [10:5] worse\n</diagnostics>"
    );
    let many: Vec<Diagnostic> = (0..23).map(|i| issue(1, i, "e")).collect();
    let r = report("f", &many).unwrap();
    assert!(r.contains("ERROR [20:5] e\n... and 3 more\n</diagnostics>"));
    assert!(!r.contains("ERROR [21:5]"));
}

#[test]
fn uris_are_read_and_written() {
    assert_eq!(uri("/a b"), "file:///a b");
    assert_eq!(path_from_uri("file:///a%20b%C3%A9.rs").as_deref(), Some("/a bé.rs"));
    assert_eq!(path_from_uri("http://x"), None);
    assert_eq!(path_from_uri(&uri("/plain/é.rs")).as_deref(), Some("/plain/é.rs"));
    assert_eq!(percent_decode("100%"), "100%");
    assert_eq!(percent_decode("%4"), "%4");
    assert_eq!(percent_decode("%zz%41"), "%zzA");
    assert_eq!(percent_decode("%+5"), "\u{5}");
    assert_eq!(percent_decode("%ff"), "\u{fffd}");
}

#[test]
fn diagnostics_are_read() {
    let d = diagnostic_of(None, None, None, None);
    assert_eq!((d.severity, d.line, d.character, d.message.as_str()), (1, 0, 0, ""));
    let d = diagnostic_of(Some(257), Some((1 << 32) + 3), Some(7), Some("m".into()));
    assert_eq!((d.severity, d.line, d.character, d.message.as_str()), (1, 3, 7, "m"));
    let (path, v) = published(
        r#"{"uri": "file:///a.rs", "diagnostics": [
            {"severity": 2, "range": {"start": {"line": 3, "character": 5}}, "message": "x"},
            {"severity": 1.5, "message": 7, "range": {"start": {"line": -1}}}
        ]}"#,
    )
    .unwrap();
    assert_eq!((path.as_str(), v.len()), ("/a.rs", 2));
    assert_eq!((v[0].severity, v[0].line, v[0].character, v[0].message.as_str()), (2, 3, 5, "x"));
    assert_eq!((v[1].severity, v[1].line, v[1].character, v[1].message.as_str()), (1, 0, 0, ""));
    assert!(published(r#"{"uri": "file:///a", "diagnostics": {}}"#).unwrap().1.is_empty());
    assert!(published(r#"{"uri": "untitled:1"}"#).is_none());
    assert!(published("not json").is_none());
    assert_eq!(pulled(r#"{"items": [{"message": "a"}]}"#).unwrap()[0].message, "a");
    assert!(pulled(r#"{"kind": "unchanged"}"#).is_none());
    assert!(pull_suffices(&pulled(r#"{"items": [{}]}"#)));
    assert!(!pull_suffices(&pulled(r#"{"items": []}"#)) && !pull_suffices(&None));
}

#[test]
fn capabilities_are_read() {
    assert_eq!(sync_kind(&SyncCapability::Number(Some(2))), 2);
    assert_eq!(sync_kind(&SyncCapability::Number(None)), 1);
    assert_eq!(sync_kind(&SyncCapability::Object(Some(0))), 0);
    assert_eq!(sync_kind(&SyncCapability::Other), 1);
    let read = |s: &str| {
        let c = capabilities(s);
        (c.sync_kind, c.pull)
    };
    assert_eq!(read(r#"{"capabilities": {"textDocumentSync": 2, "diagnosticProvider": {}}}"#), (2, true));
    assert_eq!(read(r#"{"capabilities": {"textDocumentSync": {"change": -3}, "diagnosticProvider": null}}"#), (-3, false));
    assert_eq!(read(r#"{"capabilities": {"textDocumentSync": {"open": true}}}"#), (1, false));
    assert_eq!(read(r#"{"capabilities": {"textDocumentSync": 1.5}}"#), (1, false));
    assert_eq!(read("{}"), (1, false));
}

#[test]
fn documents_are_opened_then_changed() {
    let mut d = Documents::new();
    assert!(matches!(d.touch("/a", "x\ny\n", 2), Touch::Open));
    assert!(matches!(d.touch("/a", "x", 2), Touch::Change { version: 2, until: Some(4) }));
    assert!(matches!(d.touch("/a", "x\n", 1), Touch::Change { version: 3, until: None }));
    assert!(matches!(d.touch("/b", "", 2), Touch::Open));
    let (method, params) = notice_of("/a", "rust", "fn \"x\"", &Touch::Open);
    assert_eq!(method, "textDocument/didOpen");
    let v: serde_json::Value = serde_json::from_str(&params).unwrap();
    let doc = &v["textDocument"];
    assert_eq!((doc["uri"].as_str(), doc["languageId"].as_str()), (Some("file:///a"), Some("rust")));
    assert_eq!((doc["version"].as_i64(), doc["text"].as_str()), (Some(1), Some("fn \"x\"")));
    let (method, params) = notice_of("/a", "rust", "t", &Touch::Change { version: 2, until: Some(4) });
    assert_eq!(method, "textDocument/didChange");
    let v: serde_json::Value = serde_json::from_str(&params).unwrap();
    assert_eq!(v["textDocument"]["version"], 2);
    let c = &v["contentChanges"][0];
    assert_eq!((c["range"]["end"]["line"].as_u64(), c["text"].as_str()), (Some(4), Some("t")));
    let (_, params) = notice_of("/a", "rust", "t", &Touch::Change { version: -2, until: None });
    let v: serde_json::Value = serde_json::from_str(&params).unwrap();
    assert_eq!(v["textDocument"]["version"], -2);
    assert!(v["contentChanges"][0]["range"].is_null());
    let v: serde_json::Value = serde_json::from_str(&watched_params("/a")).unwrap();
    assert_eq!((v["changes"][0]["uri"].as_str(), v["changes"][0]["type"].as_u64()), (Some("file:///a"), Some(2)));
    let v: serde_json::Value = serde_json::from_str(&pull_params("/a")).unwrap();
    assert_eq!(v["textDocument"]["uri"], "file:///a");
}

#[test]
fn waiting_is_debounced() {
    let mut w = Waiting::new();
    assert_eq!(w.timeout(700), 700);
    assert!(w.on(WaitEvent::Update { ours: false }));
    assert_eq!(w.timeout(600), 600);
    assert!(w.on(WaitEvent::Update { ours: true }));
    assert_eq!(w.timeout(500), 150);
    assert!(!w.on(WaitEvent::Over));
    let mut w = Waiting::new();
    assert!(w.on(WaitEvent::Lagged) && w.got);
    let var = |s: &str| Some(s.to_string());
    assert_eq!((wait_ms(&None), wait_ms(&var("20")), wait_ms(&var("+7"))), (5000, 20, 7));
    assert_eq!((wait_ms(&var("")), wait_ms(&var("-1")), wait_ms(&var("99999999999999999999"))), (5000, 5000, 5000));
}

fn server() -> Option<ServerInfo> {
    Some(ServerInfo { id: "ra".into(), name: "rust-analyzer".into(), bin: "rust-analyzer".into() })
}

#[test]
fn servers_run_once_per_root() {
    let root = || Some("/w".to_string());
    let mut m = LspManager::new(true);
    assert!(matches!(m.client_for(&None, &root(), true), ClientStep::Nobody));
    assert!(matches!(m.client_for(&server(), &None, true), ClientStep::Nobody));
    assert!(matches!(m.client_for(&server(), &root(), true), ClientStep::Start));
    m.started(&server().unwrap(), "/w", Ok(9));
    assert!(matches!(m.client_for(&server(), &Some("/w/.".into()), true), ClientStep::Use(9)));
    // a server that failed is not tried again
    m.started(&server().unwrap(), "/v", Err("died".into()));
    assert!(matches!(m.client_for(&server(), &Some("/v".into()), true), ClientStep::Nobody));
    assert!(matches!(m.client_for(&server(), &Some("/u".into()), false), ClientStep::Nobody));
    assert!(matches!(m.client_for(&server(), &Some("/u".into()), true), ClientStep::Nobody));
    let s: Vec<(String, String)> = m.status().into_iter().map(|s| (s.root, s.status)).collect();
    assert_eq!(
        s,
        vec![
            ("/w".to_string(), "connected".to_string()),
            ("/u".to_string(), "error: rust-analyzer not found on PATH".to_string()),
            ("/v".to_string(), "error: died".to_string()),
        ]
    );
    assert_eq!(m.shutdown(), vec![9]);
    assert!(m.shutdown().is_empty());
    assert_eq!(m.status().len(), 2);
    let mut off = LspManager::new(false);
    assert!(matches!(off.client_for(&server(), &root(), true), ClientStep::Nobody));
    assert_eq!(key_of("a", "/x/y"), key_of("a", "/x//y/."));
    assert!(key_of("a", "/x") != key_of("a", "/y"));
}
