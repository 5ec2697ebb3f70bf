use lunarzero::intake::{
    base64_decode, choose_agent, prompt, resolve_file, resolve_model, resolve_part, rules_of_toggles, FileLook,
    FreshIds, PartInput, PartStep, PromptRequest,
};
use lunarzero::permission::Action;
use lunarzero::provider::{Model, Provider, Registry};
use lunarzero::runner::PromptError;
use lunarzero::session::{Agent, AgentMode, ModelRef, Part, PartKind, SessionInfo, SessionModel, UserMessage};
use lunarzero::table::Table;

fn model(provider: &str, id: &str) -> Model {
    Model {
        provider_id: provider.into(),
        id: id.into(),
        name: id.into(),
        api_id: id.into(),
        npm: "n".into(),
        tool_call: true,
        attachment: false,
        protocol: None,
        context: 1000,
        input: None,
        max_output: 10,
        variants: vec!["high".into()],
        pool: None,
    }
}

fn registry() -> Registry {
    let mut providers: Table<Provider> = Table::new();
    for p in ["p", "q", "r"] {
        let mut models: Table<Model> = Table::new();
        models.insert("m".into(), model(p, "m"));
        providers.insert(
            p.into(),
            Provider { id: p.into(), name: p.into(), source: "env".into(), connected: true, models },
        );
    }
    Registry { providers }
}

fn agent(name: &str) -> Agent {
    Agent {
        name: name.into(),
        description: None,
        mode: AgentMode::Primary,
        model: None,
        variant: Some("high".into()),
        prompt: None,
        hidden: false,
        steps: None,
        permission: Vec::new(),
    }
}

fn session() -> SessionInfo {
    SessionInfo {
        id: "s".into(),
        parent_id: None,
        title: "t".into(),
        agent: None,
        model: None,
        permission: None,
        reverted: false,
        archived: None,
    }
}

fn request() -> PromptRequest {
    PromptRequest {
        message_id: None,
        agent: None,
        model: None,
        variant: None,
        format: None,
        system: None,
        tools: None,
        no_reply: false,
    }
}

fn some(s: &str) -> Option<String> {
    Some(s.into())
}

fn named(p: &str) -> ModelRef {
    ModelRef { provider_id: p.into(), model_id: "m".into(), variant: None }
}

#[test]
fn agents_are_chosen_by_request_session_default() {
    let agents = vec![agent("build"), agent("plan")];
    assert_eq!(choose_agent(&agents, 0, &some("plan"), &None).unwrap(), 1);
    assert_eq!(choose_agent(&agents, 0, &None, &some("plan")).unwrap(), 1);
    assert_eq!(choose_agent(&agents, 0, &None, &some("gone")).unwrap(), 0);
    assert_eq!(choose_agent(&agents, 0, &None, &None).unwrap(), 0);
    assert!(matches!(choose_agent(&agents, 0, &some("gone"), &some("plan")),
        Err(PromptError::AgentNotFound(n)) if n == "gone"));
}

#[test]
fn models_are_chosen_by_request_agent_session_default() {
    let reg = registry();
    let mut a = agent("build");
    let mut s = session();
    let default = model("r", "m");
    let pick = |s: &SessionInfo, a: &Agent, r: Option<ModelRef>| {
        resolve_model(&reg, s, a, &r, Some(&default)).map(|m| m.provider_id)
    };
    assert_eq!(pick(&s, &a, None).unwrap(), "r");
    s.model = Some(SessionModel { id: "m".into(), provider_id: "q".into(), variant: None });
    assert_eq!(pick(&s, &a, None).unwrap(), "q");
    a.model = Some(named("p"));
    assert_eq!(pick(&s, &a, None).unwrap(), "p");
    a.model = Some(named("gone"));
    assert_eq!(pick(&s, &a, None).unwrap(), "q");
    assert_eq!(pick(&s, &a, Some(named("r"))).unwrap(), "r");
    assert!(matches!(pick(&s, &a, Some(named("x"))), Err(PromptError::NoModel(w)) if w == "x/m"));
    assert!(matches!(resolve_model(&reg, &session(), &agent("build"), &None, None), Err(PromptError::NoModel(w))
        if w == "no provider is configured. Run `lz auth login` or set an API key env var"));
}

#[test]
fn prompts_are_planned() {
    let reg = registry();
    let agents = vec![agent("build")];
    let default = model("r", "m");
    let mut req = request();
    req.tools = Some(vec![("write".into(), false), ("bash".into(), true)]);
    let p = prompt(&session(), "s", &req, &agents, 0, &reg, Some(&default), "fresh".into(), 9).unwrap();
    assert_eq!((p.info.id.as_str(), p.info.created, p.info.agent.as_str()), ("fresh", 9, "build"));
    assert_eq!(p.info.model.variant.as_deref(), Some("high"));
    let (a, m) = p.remember.unwrap();
    assert_eq!((a.as_str(), m.provider_id.as_str(), m.variant.as_deref()), ("build", "r", Some("high")));
    assert_eq!(p.rules.unwrap().len(), 2);
    assert!(p.run);
    let mut s = session();
    s.agent = some("build");
    s.model = Some(m);
    let mut req = request();
    req.message_id = some("given");
    req.variant = some("odd");
    req.no_reply = true;
    let p = prompt(&s, "s", &req, &agents, 0, &reg, Some(&default), "fresh".into(), 9).unwrap();
    assert_eq!((p.info.id.as_str(), p.info.model.variant.as_deref()), ("given", Some("odd")));
    assert!(p.remember.is_none() && p.rules.is_none() && !p.run);
    req.agent = some("gone");
    assert!(matches!(prompt(&s, "s", &req, &agents, 0, &reg, Some(&default), "f".into(), 9),
        Err(PromptError::AgentNotFound(_))));
}

#[test]
fn toggles_become_rules() {
    let tools = vec![
        ("write".to_string(), true),
        ("patch".to_string(), false),
        ("edit".to_string(), false),
        ("bash".to_string(), false),
    ];
    let r = rules_of_toggles(&tools);
    let seen: Vec<(&str, &str, Action)> =
        r.iter().map(|r| (r.permission.as_str(), r.pattern.as_str(), r.action)).collect();
    assert_eq!(
        seen,
        vec![
            ("edit", "*", Action::Allow),
            ("edit", "*", Action::Deny),
            ("edit", "*", Action::Deny),
            ("bash", "*", Action::Deny)
        ]
    );
}

#[test]
fn base64_is_decoded() {
    assert_eq!(base64_decode("aGVsbG8=").as_deref(), Some("hello"));
    assert_eq!(base64_decode("aGVsbG8").as_deref(), Some("hello"));
    assert_eq!(base64_decode("aGk=ignored!").as_deref(), Some("hi"));
    assert_eq!(base64_decode("").as_deref(), Some(""));
    assert_eq!(base64_decode("a b"), None);
    assert_eq!(base64_decode("é"), None);
    assert_eq!(base64_decode("/w=="), None); // not text
    assert_eq!(base64_decode("YWJjZGVmZ2hpamtsbW5vcA==").as_deref(), Some("abcdefghijklmnop"));
}

fn info() -> UserMessage {
    UserMessage {
        id: "u".into(),
        session_id: "s".into(),
        created: 1,
        format: None,
        agent: "build".into(),
        model: named("p"),
        system: None,
        tools: None,
    }
}

fn ids() -> FreshIds {
    FreshIds { part: "np".into(), call: "nc".into(), content: "nt".into() }
}

fn file(mime: &str, url: &str) -> PartInput {
    PartInput::File { id: some("fid"), mime: mime.into(), filename: some("a \"b\".txt"), url: url.into(), source: None }
}

fn parts(input: PartInput) -> Vec<Part> {
    match resolve_part(&info(), input, ids(), "/h", "/w") {
        PartStep::Parts(p) => p,
        PartStep::Look(_) => panic!("nothing to look at"),
    }
}

fn content(p: &Part) -> &str {
    match &p.kind {
        PartKind::Text { text, synthetic: true, ignored: false } => text,
        _ => panic!("no inserted text"),
    }
}

#[test]
fn plain_parts_are_kept() {
    let p = parts(PartInput::Text { id: None, text: "t".into(), synthetic: false, ignored: true });
    assert_eq!((p.len(), p[0].id.as_str(), p[0].message_id.as_str()), (1, "np", "u"));
    assert!(matches!(&p[0].kind, PartKind::Text { text, synthetic: false, ignored: true } if text == "t"));
    let p = parts(PartInput::Agent { id: some("x"), name: "plan".into(), source: None });
    assert!(p[0].id == "x" && matches!(&p[0].kind, PartKind::Agent { name, .. } if name == "plan"));
    let p = parts(PartInput::Subtask {
        id: None,
        prompt: "p".into(),
        description: "d".into(),
        agent: "a".into(),
        model: None,
        command: None,
    });
    assert!(matches!(&p[0].kind, PartKind::Subtask { .. }));
}

#[test]
fn attached_text_is_inlined() {
    let p = parts(file("text/plain", "data:text/plain;base64,aGk="));
    assert_eq!(p.len(), 3);
    assert_eq!(
        content(&p[0]),
        "Called the Read tool with the following input: {\"filePath\":\"a \\\"b\\\".txt\"}"
    );
    assert_eq!(content(&p[1]), "hi");
    assert!(p[2].id == "fid" && matches!(&p[2].kind, PartKind::File { mime, .. } if mime == "text/plain"));
    assert_eq!(parts(file("image/png", "data:image/png;base64,aGk=")).len(), 1);
    assert_eq!(parts(file("text/plain", "data:nothing")).len(), 1);
    assert_eq!(content(&parts(file("text/plain", "data:,!!"))[1]), "");
    assert_eq!(parts(file("text/plain", "https://x/y")).len(), 1);
}

#[test]
fn files_on_disk_are_looked_at() {
    let step = resolve_part(&info(), file("text/plain", "file:///w/a.txt?start=1"), ids(), "/h", "/w");
    assert!(matches!(step, PartStep::Look(p) if p == "/w/a.txt"));
    let step = resolve_part(&info(), file("text/plain", "file://b.txt"), ids(), "/h", "/w");
    assert!(matches!(step, PartStep::Look(p) if p == "/w/b.txt"));
    let look = |l| resolve_file(&info(), file("x/y", "file:///w/a"), ids(), "/w/a", l);
    let p = look(FileLook::Directory { listing: "l".into() });
    assert_eq!(content(&p[0]), "Called the Read tool with the following input: {\"filePath\":\"/w/a\"}");
    assert_eq!(content(&p[1]), "l");
    assert!(matches!(&p[2].kind, PartKind::File { mime, url, .. }
        if mime == "application/x-directory" && url == "file:///w/a"));
    let p = look(FileLook::Text { text: "t".into() });
    assert!(p.len() == 3 && matches!(&p[2].kind, PartKind::File { mime, .. } if mime == "text/plain"));
    let p = look(FileLook::Binary { mime: "image/png".into(), data_url: "data:x".into() });
    assert!(p.len() == 1 && matches!(&p[0].kind, PartKind::File { mime, url, .. } if mime == "image/png" && url == "data:x"));
    let p = look(FileLook::Failed { error: "no".into() });
    assert_eq!(content(&p[0]), "[Failed to read file /w/a: no]");
}
