use lunarzero::config::Config;
use lunarzero::permission::{Action, Rule, Ruleset};
use lunarzero::provider::{Model, PoolInfo, Provider, Registry, Strategy};
use lunarzero::router::{candidates_for, Need, Router};
use lunarzero::routing::{pool_failure_of, route_model};
use lunarzero::run_loop::{
    bypass_agent_check, filter_mcp, json_schema, new_reply, project_map_chars, settle, step_model, step_request,
    step_rules, step_tools, system_text, Decision, Latest, McpServer, Next, Opening, Phase, Routing, RunLoop, StepOutcome, SystemParts,
    ToolDef,
};
use lunarzero::runner::{is_overflow, need_for};
use lunarzero::session::{
    Agent, AgentMode, AssistantMessage, Message, MessageError, MessageWithParts, ModelRef, OutputFormat, Part,
    PartKind, SessionInfo, Tokens, ToolState, UserMessage,
};
use lunarzero::table::Table;
use lunarzero::title::{clean_title, start_title, title_model, title_source_of, TitleStart};

fn config() -> Config {
    Config {
        compaction_auto: true,
        compaction_reserved: None,
        sticky_minutes: None,
        fallback: None,
        smart_mcp: None,
        smart_mcp_always: None,
        project_map: None,
        project_map_chars: None,
    }
}

fn model(provider: &str, id: &str, pool: bool) -> Model {
    Model {
        provider_id: provider.into(),
        id: id.into(),
        name: id.into(),
        api_id: id.into(),
        npm: "@ai-sdk/openai-compatible".into(),
        tool_call: true,
        attachment: false,
        protocol: Some("openai-chat".into()),
        context: 100_000,
        input: None,
        max_output: 8_000,
        variants: vec!["high".into()],
        pool: if pool { Some(PoolInfo::default()) } else { None },
    }
}

fn registry(models: Vec<Model>) -> Registry {
    let mut providers: Table<Provider> = Table::new();
    for m in models {
        let mut own: Table<Model> = Table::new();
        if let Some(p) = providers.remove(&m.provider_id) {
            own = p.models;
        }
        let id = m.provider_id.clone();
        own.insert(m.id.clone(), m);
        providers.insert(
            id.clone(),
            Provider { id: id.clone(), name: id, source: "env".into(), connected: true, models: own },
        );
    }
    Registry { providers }
}

fn agent(name: &str) -> Agent {
    Agent {
        name: name.into(),
        description: None,
        mode: AgentMode::All,
        model: None,
        variant: None,
        prompt: None,
        hidden: name.starts_with('_'),
        steps: Some(3),
        permission: vec![Rule::new("bash", "*", Action::Ask)],
    }
}

fn part(kind: PartKind) -> Part {
    Part { id: "p".into(), session_id: "s".into(), message_id: "m".into(), kind }
}

fn text(t: &str, synthetic: bool) -> Part {
    part(PartKind::Text { text: t.into(), synthetic, ignored: false })
}

fn tool(name: &str, state: ToolState) -> Part {
    part(PartKind::Tool { tool: name.into(), state })
}

fn prompt() -> UserMessage {
    UserMessage {
        id: "u1".into(),
        session_id: "s".into(),
        created: 1,
        format: None,
        agent: "build".into(),
        model: ModelRef { provider_id: "p".into(), model_id: "m".into(), variant: Some("high".into()) },
        system: None,
        tools: None,
    }
}

fn reply(id: &str, parent: &str, finish: Option<&str>) -> AssistantMessage {
    AssistantMessage {
        id: id.into(),
        session_id: "s".into(),
        created: 2,
        completed: None,
        error: None,
        parent_id: parent.into(),
        model_id: "m".into(),
        provider_id: "p".into(),
        mode: "build".into(),
        agent: "build".into(),
        cwd: "/w".into(),
        root: "/w".into(),
        summary: None,
        tokens: Tokens { effective_total: 0 },
        structured: None,
        variant: None,
        finish: finish.map(|f| f.into()),
    }
}

fn user_msg(parts: Vec<Part>) -> MessageWithParts {
    MessageWithParts { info: Message::User(prompt()), parts }
}

fn latest(a: Option<AssistantMessage>) -> Latest {
    Latest { user: Some(prompt()), assistant: a, finished: None, tasks: Vec::new() }
}

fn session(title: &str) -> SessionInfo {
    SessionInfo {
        id: "s".into(),
        parent_id: None,
        title: title.into(),
        agent: None,
        model: None,
        permission: Some(vec![Rule::new("bash", "rm *", Action::Deny)]),
        reverted: false,
        archived: None,
    }
}

fn at(step: u32, phase: Phase) -> RunLoop {
    RunLoop { step, phase }
}

#[test]
fn loop_ends_when_the_reply_is_done() {
    let none = Vec::new();
    let mut l = RunLoop::new();
    assert_eq!(l, at(0, Phase::History));
    assert!(matches!(l.open(true, &none, &latest(None)), Opening::Stop));
    assert_eq!(l, at(0, Phase::Over));
    let empty = Latest { user: None, assistant: None, finished: None, tasks: Vec::new() };
    let mut l = RunLoop::new();
    assert!(matches!(l.open(false, &none, &empty), Opening::Fail(why) if why == "no user message in session"));
    assert_eq!(l.phase, Phase::Over);
    let mut l = RunLoop::new();
    assert!(matches!(l.open(false, &none, &latest(None)), Opening::Step { title: true }));
    assert_eq!(l, at(1, Phase::Route));
    let mut l = at(1, Phase::History);
    assert!(matches!(l.open(false, &none, &latest(None)), Opening::Step { title: false }));
    assert_eq!(l, at(2, Phase::Route));
    let open = |finish: Option<&str>, parent: &str| {
        let mut l = RunLoop::new();
        let done = latest(Some(reply("a1", parent, finish)));
        matches!(l.open(false, &Vec::new(), &done), Opening::Stop)
    };
    assert!(open(Some("stop"), "u1"));
    assert!(!open(Some("stop"), "u0"));
    assert!(!open(Some("tool-calls"), "u1"));
    assert!(!open(Some("unknown"), "u1"));
    assert!(!open(None, "u1"));
}

#[test]
fn tool_calls_keep_the_loop_going() {
    let history = |state: ToolState| {
        vec![MessageWithParts { info: Message::Assistant(reply("a1", "u1", Some("stop"))), parts: vec![tool("bash", state)] }]
    };
    let l = latest(Some(reply("a1", "u1", Some("stop"))));
    let cut = ToolState::Error { error: "e".into(), interrupted: true };
    let failed = ToolState::Error { error: "e".into(), interrupted: false };
    assert!(matches!(RunLoop::new().open(false, &history(cut), &l), Opening::Stop));
    assert!(matches!(RunLoop::new().open(false, &history(failed), &l), Opening::Step { .. }));
    assert!(matches!(RunLoop::new().open(false, &history(ToolState::Running), &l), Opening::Step { .. }));
}

#[test]
fn tasks_come_before_compaction_before_replies() {
    let c = config();
    let agents = vec![agent("plan"), agent("_title"), agent("build")];
    let m = model("p", "m", false);
    let user = prompt();
    let decide = |step: u32, now: &Latest, user: &UserMessage| {
        let mut l = at(step, Phase::Decide);
        let d = l.decide(&c, &agents, now, user, &m);
        assert_eq!(l.step, step);
        (d, l.phase)
    };
    let mut now = latest(None);
    assert!(matches!(decide(3, &now, &user), (Decision::Reply { agent: 2, last_step: true }, Phase::Reply)));
    assert!(matches!(decide(2, &now, &user), (Decision::Reply { agent: 2, last_step: false }, Phase::Reply)));
    let mut full = reply("a0", "u0", Some("stop"));
    full.tokens = Tokens { effective_total: 95_000 };
    now.finished = Some(full);
    assert!(matches!(decide(3, &now, &user), (Decision::CreateCompaction, Phase::History)));
    let mut summary = reply("a0", "u0", Some("stop"));
    summary.tokens = Tokens { effective_total: 95_000 };
    summary.summary = Some(true);
    now.finished = Some(summary);
    assert!(matches!(decide(3, &now, &user), (Decision::Reply { .. }, _)));
    now.tasks = vec![part(PartKind::Compaction { auto: true, overflow: None })];
    assert!(matches!(decide(3, &now, &user),
        (Decision::Compact { task: 0, auto: true, overflow: false }, Phase::Compaction)));
    now.tasks.push(part(PartKind::Subtask {
        prompt: "x".into(),
        description: "d".into(),
        agent: "plan".into(),
        model: None,
        command: None,
    }));
    assert!(matches!(decide(3, &now, &user), (Decision::Subtask { task: 1 }, Phase::History)));
    let mut lost = prompt();
    lost.agent = "gone".into();
    assert!(matches!(decide(3, &latest(None), &lost),
        (Decision::Fail(why), Phase::Over) if why == "Agent not found: \"gone\". Available agents: plan, build"));
}

#[test]
fn steps_go_through_their_phases() {
    let reg = registry(vec![model("p", "m", false)]);
    let mut r = Router::new(None);
    let none = Vec::new();
    let routed = route_model(&mut r, &reg, &config(), &model("p", "m", false), None, Need::default(), "s", 5, &none);
    let mut l = at(1, Phase::Route);
    assert!(matches!(l.routed(routed), Routing::Model(m) if m.model.id == "m"));
    assert_eq!(l, at(1, Phase::Decide));
    let mut l = at(1, Phase::Route);
    assert!(matches!(l.routed(Err("no pool".into())), Routing::Stop(MessageError::Unknown { message }) if message == "no pool"));
    assert_eq!(l.phase, Phase::Over);
    let mut l = at(1, Phase::Compaction);
    l.compacted(false);
    assert_eq!(l.phase, Phase::History);
    let mut l = at(1, Phase::Compaction);
    l.compacted(true);
    assert_eq!(l.phase, Phase::Over);
    for (outcome, phase) in [
        (StepOutcome::Stop, Phase::Over),
        (StepOutcome::Continue, Phase::History),
        (StepOutcome::Compact, Phase::History),
    ] {
        let mut l = at(4, Phase::Reply);
        l.replied(reply("a", "u1", Some("stop")), None, outcome, false);
        assert_eq!(l, at(4, phase));
    }
}

#[test]
fn overflow_leaves_room_for_the_reply() {
    let mut c = config();
    let mut m = model("p", "m", false);
    let t = |n| Tokens { effective_total: n };
    // context minus the larger of the reply and the reserve
    assert!(!is_overflow(&c, &t(91_999), &m) && is_overflow(&c, &t(92_000), &m));
    m.max_output = 50_000;
    assert!(!is_overflow(&c, &t(49_999), &m) && is_overflow(&c, &t(50_000), &m));
    c.compaction_reserved = Some(60_000);
    assert!(is_overflow(&c, &t(40_000), &m) && !is_overflow(&c, &t(39_999), &m));
    // an input window of its own
    m.input = Some(70_000);
    assert!(is_overflow(&c, &t(10_000), &m) && !is_overflow(&c, &t(9_999), &m));
    m.input = Some(0);
    assert!(is_overflow(&c, &t(40_000), &m));
    // no room at all, or switched off
    c.compaction_reserved = Some(100_000);
    assert!(!is_overflow(&c, &t(u64::MAX), &m));
    c.compaction_reserved = None;
    c.compaction_auto = false;
    assert!(!is_overflow(&c, &t(u64::MAX), &m));
}

#[test]
fn needs_are_read_off_the_history() {
    let image = part(PartKind::File { mime: "image/png".into(), filename: None, url: "u".into(), source: None });
    let msgs = vec![
        user_msg(vec![text("old", false)]),
        MessageWithParts {
            info: Message::Assistant(reply("a", "u1", None)),
            parts: vec![
                part(PartKind::Reasoning { text: "abcd".into() }),
                tool("t", ToolState::Completed { output: "12345678".into(), compacted: false, loaded: None }),
                tool("t", ToolState::Pending),
                image,
            ],
        },
        user_msg(vec![text("héllo", false), text("hidden", true), text("more", false)]),
    ];
    let n = need_for(&msgs);
    assert!(n.tools && n.vision);
    assert_eq!(n.tokens, (3 + 4 + 208 + 200 + 50 + 6 + 6 + 4) / 4);
    assert_eq!(n.user_text, "héllo\nmore");
    assert!(!need_for(&Vec::new()).vision);
}

#[test]
fn step_models_must_exist() {
    let reg = registry(vec![model("p", "m", false)]);
    let r = |p: &str, m: &str| ModelRef { provider_id: p.into(), model_id: m.into(), variant: None };
    assert_eq!(step_model(&reg, &r("p", "m")).unwrap().id, "m");
    assert_eq!(step_model(&reg, &r("p", "x")).unwrap_err(), "model not found: p/x");
}

#[test]
fn replies_are_stored_before_the_call() {
    let r = new_reply("id".into(), "s", 7, &prompt(), &agent("build"), &model("q", "n", false), "/w", "/r");
    assert_eq!((r.id.as_str(), r.parent_id.as_str(), r.created), ("id", "u1", 7));
    assert_eq!((r.provider_id.as_str(), r.model_id.as_str(), r.variant.as_deref()), ("q", "n", Some("high")));
    assert_eq!((r.cwd.as_str(), r.root.as_str(), r.mode.as_str()), ("/w", "/r", "build"));
    assert!(r.finish.is_none() && r.error.is_none() && r.completed.is_none());
}

#[test]
fn session_rules_go_behind_the_agents() {
    let rules: Ruleset = step_rules(&agent("build"), &session("t"));
    assert_eq!(rules.iter().map(|r| r.pattern.as_str()).collect::<Vec<_>>(), vec!["*", "rm *"]);
    assert!(!bypass_agent_check(&vec![user_msg(vec![text("x", false)])]));
    let named = part(PartKind::Agent { name: "plan".into(), source: None });
    assert!(bypass_agent_check(&vec![user_msg(vec![named])]));
}

fn server(name: &str, tools: &[&str], related: bool) -> McpServer {
    McpServer { name: name.into(), tools: tools.iter().map(|t| t.to_string()).collect(), related }
}

#[test]
fn mcp_tools_are_sent_where_they_matter() {
    let mut c = config();
    let index = vec![
        server("GitHub", &["gh_issues", "gh_prs"], false),
        server("weather", &["forecast"], false),
        server("files", &["ls"], true),
        server("db", &["query"], false),
    ];
    let called = vec![user_msg(vec![tool("query", ToolState::Pending)])];
    let f = filter_mcp(&c, &index, &Vec::new(), "check github please", &called);
    assert_eq!(f.dropped, vec!["forecast"]);
    assert_eq!(
        f.note.as_deref(),
        Some("MCP servers not loaded for this request (name one to use it): weather (1 tools)")
    );
    c.smart_mcp_always = Some(vec!["weather".into()]);
    let f = filter_mcp(&c, &index, &vec!["github".into()], "", &called);
    assert!(f.dropped.is_empty() && f.note.is_none());
    c.smart_mcp = Some(false);
    assert!(filter_mcp(&c, &index, &Vec::new(), "", &Vec::new()).dropped.is_empty());
    let def = |n: &str| ToolDef { name: n.into(), description: "d".into(), input_schema: "{}".into() };
    let kept = step_tools(vec![def("a"), def("forecast"), def("b")], &vec!["forecast".into()], Some("{\"x\":1}".into()));
    assert_eq!(kept.iter().map(|t| t.name.as_str()).collect::<Vec<_>>(), vec!["a", "b", "StructuredOutput"]);
    assert_eq!(kept[2].input_schema, "{\"x\":1}");
    assert_eq!(step_tools(vec![def("a")], &Vec::new(), None).len(), 1);
}

fn parts() -> SystemParts {
    SystemParts {
        environment: "env".into(),
        project_map: Some("map".into()),
        instructions: vec!["i1".into(), "i2".into()],
        mcp_instructions: None,
        mcp_note: Some("note".into()),
        skills: None,
        extra: Some("extra".into()),
        structured: None,
    }
}

#[test]
fn system_prompt_is_joined_in_order() {
    assert_eq!(system_text(&parts()), "env\n\nmap\n\ni1\n\ni2\n\nnote\n\nextra");
    let mut c = config();
    assert_eq!(project_map_chars(&c), Some(1500));
    c.project_map_chars = Some(9);
    assert_eq!(project_map_chars(&c), Some(9));
    c.project_map = Some(false);
    assert_eq!(project_map_chars(&c), None);
    let mut u = prompt();
    let r = step_request(&u, &agent("build"), &model("p", "m", false), true, "base".into(), &parts());
    assert_eq!(r.system[0], "base");
    assert_eq!(r.system[1], system_text(&parts()));
    assert!(r.closing && !r.tool_required && !r.media_in_tool_results);
    assert_eq!(r.variant.as_deref(), Some("high"));
    u.format = Some(OutputFormat::JsonSchema { schema: "{}".into() });
    assert_eq!(json_schema(&u).as_deref(), Some("{}"));
    let mut a = agent("build");
    a.prompt = Some("own".into());
    let mut m = model("p", "m", false);
    m.npm = "@ai-sdk/openai".into();
    let r = step_request(&u, &a, &m, false, "base".into(), &parts());
    assert_eq!(r.system[0], "own");
    assert!(!r.closing && r.tool_required && r.media_in_tool_results);
    u.format = Some(OutputFormat::Text);
    assert_eq!(json_schema(&u), None);
}

#[test]
fn steps_are_settled() {
    let done = |finish: Option<&str>| reply("a", "u1", finish);
    let s = settle(done(None), Some("{}".into()), StepOutcome::Continue, true);
    assert_eq!((s.message.finish.as_deref(), s.message.structured.as_deref()), (Some("stop"), Some("{}")));
    assert!(s.store && !s.publish && s.next == Next::Stop);
    let s = settle(done(Some("content-filter")), None, StepOutcome::Continue, true);
    assert!(matches!(s.message.error, Some(MessageError::ContentFilter { .. })));
    assert!(s.store && s.publish && s.next == Next::Stop);
    let s = settle(done(Some("stop")), None, StepOutcome::Continue, true);
    assert!(matches!(s.message.error, Some(MessageError::StructuredOutput { retries: 0, .. })));
    assert!(s.store && !s.publish && s.next == Next::Stop);
    let s = settle(done(Some("tool-calls")), None, StepOutcome::Continue, true);
    assert!(!s.store && s.message.error.is_none() && s.next == Next::Continue);
    let s = settle(done(Some("stop")), None, StepOutcome::Stop, false);
    assert!(!s.store && s.next == Next::Stop);
    let s = settle(done(None), None, StepOutcome::Compact, false);
    assert!(s.next == Next::CreateCompaction { overflow: true });
    let s = settle(done(Some("length")), None, StepOutcome::Compact, false);
    assert!(s.next == Next::CreateCompaction { overflow: false });
}

#[test]
fn concrete_models_are_kept() {
    let reg = registry(vec![model("p", "m", true)]);
    let mut r = Router::new(None);
    let mut c = config();
    let none = Vec::new();
    let out = route_model(&mut r, &reg, &c, &model("p", "m", false), None, Need::default(), "s", 5, &none).unwrap();
    assert!(out.route.is_none() && out.announced.is_none());
    let out = route_model(&mut r, &reg, &c, &model("p", "m", true), None, Need::default(), "s", 5, &none).unwrap();
    let route = out.route.unwrap();
    assert_eq!((route.strategy, route.sticky_minutes), (Strategy::Auto, 0));
    c.fallback = Some(false);
    let out = route_model(&mut r, &reg, &c, &model("p", "m", true), None, Need::default(), "s", 5, &none).unwrap();
    assert!(out.route.is_none());
}

#[test]
fn virtual_models_are_routed_to_the_pool() {
    let reg = registry(vec![model("p", "m", true), model("q", "n", true)]);
    let mut r = Router::new(None);
    let c = config();
    let n = candidates_for(&reg, &Need::default(), &Vec::new()).len();
    assert_eq!(n, 2);
    let scores = vec![1, 2];
    let lunar = model("lunar", "smart", false);
    let out =
        route_model(&mut r, &reg, &c, &lunar, Some(Strategy::Smart), Need::default(), "s", 5, &scores).unwrap();
    assert_eq!((out.model.id.as_str(), out.announced.as_deref()), ("n", Some("routed:smart")));
    assert_eq!(out.route.unwrap().sticky_minutes, 30);
    // the session stays there although the other scores higher now
    let again =
        route_model(&mut r, &reg, &c, &lunar, Some(Strategy::Smart), Need::default(), "s", 6, &vec![2, 1]).unwrap();
    assert_eq!((again.model.id.as_str(), again.announced.as_deref()), ("n", Some("routed:sticky")));
    let bare = registry(vec![model("p", "m", false)]);
    let why = route_model(&mut r, &bare, &c, &lunar, Some(Strategy::Fast), Need::default(), "s", 5, &Vec::new());
    assert_eq!(
        why.err().unwrap(),
        "no pool provider is connected — add a key with `lz auth login <provider>` (see `lz pool setup`)"
    );
    assert_eq!(
        pool_failure_of(&reg),
        "every pool model is rate limited or cooling down (p, q). Check `lz pool status`"
    );
}

#[test]
fn titles_are_made_once() {
    let reg = registry(vec![model("p", "m", false)]);
    let named = prompt().model;
    let agents = vec![agent("build"), agent("title")];
    assert!(matches!(start_title(&session("New session - now"), &agents, &reg, &named),
        TitleStart::Go { agent: 1, base } if base.id == "m"));
    assert!(matches!(start_title(&session("Mine"), &agents, &reg, &named), TitleStart::Skip));
    let mut child = session("New session");
    child.parent_id = Some("root".into());
    assert!(matches!(start_title(&child, &agents, &reg, &named), TitleStart::Skip));
    assert!(matches!(start_title(&session("New session"), &vec![agent("build")], &reg, &named), TitleStart::Skip));
    let lost = ModelRef { provider_id: "x".into(), model_id: "y".into(), variant: None };
    assert!(matches!(start_title(&session("New session"), &agents, &reg, &lost),
        TitleStart::Fail(why) if why == "model not found"));
}

#[test]
fn title_models_come_from_the_pool_where_virtual() {
    let reg = registry(vec![model("p", "m", true), model("q", "n", true)]);
    let mut r = Router::new(None);
    let small = model("z", "small", false);
    assert_eq!(title_model(&mut r, &reg, small.clone(), false, 5, &Vec::new()).unwrap().id, "small");
    assert_eq!(title_model(&mut r, &reg, small.clone(), true, 5, &vec![1, 2]).unwrap().id, "n");
    let bare = registry(Vec::new());
    assert_eq!(
        title_model(&mut r, &bare, small, true, 5, &Vec::new()).unwrap_err(),
        "no free model available for title"
    );
}

#[test]
fn titles_are_cleaned() {
    assert_eq!(clean_title(" Title: \"Fix the build\"\nmore").as_deref(), Some("Fix the build\""));
    assert_eq!(clean_title("\"Fix\"").as_deref(), Some("Fix"));
    assert_eq!(clean_title("Title:Title: x ").as_deref(), Some("x"));
    assert_eq!(clean_title("  \n "), None);
    assert_eq!(clean_title(&"é".repeat(150)).unwrap().chars().count(), 100);
    let msgs = vec![user_msg(vec![text("one", false), text("x", true)]), user_msg(vec![text("two", false)])];
    assert_eq!(title_source_of(&msgs).as_deref(), Some("one\ntwo"));
    assert_eq!(title_source_of(&vec![user_msg(vec![text(" ", false)])]), None);
    assert_eq!(title_source_of(&vec![user_msg(vec![text(&"a".repeat(5000), false)])]).unwrap().len(), 4000);
}
