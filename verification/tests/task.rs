use lunarzero::intake::PartInput;
use lunarzero::permission::{Action, Rule};
use lunarzero::session::{
    Agent, AgentMode, AssistantMessage, Message, MessageError, MessageWithParts, ModelRef, Part, PartKind, SessionInfo,
    Tokens, ToolState,
};
use lunarzero::task::{child_session_rules, derive_child_permission, describe, render, task_outcome, ChildStep, TaskArgs, TaskTool, ToolError};

fn agent(name: &str, mode: AgentMode, rules: Vec<Rule>) -> Agent {
    Agent {
        name: name.into(),
        description: Some(format!("does {name}")),
        mode,
        model: None,
        variant: None,
        prompt: None,
        hidden: false,
        steps: None,
        permission: rules,
    }
}

fn args() -> TaskArgs {
    TaskArgs {
        description: "look".into(),
        prompt: "p".into(),
        subagent_type: "explore".into(),
        task_id: None,
        background: None,
    }
}

fn pairs(v: &[Rule]) -> Vec<(&str, &str, Action)> {
    v.iter().map(|r| (r.permission.as_str(), r.pattern.as_str(), r.action)).collect()
}

#[test]
fn children_inherit_denials() {
    let parent = vec![
        Rule::new("bash", "*", Action::Allow),
        Rule::new("bash", "rm *", Action::Deny),
        Rule::new("external_directory", "/x", Action::Allow),
        Rule::new("edit", "*", Action::Ask),
    ];
    let plain = agent("explore", AgentMode::Subagent, Vec::new());
    assert_eq!(
        pairs(&derive_child_permission(&parent, &plain)),
        vec![
            ("bash", "rm *", Action::Deny),
            ("external_directory", "/x", Action::Allow),
            ("todowrite", "*", Action::Deny),
            ("task", "*", Action::Deny),
        ]
    );
    let able = agent(
        "explore",
        AgentMode::Subagent,
        vec![Rule::new("task", "*", Action::Allow), Rule::new("todowrite", "*", Action::Allow)],
    );
    assert_eq!(derive_child_permission(&parent, &able).len(), 2);
    let rules = child_session_rules(&None, &able, &Some(vec!["write".into()]));
    assert_eq!(pairs(&rules), vec![("write", "*", Action::Deny)]);
}

#[test]
fn what_a_subagent_does_not_allow_is_denied() {
    let mixed = agent(
        "explore",
        AgentMode::Subagent,
        vec![
            Rule::new("task", "*", Action::Deny),
            Rule::new("todowrite", "*", Action::Deny),
            Rule::new("todowrite", "*", Action::Ask),
        ],
    );
    assert_eq!(pairs(&derive_child_permission(&Vec::new(), &mixed)), vec![("task", "*", Action::Deny)]);
}

#[test]
fn callable_agents_are_described() {
    let agents = vec![
        agent("zeta", AgentMode::Subagent, Vec::new()),
        agent("build", AgentMode::Primary, Vec::new()),
        agent("alpha", AgentMode::All, Vec::new()),
        agent("denied", AgentMode::Subagent, Vec::new()),
    ];
    let caller = agent("build", AgentMode::Primary, vec![Rule::new("task", "denied", Action::Deny)]);
    assert_eq!(
        describe("base", &agents, &caller),
        "base\nAvailable agent types and the tools they have access to:\n- alpha: does alpha\n- zeta: does zeta"
    );
}

#[test]
fn tasks_are_admitted() {
    assert!(TaskTool::accept(&args()).is_ok());
    let mut back = args();
    back.background = Some(true);
    assert!(matches!(TaskTool::accept(&back), Err(ToolError::Invalid(w))
        if w == "Background subagents are not supported yet; run the task in the foreground."));
    assert!(TaskTool::check_depth(0, 1).is_ok());
    assert!(matches!(TaskTool::check_depth(1, 1), Err(ToolError::Invalid(w))
        if w == "Subagent depth limit reached (1). Increase \"subagent_depth\" to allow nested subagents."));
    let agents = vec![agent("explore", AgentMode::Subagent, Vec::new())];
    assert_eq!(TaskTool::choose_subagent(&agents, &args()).ok(), Some(0));
    assert!(matches!(TaskTool::choose_subagent(&Vec::new(), &args()), Err(ToolError::Invalid(w))
        if w == "Unknown agent type: explore is not a valid agent type"));
    assert_eq!(TaskTool::child_title(&args(), &agents[0]), "look (@explore subagent)");
}

fn session(id: &str, parent: Option<&str>) -> SessionInfo {
    SessionInfo {
        id: id.into(),
        parent_id: parent.map(|p| p.into()),
        title: "t".into(),
        agent: None,
        model: None,
        permission: None,
        reverted: false,
        archived: None,
    }
}

#[test]
fn tasks_go_on_or_get_a_new_child() {
    let sub = agent("explore", AgentMode::Subagent, Vec::new());
    let mut parent = session("up", Some("top"));
    parent.permission = Some(vec![Rule::new("bash", "rm *", Action::Deny)]);
    let mut resume = args();
    resume.task_id = Some("old".into());
    let tools = Some(vec!["write".to_string()]);
    match TaskTool::child_step(&resume, Some(session("old", Some("x"))), "up", &parent, &sub, &tools) {
        ChildStep::Resume(s) => assert_eq!((s.id.as_str(), s.parent_id.as_deref()), ("old", Some("x"))),
        ChildStep::Create { .. } => panic!("a named session goes on"),
    }
    // one that is not there is not resumed, nor one that nothing names
    for (a, existing) in [(&resume, None), (&args(), None), (&args(), Some(session("old", None)))] {
        match TaskTool::child_step(a, existing, "up", &parent, &sub, &tools) {
            ChildStep::Create { parent_id, title, agent, rules } => {
                assert_eq!((parent_id.as_str(), title.as_str(), agent.as_str()), ("up", "look (@explore subagent)", "explore"));
                assert_eq!(
                    pairs(&rules),
                    vec![
                        ("bash", "rm *", Action::Deny),
                        ("todowrite", "*", Action::Deny),
                        ("task", "*", Action::Deny),
                        ("write", "*", Action::Deny),
                    ]
                );
            }
            ChildStep::Resume(_) => panic!("there is nothing to resume"),
        }
    }
}

#[test]
fn results_say_where_they_come_from() {
    let mut sub = agent("explore", AgentMode::Subagent, Vec::new());
    let caller = Some(reply(None, Vec::new()).info);
    let meta = TaskTool::metadata("up", "c", &sub, &caller);
    assert_eq!((meta.parent_session_id.as_str(), meta.session_id.as_str()), ("up", "c"));
    // the caller's variant is not named, the subagent's own is
    assert_eq!((meta.model.provider_id.as_str(), meta.model.model_id.as_str(), &meta.model.variant), ("p", "m", &None));
    let done = TaskTool::result(&args(), meta, &Some(reply(None, vec![text("hi")]))).unwrap();
    assert_eq!((done.title.as_str(), done.output), ("look", render("c", "completed", "hi")));
    assert_eq!((done.metadata.session_id.as_str(), done.metadata.model.model_id.as_str()), ("c", "m"));
    sub.model = Some(ModelRef { provider_id: "q".into(), model_id: "n".into(), variant: Some("w".into()) });
    let meta = TaskTool::metadata("up", "c", &sub, &None);
    assert_eq!((meta.model.model_id.as_str(), meta.model.variant.as_deref()), ("n", Some("w")));
    assert!(matches!(TaskTool::result(&args(), meta, &None), Err(ToolError::Other(w))
        if w == "Subagent produced no response (task_id: c)"));
}

#[test]
fn depth_is_counted_upwards() {
    let mut depth = 0;
    assert_eq!(TaskTool::climb(&mut depth, &session("s", Some("up"))).as_deref(), Some("up"));
    assert_eq!(TaskTool::climb(&mut depth, &session("s", None)), None);
    assert_eq!(depth, 1);
}

fn reply(error: Option<MessageError>, kinds: Vec<PartKind>) -> MessageWithParts {
    MessageWithParts {
        info: Message::Assistant(AssistantMessage {
            id: "a".into(),
            session_id: "c".into(),
            created: 1,
            completed: None,
            error,
            parent_id: "u".into(),
            model_id: "m".into(),
            provider_id: "p".into(),
            mode: "explore".into(),
            agent: "explore".into(),
            cwd: "/".into(),
            root: "/".into(),
            summary: None,
            tokens: Tokens { effective_total: 0 },
            structured: None,
            variant: Some("v".into()),
            finish: None,
        }),
        parts: kinds
            .into_iter()
            .map(|kind| Part { id: "p".into(), session_id: "c".into(), message_id: "a".into(), kind })
            .collect(),
    }
}

fn text(t: &str) -> PartKind {
    PartKind::Text { text: t.into(), synthetic: false, ignored: false }
}

#[test]
fn outcomes_are_rendered() {
    assert_eq!(
        render("c", "completed", "hi"),
        "<task id=\"c\" state=\"completed\">\n<task_result>\nhi\n</task_result>\n</task>"
    );
    assert_eq!(
        render("c", "error", "no"),
        "<task id=\"c\" state=\"error\">\n<task_error>\nno\n</task_error>\n</task>"
    );
    let ok = task_outcome("c", &Some(reply(None, vec![text("one"), text("two"), PartKind::Other])));
    assert_eq!(ok.ok(), Some(render("c", "completed", "two")));
    assert!(matches!(task_outcome("c", &None), Err(ToolError::Other(w))
        if w == "Subagent produced no response (task_id: c)"));
    let failed = reply(Some(MessageError::Api { message: "boom".into() }), vec![text("x")]);
    assert!(matches!(task_outcome("c", &Some(failed)), Err(ToolError::Other(w))
        if w == "Subagent failed (task_id: c): boom"));
    let err = |e: &str| PartKind::Tool {
        tool: "bash".into(),
        state: ToolState::Error { error: e.into(), interrupted: false },
    };
    let tool = reply(None, vec![err("first"), err("last"), text("x")]);
    assert!(matches!(task_outcome("c", &Some(tool)), Err(ToolError::Other(w))
        if w == "Subagent failed (task_id: c): last"));
}

#[test]
fn child_models_fall_back_to_the_caller() {
    let mut sub = agent("explore", AgentMode::Subagent, Vec::new());
    let caller = Some(reply(None, Vec::new()).info);
    let m = TaskTool::child_model(&sub, &caller);
    assert_eq!((m.provider_id.as_str(), m.model_id.as_str(), m.variant.as_deref()), ("p", "m", Some("v")));
    assert_eq!(TaskTool::child_model(&sub, &None).model_id, "");
    let (req, part) = TaskTool::child_prompt(&args(), &sub, &caller);
    assert_eq!((req.agent.as_deref(), req.model.unwrap().model_id.as_str(), req.no_reply), (Some("explore"), "m", false));
    assert!(matches!(part, PartInput::Text { id: None, text, synthetic: false, ignored: false } if text == "p"));
    sub.model = Some(ModelRef { provider_id: "q".into(), model_id: "n".into(), variant: Some("w".into()) });
    let m = TaskTool::child_model(&sub, &caller);
    assert_eq!((m.provider_id.as_str(), m.model_id.as_str(), m.variant), ("q", "n", None));
}
