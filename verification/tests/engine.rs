use lunarzero::engine::{
    add_prompt, admit_prompt, admit_shell, attached, claim_nested, connects_at_start, find_first_snapshot, fork, instruction_dirs,
    loaded_paths, lsp_enabled, mcp_instructions, mcp_timeout, path_info, prompt_args, prompt_err, prompt_reply,
    quota_path, skills_prompt, storage_err, summarized_message, update_session, wants_prompt, ApiError, Command,
    EngineOptions, LspConfig, Nesting, ServerText, SessionPatch, StorageError,
};
use lunarzero::paths::Paths;
use lunarzero::permission::{Action, Rule};
use lunarzero::runner::PromptError;
use lunarzero::session::{
    Message, MessageWithParts, ModelRef, Part, PartKind, SessionInfo, ToolState, UserMessage,
};
use lunarzero::shared::{Claims, SessionRunner};
use lunarzero::table::Table;

fn paths() -> Paths {
    Paths::detect("/h".into(), None, None, None)
}

fn part(kind: PartKind) -> Part {
    Part { id: "p".into(), session_id: "s".into(), message_id: "m".into(), kind }
}

#[test]
fn start_up_choices() {
    assert!(!lsp_enabled(None));
    assert!(!lsp_enabled(Some(LspConfig::Enabled(false))));
    assert!(lsp_enabled(Some(LspConfig::Enabled(true))));
    assert!(lsp_enabled(Some(LspConfig::Servers)));
    assert_eq!((mcp_timeout(None), mcp_timeout(Some(5))), (30_000, 5));
    assert_eq!(quota_path(&paths()), "/h/.local/state/lunarzero/quota.json");
    let opts = |offline| EngineOptions { directory: "/w".into(), auto_approve: false, offline };
    assert!(connects_at_start(&opts(false), Some(1)));
    assert!(!connects_at_start(&opts(false), Some(0)));
    assert!(!connects_at_start(&opts(false), None));
    assert!(!connects_at_start(&opts(true), Some(1)));
    let i = path_info(&paths(), "/w/sub", "/w");
    assert_eq!((i.cwd.as_str(), i.root.as_str(), i.worktree.as_str()), ("/w/sub", "/w", "/w"));
    assert_eq!((i.directory.as_str(), i.config.as_str()), ("/w/sub", "/h/.config/lunarzero"));
    assert_eq!(i.state, "/h/.local/state/lunarzero");
}

#[test]
fn errors_are_answered_by_kind() {
    assert!(matches!(storage_err(StorageError::NotFound("x".into())), ApiError::NotFound { message } if message == "x"));
    assert!(matches!(storage_err(StorageError::Other("y".into())), ApiError::Internal { message } if message == "y"));
    assert!(matches!(prompt_err(PromptError::Busy), ApiError::Busy));
    assert!(matches!(prompt_err(PromptError::AgentNotFound("z".into())),
        ApiError::Invalid { message } if message == "agent not found: z"));
    assert!(matches!(prompt_err(PromptError::NoModel("q".into())),
        ApiError::Invalid { message } if message == "no model available: q"));
    assert!(matches!(prompt_err(PromptError::Storage("io".into())), ApiError::Invalid { message } if message == "io"));
    assert_eq!(PromptError::Busy.message(), "session is busy");
    assert!(matches!(fork(), ApiError::Invalid { message } if message == "fork not implemented yet"));
    assert!(matches!(prompt_reply(&Vec::new()), Err(ApiError::NotFound { message }) if message == "no assistant message"));
    assert!(matches!(summarized_message(&Vec::new()),
        Err(ApiError::Invalid { message }) if message == "session has no messages"));
}

#[test]
fn sessions_run_one_loop() {
    let mut r = SessionRunner::default();
    assert!(!r.is_running("s"));
    assert!(admit_shell(&r, "s").is_ok());
    assert!(r.ensure_running("s".into(), 1));
    assert!(!r.ensure_running("s".into(), 2));
    assert_eq!(r.run_of("s"), Some(1));
    assert!(r.ensure_running("t".into(), 3));
    assert!(matches!(admit_shell(&r, "s"), Err(ApiError::Busy)));
    assert!(matches!(admit_prompt(&r, "s"), Err(PromptError::Busy)));
    assert!(admit_prompt(&r, "u").is_ok());
    r.finish("s");
    assert!(!r.is_running("s") && r.is_running("t"));
    assert_eq!(r.run_of("s"), None);
    assert!(r.ensure_running("s".into(), 4));
    assert_eq!(r.run_of("s"), Some(4));
}

fn session() -> SessionInfo {
    SessionInfo {
        id: "s".into(),
        parent_id: None,
        title: "t".into(),
        agent: None,
        model: None,
        permission: None,
        reverted: false,
        archived: Some(3),
    }
}

#[test]
fn patches_change_what_they_name() {
    let mut s = session();
    update_session(&mut s, SessionPatch { title: None, archived: None, permission: None });
    assert_eq!((s.title.as_str(), s.archived, s.permission.is_none()), ("t", Some(3), true));
    update_session(
        &mut s,
        SessionPatch {
            title: Some("new".into()),
            archived: Some(None),
            permission: Some(vec![Rule::new("bash", "*", Action::Deny)]),
        },
    );
    assert_eq!((s.title.as_str(), s.archived), ("new", None));
    assert_eq!(s.permission.unwrap().len(), 1);
}

fn user(id: &str, parts: Vec<Part>) -> MessageWithParts {
    MessageWithParts {
        info: Message::User(UserMessage {
            id: id.into(),
            session_id: "s".into(),
            created: 1,
            agent: "build".into(),
            model: ModelRef { provider_id: "p".into(), model_id: "m".into(), variant: None },
            format: None,
            system: None,
            tools: None,
        }),
        parts,
    }
}

#[test]
fn diffs_start_at_the_first_snapshot() {
    let msgs = vec![
        user("1", vec![part(PartKind::StepStart { snapshot: None }), part(PartKind::Other)]),
        user("2", vec![part(PartKind::Other), part(PartKind::StepStart { snapshot: Some("a".into()) })]),
        user("3", vec![part(PartKind::StepStart { snapshot: Some("b".into()) })]),
    ];
    assert_eq!(find_first_snapshot(&msgs).as_deref(), Some("a"));
    assert_eq!(find_first_snapshot(&Vec::new()), None);
    assert_eq!(summarized_message(&msgs).unwrap(), 2);
}

#[test]
fn instruction_directories_end_below_the_root() {
    assert_eq!(instruction_dirs("/w/a/b/c.rs", "/w"), vec!["/w/a/b", "/w/a"]);
    assert!(instruction_dirs("/w/c.rs", "/w").is_empty());
    assert!(instruction_dirs("/elsewhere/a/c.rs", "/w").is_empty());
}

#[test]
fn loaded_files_are_those_still_shown() {
    let read = |tool: &str, compacted: bool, loaded: Option<Vec<String>>| {
        part(PartKind::Tool {
            tool: tool.into(),
            state: ToolState::Completed { output: "o".into(), compacted, loaded },
        })
    };
    let list = |s: &str| Some(vec![s.to_string()]);
    let msgs = vec![
        user("1", vec![read("read", false, list("/w/a/AGENTS.md")), read("read", true, list("gone"))]),
        user("2", vec![read("bash", false, list("other")), read("read", false, None), part(PartKind::Other)]),
        user("3", vec![read("read", false, Some(vec!["x".into(), "y".into()]))]),
    ];
    assert_eq!(loaded_paths(&msgs), vec!["/w/a/AGENTS.md", "x", "y"]);
}

#[test]
fn instructions_are_attached_once() {
    let mut c = Claims::new();
    let n = Nesting {
        file: "/w/a/AGENTS.md".into(),
        system: vec!["/w/sys/AGENTS.md".into()],
        already: vec!["/w/b/AGENTS.md".into()],
    };
    let found: Vec<Option<String>> = vec![
        Some("/w/a/AGENTS.md".into()),
        Some("/w/sys/./AGENTS.md".into()),
        Some("/w/b/AGENTS.md".into()),
        None,
        Some("/w/c/AGENTS.md".into()),
        Some("/w/c//AGENTS.md".into()),
    ];
    assert_eq!(claim_nested(&mut c, &n, &found, "m1"), vec!["/w/c/AGENTS.md"]);
    assert!(claim_nested(&mut c, &n, &found, "m1").is_empty());
    assert_eq!(claim_nested(&mut c, &n, &found, "m2").len(), 1);
    c.clear_instruction_claims("m1");
    assert_eq!(claim_nested(&mut c, &n, &found, "m1").len(), 1);
    assert!(claim_nested(&mut c, &n, &found, "m2").is_empty());
    assert_eq!(attached("/p", "do\n").as_deref(), Some("Instructions from: /p\ndo\n"));
    assert_eq!(attached("/p", " \n"), None);
}

#[test]
fn servers_without_usable_tools_stay_silent() {
    let server = |name: &str, text: &str, tools: &[&str]| ServerText {
        name: name.into(),
        text: text.into(),
        tools: tools.iter().map(|t| t.to_string()).collect(),
    };
    let rules = vec![Rule::new("gh_*", "*", Action::Deny), Rule::new("gh_read", "*", Action::Allow)];
    let all = vec![
        server("quiet", "q", &["gh_write"]),
        server("gh", "line\nmore", &["gh_write", "gh_read"]),
        server("plain", "", &[]),
    ];
    assert_eq!(
        mcp_instructions(&all, &rules).as_deref(),
        Some(
            "<mcp_instructions>\n  <server name=\"gh\">\n    line\n    more\n  </server>\n  <server name=\"plain\">\n  </server>\n</mcp_instructions>"
        )
    );
    assert_eq!(mcp_instructions(&vec![server("quiet", "q", &["gh_write"])], &rules), None);
    assert_eq!(mcp_instructions(&Vec::new(), &Vec::new()), None);
}

#[test]
fn skills_are_listed_unless_denied() {
    let head = "Skills provide specialized instructions and workflows for specific tasks.\nUse the skill tool to load a skill when a task matches its description.\n";
    assert_eq!(skills_prompt(&Vec::new(), Some("- a")), Some(format!("{head}- a")));
    assert_eq!(skills_prompt(&Vec::new(), None), None);
    assert_eq!(skills_prompt(&vec![Rule::new("skill", "*", Action::Deny)], Some("- a")), None);
}

#[test]
fn prompts_become_commands() {
    let args = prompt_args(&vec!["b".into(), "a".into(), "b".into()]);
    assert_eq!(args.get("a").map(|s| s.as_str()), Some("$2"));
    assert_eq!(args.get("b").map(|s| s.as_str()), Some("$3"));
    let mut c: Table<Command> = Table::new();
    c.insert(
        "init".into(),
        Command { name: "init".into(), description: None, template: "own".into(), source: "command".into() },
    );
    assert!(!wants_prompt(&c, "init") && wants_prompt(&c, "review"));
    add_prompt(&mut c, "init".into(), None, Some("x".into()));
    add_prompt(&mut c, "review".into(), Some("d".into()), None);
    assert_eq!(c.get("init").unwrap().template, "own");
    let r = c.get("review").unwrap();
    assert_eq!((r.template.as_str(), r.source.as_str(), r.description.as_deref()), ("", "mcp", Some("d")));
}
