//! `task`: run a subagent in a child session and return its final answer. The
//! tool's decisions, one after the other; its caller loads and stores sessions
//! and runs the child's loop.

use crate::intake::{PartInput, PromptRequest};
use crate::permission::{evaluate, rules, verdict, Action, Rule, RuleView, Ruleset};
use crate::session::{
    agent_at, find_agent, Agent, AgentMode, AssistantMessage, Message, MessageWithParts, ModelRef, Part, PartKind,
    SessionInfo, ToolState,
};
use crate::sort::{keys_of, order, order_of, places};
use crate::text::{copy_opt, decimal, decimal_of, join, joined, opt_text, same, texts};
use vstd::prelude::*;

verus! {

/// Why a tool call failed.
#[derive(Debug)]
pub enum ToolError {
    Invalid(String),
    Aborted,
    Other(String),
}

/// What the `task` tool is called with.
#[derive(Debug)]
pub struct TaskArgs {
    pub description: String,
    pub prompt: String,
    pub subagent_type: String,
    pub task_id: Option<String>,
    pub background: Option<bool>,
}

pub struct TaskTool;

// ───────────────────────────── permissions ─────────────────────────────

/// A rule names the permission and does not deny it.
pub open spec fn lets(r: RuleView, permission: Seq<char>) -> bool {
    r.permission == permission && r.action != Action::Deny
}

/// Some rule of its own lets an agent do it, be it only on asking.
pub open spec fn allows(rs: Seq<RuleView>, permission: Seq<char>) -> bool {
    exists|i: int| 0 <= i < rs.len() && lets(#[trigger] rs[i], permission)
}

/// Rules that a child session takes over: what the parent may not do, and what
/// it says of other directories.
pub open spec fn is_inherited(r: RuleView) -> bool {
    r.permission == "external_directory"@ || r.action == Action::Deny
}

pub open spec fn denied(permission: Seq<char>) -> RuleView {
    RuleView { permission, pattern: "*"@, action: Action::Deny }
}

/// Child-session ruleset: parent session's deny/external_directory rules plus
/// default denies for `todowrite`/`task` unless the subagent allows them.
pub open spec fn child_rules(parent: Seq<RuleView>, own: Seq<RuleView>) -> Seq<RuleView> {
    parent.filter(|r: RuleView| is_inherited(r)) + (if allows(own, "todowrite"@) {
        Seq::empty()
    } else {
        seq![denied("todowrite"@)]
    }) + (if allows(own, "task"@) {
        Seq::empty()
    } else {
        seq![denied("task"@)]
    })
}

fn any_allows(rs: &Ruleset, permission: &str) -> (b: bool)
    ensures
        b == allows(rules(rs@), permission@),
{
    let mut i: usize = 0;
    while i < rs.len()
        invariant
            i <= rs@.len(),
            forall|k: int| 0 <= k < i ==> !lets(#[trigger] rules(rs@)[k], permission@),
        decreases rs@.len() - i,
    {
        if same(rs[i].permission.as_str(), permission) && rs[i].action != Action::Deny {
            assert(lets(rules(rs@)[i as int], permission@));
            return true;
        }
        i += 1;
    }
    false
}

pub fn derive_child_permission(parent_session: &Ruleset, subagent: &Agent) -> (r: Ruleset)
    ensures
        rules(r@) == child_rules(rules(parent_session@), rules(subagent.permission@)),
{
    let ghost parent = rules(parent_session@);
    let ghost pred = |r: RuleView| is_inherited(r);
    let can_task = any_allows(&subagent.permission, "task");
    let can_todo = any_allows(&subagent.permission, "todowrite");
    let mut out: Ruleset = Vec::new();
    let mut i: usize = 0;
    proof {
        reveal(Seq::filter);
        assert(rules(out@) =~= parent.take(0).filter(pred));
    }
    while i < parent_session.len()
        invariant
            i <= parent_session@.len(),
            parent == rules(parent_session@),
            pred == (|r: RuleView| is_inherited(r)),
            rules(out@) == parent.take(i as int).filter(pred),
        decreases parent_session@.len() - i,
    {
        let r = &parent_session[i];
        proof {
            reveal(Seq::filter);
            assert(parent.take(i + 1).drop_last() =~= parent.take(i as int));
            assert(parent.take(i + 1).last() == r@);
        }
        if same(r.permission.as_str(), "external_directory") || r.action == Action::Deny {
            let ghost was = rules(out@);
            out.push(r.clone());
            assert(rules(out@) =~= was.push(r@));
        }
        i += 1;
    }
    assert(parent.take(i as int) =~= parent);
    let ghost inherited = rules(out@);
    if !can_todo {
        out.push(Rule::new("todowrite", "*", Action::Deny));
    }
    if !can_task {
        out.push(Rule::new("task", "*", Action::Deny));
    }
    assert(rules(out@) =~= child_rules(parent, rules(subagent.permission@)));
    out
}

/// The rules of a new child session: those that it takes over and its default
/// denials, and then a denial for each tool that only main agents have.
pub open spec fn new_session_rules(
    parent: Option<Ruleset>,
    subagent: Agent,
    primary_tools: Option<Vec<String>>,
) -> Seq<RuleView> {
    child_rules(
        match parent {
            Some(p) => rules(p@),
            None => Seq::empty(),
        },
        rules(subagent.permission@),
    ) + (match primary_tools {
        Some(t) => Seq::new(t@.len(), |i: int| denied(t@[i]@)),
        None => Seq::empty(),
    })
}

/// The rules of a new child session: those that it takes over, and none of the
/// tools that are kept for primary agents.
pub fn child_session_rules(parent: &Option<Ruleset>, subagent: &Agent, primary_tools: &Option<Vec<String>>) -> (r:
    Ruleset)
    ensures
        rules(r@) == new_session_rules(*parent, *subagent, *primary_tools),
{
    let mut out = match parent {
        Some(p) => derive_child_permission(p, subagent),
        None => {
            let none: Ruleset = Vec::new();
            assert(rules(none@) =~= Seq::empty());
            derive_child_permission(&none, subagent)
        },
    };
    let ghost start = rules(out@);
    if let Some(t) = primary_tools {
        let mut i: usize = 0;
        assert(start + Seq::new(0, |k: int| denied(t@[k]@)) =~= start);
        while i < t.len()
            invariant
                i <= t@.len(),
                rules(out@) == start + Seq::new(i as nat, |k: int| denied(t@[k]@)),
            decreases t@.len() - i,
        {
            let ghost was = rules(out@);
            out.push(Rule::new(t[i].as_str(), "*", Action::Deny));
            assert(rules(out@) =~= was.push(denied(t@[i as int]@)));
            i += 1;
            assert(rules(out@) =~= start + Seq::new(i as nat, |k: int| denied(t@[k]@)));
        }
    } else {
        assert(start + Seq::<RuleView>::empty() =~= start);
    }
    out
}

/// What a subagent does not allow itself, of tasks and todo lists, its session
/// is denied.
pub proof fn child_is_denied_by_default(parent: Seq<RuleView>, own: Seq<RuleView>)
    ensures
        !allows(own, "task"@) ==> child_rules(parent, own).contains(denied("task"@)),
        !allows(own, "todowrite"@) ==> child_rules(parent, own).contains(denied("todowrite"@)),
{
    let n = parent.filter(|r: RuleView| is_inherited(r)).len() as int;
    let c = child_rules(parent, own);
    if !allows(own, "task"@) {
        assert(c[c.len() - 1] == denied("task"@));
    }
    if !allows(own, "todowrite"@) {
        assert(c[n] == denied("todowrite"@));
    }
}

/// Every rule that denies the parent session something is a rule of the child.
pub proof fn child_keeps_denials(parent: Seq<RuleView>, own: Seq<RuleView>, i: int)
    requires
        0 <= i < parent.len(),
        parent[i].action == Action::Deny,
    ensures
        child_rules(parent, own).contains(parent[i]),
{
    let pred = |r: RuleView| is_inherited(r);
    let f = parent.filter(pred);
    assert(pred(parent[i]));
    parent.lemma_filter_contains(pred, i);
    let j = choose|j: int| 0 <= j < f.len() && f[j] == parent[i];
    assert(child_rules(parent, own)[j] == parent[i]);
}

// ───────────────────────────── description ─────────────────────────────

/// Whether `caller` may call `a` as a subagent.
pub open spec fn is_callable(a: Agent, caller: Seq<RuleView>) -> bool {
    a.mode != AgentMode::Primary && verdict(caller, "task"@, a.name@) != Some(Action::Deny)
}

pub open spec fn callable(agents: Seq<Agent>, caller: Seq<RuleView>) -> Seq<Agent> {
    agents.filter(|a: Agent| is_callable(a, caller))
}

pub open spec fn agent_line(a: Agent) -> Seq<char> {
    "- "@ + a.name@ + ": "@ + (match a.description {
        Some(d) => d@,
        None => "This subagent should only be called manually by the user."@,
    })
}

pub open spec fn agent_names(list: Seq<Agent>) -> Seq<Seq<char>> {
    Seq::new(list.len(), |i: int| list[i].name@)
}

/// One line for each agent, in the order of their names.
pub open spec fn agent_lines(list: Seq<Agent>) -> Seq<Seq<char>> {
    let p = order::<String>(agent_names(list));
    Seq::new(p.len(), |i: int| agent_line(list[p[i]]))
}

/// Description with the list of subagents that `agent` may call. `base` is what
/// the tool says of itself.
pub fn describe(base: &str, agents: &Vec<Agent>, agent: &Agent) -> (s: String)
    ensures
        s@ == base@ + "\nAvailable agent types and the tools they have access to:\n"@ + join(
            agent_lines(callable(agents@, rules(agent.permission@))),
            "\n"@,
        ),
{
    let ghost caller = rules(agent.permission@);
    let ghost pred = |a: Agent| is_callable(a, caller);
    let mut names: Vec<String> = Vec::new();
    let mut lines: Vec<String> = Vec::new();
    let mut i: usize = 0;
    let ghost mut list: Seq<Agent> = Seq::empty();
    proof {
        reveal(Seq::filter);
        assert(list =~= agents@.take(0).filter(pred));
        assert(keys_of(names@) =~= agent_names(list));
    }
    while i < agents.len()
        invariant
            i <= agents@.len(),
            caller == rules(agent.permission@),
            pred == (|a: Agent| is_callable(a, caller)),
            list == agents@.take(i as int).filter(pred),
            keys_of(names@) == agent_names(list),
            lines@.len() == list.len(),
            forall|k: int| 0 <= k < lines@.len() ==> (#[trigger] lines@[k])@ == agent_line(list[k]),
        decreases agents@.len() - i,
    {
        let a = &agents[i];
        proof {
            reveal(Seq::filter);
            assert(agents@.take(i + 1).drop_last() =~= agents@.take(i as int));
            assert(agents@.take(i + 1).last() == *a);
        }
        let may = match evaluate("task", a.name.as_str(), &agent.permission) {
            Some(Action::Deny) => false,
            _ => true,
        };
        if a.mode != AgentMode::Primary && may {
            let mut line = "- ".to_owned();
            line.append(a.name.as_str());
            line.append(": ");
            match &a.description {
                Some(d) => line.append(d.as_str()),
                None => line.append("This subagent should only be called manually by the user."),
            }
            let ghost was = keys_of(names@);
            names.push(a.name.clone());
            lines.push(line);
            proof {
                list = list.push(*a);
                assert(keys_of(names@) =~= was.push(a.name@));
                assert(keys_of(names@) =~= agent_names(list));
            }
        }
        i += 1;
    }
    assert(agents@.take(i as int) =~= agents@);
    assert(names@.len() == keys_of(names@).len());
    let p = order_of(&names);
    let ghost o = order::<String>(agent_names(list));
    let mut out: Vec<String> = Vec::new();
    let mut j: usize = 0;
    while j < p.len()
        invariant
            j <= p@.len(),
            p@.len() == lines@.len(),
            lines@.len() == list.len(),
            places(p@) == o,
            o == order::<String>(agent_names(list)),
            forall|k: int| 0 <= k < p@.len() ==> #[trigger] p@[k] < lines@.len(),
            forall|k: int| 0 <= k < lines@.len() ==> (#[trigger] lines@[k])@ == agent_line(list[k]),
            out@.len() == j,
            forall|k: int| 0 <= k < j ==> (#[trigger] out@[k])@ == agent_line(list[o[k]]),
        decreases p@.len() - j,
    {
        assert(o[j as int] == p@[j as int]);
        out.push(lines[p[j]].clone());
        j += 1;
    }
    assert(texts(out@) =~= agent_lines(list));
    let mut s = base.to_owned();
    s.append("\nAvailable agent types and the tools they have access to:\n");
    s.append(joined(&out, "\n").as_str());
    s
}

// ───────────────────────────── running a task ─────────────────────────────

pub open spec fn title_of_child(args: TaskArgs, subagent: Agent) -> Seq<char> {
    args.description@ + " (@"@ + subagent.name@ + " subagent)"@
}

/// The session that a task runs in: one that is there, or a new child.
pub enum ChildStep {
    Resume(SessionInfo),
    Create { parent_id: String, title: String, agent: String, rules: Ruleset },
}

/// What a task says of itself beside its answer: where it was called, where it
/// ran, and on which model.
#[derive(Debug)]
pub struct TaskMetadata {
    pub parent_session_id: String,
    pub session_id: String,
    pub model: ModelRef,
}

/// What a finished task gives back.
#[derive(Debug)]
pub struct TaskResult {
    pub title: String,
    pub output: String,
    pub metadata: TaskMetadata,
}

/// The model that a task names: the subagent's own as it is configured, else
/// that of the reply that called it without a variant, else none.
pub open spec fn is_named_model(r: ModelRef, subagent: Agent, caller: Option<Message>) -> bool {
    match subagent.model {
        Some(m) => r.provider_id@ == m.provider_id@ && r.model_id@ == m.model_id@ && opt_text(
            r.variant,
        ) == opt_text(m.variant),
        None => r.variant is None && match caller {
            Some(Message::Assistant(a)) => r.provider_id@ == a.provider_id@ && r.model_id@
                == a.model_id@,
            _ => r.provider_id@.len() == 0 && r.model_id@.len() == 0,
        },
    }
}

/// The answer of a child whose last reply is `m`.
pub open spec fn answer_of(child_id: Seq<char>, m: MessageWithParts) -> Seq<char> {
    rendered(
        child_id,
        "completed"@,
        match last_text(m.parts@) {
            Some(t) => t,
            None => Seq::empty(),
        },
    )
}

/// The model that a child runs on: the subagent's own without a variant, else
/// that of the reply that called it with its variant, else none.
pub open spec fn is_child_model(r: ModelRef, subagent: Agent, caller: Option<Message>) -> bool {
    match subagent.model {
        Some(m) => r.provider_id@ == m.provider_id@ && r.model_id@ == m.model_id@ && r.variant is None,
        None => match caller {
            Some(Message::Assistant(a)) => r.provider_id@ == a.provider_id@ && r.model_id@
                == a.model_id@ && opt_text(r.variant) == opt_text(a.variant),
            _ => r.provider_id@.len() == 0 && r.model_id@.len() == 0 && r.variant is None,
        },
    }
}

impl TaskTool {
    pub fn id(&self) -> (s: &'static str)
        ensures
            s@ == "task"@,
    {
        "task"
    }

    /// Whether a call can be taken up at all.
    pub fn accept(args: &TaskArgs) -> (r: Result<(), ToolError>)
        ensures
            match r {
                Ok(_) => args.background != Some(true),
                Err(ToolError::Invalid(why)) => args.background == Some(true) && why@
                    == "Background subagents are not supported yet; run the task in the foreground."@,
                Err(_) => false,
            },
    {
        match args.background {
            Some(true) => Err(
                ToolError::Invalid(
                    "Background subagents are not supported yet; run the task in the foreground.".to_owned(),
                ),
            ),
            _ => Ok(()),
        }
    }

    /// Goes up from a session: counts it where it has a parent, and names the
    /// parent, which is to be loaded next.
    pub fn climb(depth: &mut u64, current: &SessionInfo) -> (r: Option<String>)
        requires
            *old(depth) < u64::MAX,
        ensures
            opt_text(r) == opt_text(current.parent_id),
            *final(depth) == (if current.parent_id is Some {
                *old(depth) + 1
            } else {
                *old(depth) as int
            }),
    {
        match &current.parent_id {
            Some(p) => {
                *depth = *depth + 1;
                Some(p.clone())
            },
            None => None,
        }
    }

    /// Refuses a task that would nest too deep.
    pub fn check_depth(depth: u64, limit: u64) -> (r: Result<(), ToolError>)
        ensures
            match r {
                Ok(_) => depth < limit,
                Err(ToolError::Invalid(why)) => depth >= limit && why@
                    == "Subagent depth limit reached ("@ + decimal(limit as nat)
                    + "). Increase \"subagent_depth\" to allow nested subagents."@,
                Err(_) => false,
            },
    {
        if depth < limit {
            return Ok(());
        }
        let mut s = "Subagent depth limit reached (".to_owned();
        s.append(decimal_of(limit).as_str());
        s.append("). Increase \"subagent_depth\" to allow nested subagents.");
        Err(ToolError::Invalid(s))
    }

    /// The agent that the task is for.
    pub fn choose_subagent(agents: &Vec<Agent>, args: &TaskArgs) -> (r: Result<usize, ToolError>)
        ensures
            match r {
                Ok(i) => i < agents@.len() && agent_at(agents@, args.subagent_type@) == Some(
                    i as int,
                ),
                Err(ToolError::Invalid(why)) => agent_at(agents@, args.subagent_type@) is None
                    && why@ == "Unknown agent type: "@ + args.subagent_type@
                    + " is not a valid agent type"@,
                Err(_) => false,
            },
    {
        match find_agent(agents, args.subagent_type.as_str()) {
            Some(i) => Ok(i),
            None => {
                let mut s = "Unknown agent type: ".to_owned();
                s.append(args.subagent_type.as_str());
                s.append(" is not a valid agent type");
                Err(ToolError::Invalid(s))
            },
        }
    }

    /// The title of a new child session.
    pub fn child_title(args: &TaskArgs, subagent: &Agent) -> (s: String)
        ensures
            s@ == title_of_child(*args, *subagent),
    {
        let mut s = args.description.clone();
        s.append(" (@");
        s.append(subagent.name.as_str());
        s.append(" subagent)");
        s
    }

    /// The model that the child runs on: the subagent's own, else that of the
    /// reply that called it, with its variant. `caller` is that reply, where it
    /// could be loaded.
    pub fn child_model(subagent: &Agent, caller: &Option<Message>) -> (r: ModelRef)
        ensures
            is_child_model(r, *subagent, *caller),
    {
        if let Some(m) = &subagent.model {
            return ModelRef {
                provider_id: m.provider_id.clone(),
                model_id: m.model_id.clone(),
                variant: None,
            };
        }
        match caller {
            Some(Message::Assistant(a)) => ModelRef {
                provider_id: a.provider_id.clone(),
                model_id: a.model_id.clone(),
                variant: copy_opt(&a.variant),
            },
            _ => ModelRef {
                provider_id: String::new(),
                model_id: String::new(),
                variant: None,
            },
        }
    }
}

impl TaskTool {
    /// The session that a task runs in. `existing` is the session that `task_id`
    /// names, where there is one: it goes on. Otherwise the calling session gets
    /// a new child.
    pub fn child_step(
        args: &TaskArgs,
        existing: Option<SessionInfo>,
        caller_session: &str,
        parent: &SessionInfo,
        subagent: &Agent,
        primary_tools: &Option<Vec<String>>,
    ) -> (r: ChildStep)
        ensures
            args.task_id is Some && existing is Some ==> r == ChildStep::Resume(existing->0),
            !(args.task_id is Some && existing is Some) ==> (r matches ChildStep::Create {
                parent_id,
                title,
                agent,
                rules: own,
            } && parent_id@ == caller_session@ && title@ == title_of_child(*args, *subagent)
                && agent@ == subagent.name@ && rules(own@) == new_session_rules(
                parent.permission,
                *subagent,
                *primary_tools,
            )),
    {
        if args.task_id.is_some() {
            if let Some(s) = existing {
                return ChildStep::Resume(s);
            }
        }
        ChildStep::Create {
            parent_id: caller_session.to_owned(),
            title: Self::child_title(args, subagent),
            agent: subagent.name.clone(),
            rules: child_session_rules(&parent.permission, subagent, primary_tools),
        }
    }

    /// What the task says of itself, from its start on. `caller` is the reply
    /// that called it, where it could be loaded.
    pub fn metadata(
        caller_session: &str,
        child_id: &str,
        subagent: &Agent,
        caller: &Option<Message>,
    ) -> (r: TaskMetadata)
        ensures
            r.parent_session_id@ == caller_session@,
            r.session_id@ == child_id@,
            is_named_model(r.model, *subagent, *caller),
    {
        let model = match &subagent.model {
            Some(m) => m.clone(),
            None => match caller {
                Some(Message::Assistant(a)) => ModelRef {
                    provider_id: a.provider_id.clone(),
                    model_id: a.model_id.clone(),
                    variant: None,
                },
                _ => ModelRef {
                    provider_id: String::new(),
                    model_id: String::new(),
                    variant: None,
                },
            },
        };
        TaskMetadata {
            parent_session_id: caller_session.to_owned(),
            session_id: child_id.to_owned(),
            model,
        }
    }

    /// What the call of the tool gives back, from the child's last reply: under
    /// the description of the task, the answer and what the task said of itself.
    pub fn result(args: &TaskArgs, metadata: TaskMetadata, reply: &Option<MessageWithParts>) -> (r: Result<
        TaskResult,
        ToolError,
    >)
        ensures
            match (*reply, r) {
                (None, Err(ToolError::Other(why))) => why@
                    == "Subagent produced no response (task_id: "@ + metadata.session_id@ + ")"@,
                (Some(m), Err(ToolError::Other(why))) => child_failure(m) matches Some(e) && why@
                    == failed_task(metadata.session_id@, e),
                (Some(m), Ok(t)) => child_failure(m) is None && t.output@ == answer_of(
                    metadata.session_id@,
                    m,
                ) && t.title@ == args.description@ && t.metadata == metadata,
                _ => false,
            },
    {
        match task_outcome(metadata.session_id.as_str(), reply) {
            Ok(output) => Ok(TaskResult { title: args.description.clone(), output, metadata }),
            Err(e) => Err(e),
        }
    }
}

impl TaskTool {
    /// What the child session is asked: the prompt of the task, as the subagent
    /// and on the model that it is to run on.
    pub fn child_prompt(args: &TaskArgs, subagent: &Agent, caller: &Option<Message>) -> (r: (
        PromptRequest,
        PartInput,
    ))
        ensures
            r.0.message_id is None && r.0.variant is None && r.0.format is None,
            r.0.system is None && r.0.tools is None && !r.0.no_reply,
            r.0.agent matches Some(a) && a@ == subagent.name@,
            r.0.model matches Some(m) && is_child_model(m, *subagent, *caller),
            r.1 matches PartInput::Text { id, text, synthetic, ignored } && id is None && text@
                == args.prompt@ && !synthetic && !ignored,
    {
        let req = PromptRequest {
            message_id: None,
            agent: Some(subagent.name.clone()),
            model: Some(Self::child_model(subagent, caller)),
            variant: None,
            format: None,
            system: None,
            tools: None,
            no_reply: false,
        };
        let part = PartInput::Text {
            id: None,
            text: args.prompt.clone(),
            synthetic: false,
            ignored: false,
        };
        (req, part)
    }
}

pub open spec fn rendered(session_id: Seq<char>, state: Seq<char>, text: Seq<char>) -> Seq<char> {
    let tag = if state == "error"@ {
        "task_error"@
    } else {
        "task_result"@
    };
    "<task id=\""@ + session_id + "\" state=\""@ + state + "\">\n<"@ + tag + ">\n"@ + text + "\n</"@
        + tag + ">\n</task>"@
}

/// A task's result as the calling model sees it.
pub fn render(session_id: &str, state: &str, text: &str) -> (s: String)
    ensures
        s@ == rendered(session_id@, state@, text@),
{
    let tag = if same(state, "error") {
        "task_error"
    } else {
        "task_result"
    };
    let mut s = "<task id=\"".to_owned();
    s.append(session_id);
    s.append("\" state=\"");
    s.append(state);
    s.append("\">\n<");
    s.append(tag);
    s.append(">\n");
    s.append(text);
    s.append("\n</");
    s.append(tag);
    s.append(">\n</task>");
    s
}

/// The error of the last tool call that failed.
pub open spec fn last_tool_error(parts: Seq<Part>) -> Option<Seq<char>>
    decreases parts.len(),
{
    if parts.len() == 0 {
        None
    } else {
        match parts.last().kind {
            PartKind::Tool { state: ToolState::Error { error, .. }, .. } => Some(error@),
            _ => last_tool_error(parts.drop_last()),
        }
    }
}

/// The last text among the parts.
pub open spec fn last_text(parts: Seq<Part>) -> Option<Seq<char>>
    decreases parts.len(),
{
    if parts.len() == 0 {
        None
    } else {
        match parts.last().kind {
            PartKind::Text { text, .. } => Some(text@),
            _ => last_text(parts.drop_last()),
        }
    }
}

fn find_tool_error(parts: &Vec<Part>) -> (r: Option<String>)
    ensures
        opt_text(r) == last_tool_error(parts@),
{
    let mut i: usize = parts.len();
    assert(parts@.take(i as int) =~= parts@);
    while i > 0
        invariant
            i <= parts@.len(),
            last_tool_error(parts@) == last_tool_error(parts@.take(i as int)),
        decreases i,
    {
        assert(parts@.take(i as int).last() == parts@[i - 1]);
        assert(parts@.take(i as int).drop_last() =~= parts@.take(i - 1));
        if let PartKind::Tool { state: ToolState::Error { error, .. }, .. } = &parts[i - 1].kind {
            return Some(error.clone());
        }
        i -= 1;
    }
    None
}

fn find_last_text(parts: &Vec<Part>) -> (r: Option<String>)
    ensures
        opt_text(r) == last_text(parts@),
{
    let mut i: usize = parts.len();
    assert(parts@.take(i as int) =~= parts@);
    while i > 0
        invariant
            i <= parts@.len(),
            last_text(parts@) == last_text(parts@.take(i as int)),
        decreases i,
    {
        assert(parts@.take(i as int).last() == parts@[i - 1]);
        assert(parts@.take(i as int).drop_last() =~= parts@.take(i - 1));
        if let PartKind::Text { text, .. } = &parts[i - 1].kind {
            return Some(text.clone());
        }
        i -= 1;
    }
    None
}

pub open spec fn failed_task(child_id: Seq<char>, why: Seq<char>) -> Seq<char> {
    "Subagent failed (task_id: "@ + child_id + "): "@ + why
}

/// Why a child's last reply is no answer: it ended in an error, or a tool call of
/// it failed.
pub open spec fn child_failure(reply: MessageWithParts) -> Option<Seq<char>> {
    match reply.info {
        Message::Assistant(AssistantMessage { error: Some(e), .. }) => Some(e.text()),
        _ => last_tool_error(reply.parts@),
    }
}

/// What the task comes to, from the child's last reply.
pub fn task_outcome(child_id: &str, reply: &Option<MessageWithParts>) -> (r: Result<String, ToolError>)
    ensures
        match (*reply, r) {
            (None, Err(ToolError::Other(why))) => why@
                == "Subagent produced no response (task_id: "@ + child_id@ + ")"@,
            (Some(m), Err(ToolError::Other(why))) => child_failure(m) matches Some(e) && why@
                == failed_task(child_id@, e),
            (Some(m), Ok(out)) => child_failure(m) is None && out@ == answer_of(child_id@, m),
            _ => false,
        },
{
    let m = match reply {
        Some(m) => m,
        None => {
            let mut s = "Subagent produced no response (task_id: ".to_owned();
            s.append(child_id);
            s.append(")");
            return Err(ToolError::Other(s));
        },
    };
    let mut why: Option<String> = None;
    if let Message::Assistant(a) = &m.info {
        if let Some(e) = &a.error {
            why = Some(e.message().clone());
        }
    }
    if why.is_none() {
        why = find_tool_error(&m.parts);
    }
    if let Some(e) = why {
        let mut s = "Subagent failed (task_id: ".to_owned();
        s.append(child_id);
        s.append("): ");
        s.append(e.as_str());
        return Err(ToolError::Other(s));
    }
    let text = match find_last_text(&m.parts) {
        Some(t) => t,
        None => String::new(),
    };
    Ok(render(child_id, "completed", text.as_str()))
}

} // verus!
