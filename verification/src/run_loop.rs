//! The outer multi-step loop of a session, decision by decision. What it waits
//! for (storage, the model, subtasks, compaction) is done by its caller, which
//! hands the outcome back.

use crate::config::Config;
use crate::permission::{merged, rules, Ruleset};
use crate::provider::{Model, ModelView, Registry};
use crate::routing::Routed;
use crate::runner::{came_to_end, is_done, is_finished, is_overflow, overflows, reply_is_done};
use crate::session::{
    agent_at, find_agent, find_last_user, last_user, Agent, AssistantMessage, MessageError, MessageWithParts,
    ModelRef, OutputFormat, Part, PartKind, SessionInfo, Tokens, UserMessage,
};
use crate::text::{
    contains, copy_opt, decimal, decimal_of, has_part, has_text, join, joined, lowercase, opt_text, same, texts,
};
use vstd::prelude::*;

verus! {

/// What a history comes to: the last prompt, the last reply, the last reply that
/// came to an end, and the tasks that wait.
pub struct Latest {
    pub user: Option<UserMessage>,
    pub assistant: Option<AssistantMessage>,
    pub finished: Option<AssistantMessage>,
    pub tasks: Vec<Part>,
}

/// What the loop waits for.
#[derive(Debug, Clone, Copy, PartialEq, Eq, Structural)]
pub enum Phase {
    /// the history of the session
    History,
    /// the model of the step
    Route,
    /// nothing: the step is to be decided
    Decide,
    /// the outcome of a compaction
    Compaction,
    /// the reply of the model
    Reply,
    /// nothing any more
    Over,
}

/// The state of the loop: how many steps it has taken, and what it waits for.
#[derive(Debug, Clone, Copy, PartialEq, Eq, Structural)]
pub struct RunLoop {
    pub step: u32,
    pub phase: Phase,
}

/// How a pass starts.
pub enum Opening {
    /// the loop fails, with this message
    Fail(String),
    /// the loop is over
    Stop,
    /// the step is on; `title` asks for a title on the side
    Step { title: bool },
}

/// How a step goes on, once its model is settled.
pub enum Decision {
    /// hand the task at this place to a subagent, then go on
    Subtask { task: usize },
    /// carry out the compaction at this place; go on unless it says to stop
    Compact { task: usize, auto: bool, overflow: bool },
    /// the context is full: ask for a compaction, then go on
    CreateCompaction,
    /// the loop fails, and those who watch are told why
    Fail(String),
    /// let the agent at this place reply
    Reply { agent: usize, last_step: bool },
}

impl RunLoop {
    pub fn new() -> (r: Self)
        ensures
            r.step == 0,
            r.phase == Phase::History,
    {
        RunLoop { step: 0, phase: Phase::History }
    }

    /// Start a pass. A cancelled loop is over; so is one whose last reply is done.
    /// A session without a prompt cannot run.
    pub fn open(&mut self, cancelled: bool, msgs: &Vec<MessageWithParts>, latest: &Latest) -> (r: Opening)
        requires
            old(self).phase == Phase::History,
            old(self).step < u32::MAX,
        ensures
            final(self).phase == (if r is Step {
                Phase::Route
            } else {
                Phase::Over
            }),
            match r {
                Opening::Fail(why) => !cancelled && latest.user is None && why@
                    == "no user message in session"@ && final(self).step == old(self).step,
                Opening::Stop => (cancelled || (latest.user matches Some(u) && is_done(
                    msgs@,
                    latest.assistant,
                    u.id@,
                ))) && final(self).step == old(self).step,
                Opening::Step { title } => !cancelled && (latest.user matches Some(u) && !is_done(
                    msgs@,
                    latest.assistant,
                    u.id@,
                )) && final(self).step == old(self).step + 1 && title == (final(self).step == 1),
            },
    {
        self.phase = Phase::Over;
        if cancelled {
            return Opening::Stop;
        }
        let user = match &latest.user {
            Some(u) => u,
            None => {
                return Opening::Fail("no user message in session".to_owned());
            },
        };
        if reply_is_done(msgs, &latest.assistant, user.id.as_str()) {
            return Opening::Stop;
        }
        self.step = self.step + 1;
        self.phase = Phase::Route;
        Opening::Step { title: self.step == 1 }
    }
}

/// The model that a prompt names.
pub fn step_model(registry: &Registry, named: &ModelRef) -> (r: Result<Model, String>)
    ensures
        match r {
            Ok(m) => registry.found(named.provider_id@, named.model_id@) == Some(m@),
            Err(why) => registry.found(named.provider_id@, named.model_id@) is None && why@
                == "model not found: "@ + named.provider_id@ + "/"@ + named.model_id@,
        },
{
    match registry.get(named.provider_id.as_str(), named.model_id.as_str()) {
        Some(m) => Ok(m.clone()),
        None => {
            let mut s = "model not found: ".to_owned();
            s.append(named.provider_id.as_str());
            s.append("/");
            s.append(named.model_id.as_str());
            Err(s)
        },
    }
}

/// The names of the agents that are not hidden.
pub open spec fn shown_agents(agents: Seq<Agent>) -> Seq<Seq<char>>
    decreases agents.len(),
{
    if agents.len() == 0 {
        Seq::empty()
    } else {
        let before = shown_agents(agents.drop_last());
        if agents.last().hidden {
            before
        } else {
            before.push(agents.last().name@)
        }
    }
}

pub open spec fn agent_missing(agents: Seq<Agent>, name: Seq<char>) -> Seq<char> {
    "Agent not found: \""@ + name + "\". Available agents: "@ + join(shown_agents(agents), ", "@)
}

fn agent_missing_text(agents: &Vec<Agent>, name: &str) -> (s: String)
    ensures
        s@ == agent_missing(agents@, name@),
{
    let mut shown: Vec<String> = Vec::new();
    let mut i: usize = 0;
    assert(texts(shown@) =~= shown_agents(agents@.take(0)));
    while i < agents.len()
        invariant
            i <= agents@.len(),
            texts(shown@) == shown_agents(agents@.take(i as int)),
        decreases agents@.len() - i,
    {
        assert(agents@.take(i + 1).drop_last() =~= agents@.take(i as int));
        if !agents[i].hidden {
            let ghost was = texts(shown@);
            shown.push(agents[i].name.clone());
            assert(texts(shown@) =~= was.push(agents@[i as int].name@));
        }
        i += 1;
    }
    assert(agents@.take(i as int) =~= agents@);
    let mut s = "Agent not found: \"".to_owned();
    s.append(name);
    s.append("\". Available agents: ");
    s.append(joined(&shown, ", ").as_str());
    s
}

/// The task that waits last, where it is one that the loop carries out.
pub open spec fn pending(tasks: Seq<Part>) -> Option<PartKind> {
    if tasks.len() > 0 && (tasks.last().kind is Subtask || tasks.last().kind is Compaction) {
        Some(tasks.last().kind)
    } else {
        None
    }
}

/// Whether the last finished reply filled the context, unless it is a summary
/// itself.
pub open spec fn is_full(config: Config, finished: Option<AssistantMessage>, m: ModelView) -> bool {
    finished matches Some(f) && f.summary != Some(true) && overflows(config, f.tokens, m)
}

/// Whether this is the last step that the agent may take.
pub open spec fn is_last_step(agent: Agent, step: u32) -> bool {
    agent.steps matches Some(max) && step >= max
}

impl RunLoop {
    /// How a step goes on: a task that waits comes first, then compaction of a
    /// full context, then the reply of the prompt's agent.
    pub fn decide(
        &mut self,
        config: &Config,
        agents: &Vec<Agent>,
        latest: &Latest,
        user: &UserMessage,
        model: &Model,
    ) -> (r: Decision)
        requires
            old(self).phase == Phase::Decide,
        ensures
            final(self).step == old(self).step,
            final(self).phase == (match r {
                Decision::Subtask { .. } => Phase::History,
                Decision::Compact { .. } => Phase::Compaction,
                Decision::CreateCompaction => Phase::History,
                Decision::Fail(_) => Phase::Over,
                Decision::Reply { .. } => Phase::Reply,
            }),
            ({
                let waiting = pending(latest.tasks@);
                let full = is_full(*config, latest.finished, model@);
                let at = agent_at(agents@, user.agent@);
                match r {
                    Decision::Subtask { task } => waiting matches Some(k) && k is Subtask && task
                        == latest.tasks@.len() - 1,
                    Decision::Compact { task, auto, overflow } => (waiting matches Some(
                        PartKind::Compaction { auto: a, overflow: o },
                    ) && auto == a && overflow == (o == Some(true))) && task
                        == latest.tasks@.len() - 1,
                    Decision::CreateCompaction => waiting is None && full,
                    Decision::Fail(why) => waiting is None && !full && at is None && why@
                        == agent_missing(agents@, user.agent@),
                    Decision::Reply { agent, last_step } => waiting is None && !full && at == Some(
                        agent as int,
                    ) && agent < agents@.len() && last_step == is_last_step(
                        agents@[agent as int],
                        old(self).step,
                    ),
                }
            }),
    {
        self.phase = Phase::History;
        let n = latest.tasks.len();
        if n > 0 {
            match &latest.tasks[n - 1].kind {
                PartKind::Subtask { .. } => {
                    return Decision::Subtask { task: n - 1 };
                },
                PartKind::Compaction { auto, overflow } => {
                    let over = match overflow {
                        Some(b) => *b,
                        None => false,
                    };
                    self.phase = Phase::Compaction;
                    return Decision::Compact { task: n - 1, auto: *auto, overflow: over };
                },
                _ => {},
            }
        }
        if let Some(f) = &latest.finished {
            let summary = match f.summary {
                Some(b) => b,
                None => false,
            };
            if !summary && is_overflow(config, &f.tokens, model) {
                return Decision::CreateCompaction;
            }
        }
        match find_agent(agents, user.agent.as_str()) {
            None => {
                self.phase = Phase::Over;
                Decision::Fail(agent_missing_text(agents, user.agent.as_str()))
            },
            Some(i) => {
                self.phase = Phase::Reply;
                let last_step = match agents[i].steps {
                    Some(max) => self.step >= max,
                    None => false,
                };
                Decision::Reply { agent: i, last_step }
            },
        }
    }
}

/// What the routing of a step comes to.
pub enum Routing {
    /// the model to call, and how to fail over from it
    Model(Routed),
    /// the loop is over, and those who watch are told why
    Stop(MessageError),
}

impl RunLoop {
    /// Takes in what the model of the step was routed to. A step that cannot be
    /// routed ends the loop.
    pub fn routed(&mut self, outcome: Result<Routed, String>) -> (r: Routing)
        requires
            old(self).phase == Phase::Route,
        ensures
            final(self).step == old(self).step,
            match outcome {
                Ok(m) => r == Routing::Model(m) && final(self).phase == Phase::Decide,
                Err(message) => r == Routing::Stop(MessageError::Unknown { message })
                    && final(self).phase == Phase::Over,
            },
    {
        match outcome {
            Ok(m) => {
                self.phase = Phase::Decide;
                Routing::Model(m)
            },
            Err(message) => {
                self.phase = Phase::Over;
                Routing::Stop(MessageError::Unknown { message })
            },
        }
    }

    /// Takes in how a compaction went: it may end the loop.
    pub fn compacted(&mut self, stop: bool)
        requires
            old(self).phase == Phase::Compaction,
        ensures
            final(self).step == old(self).step,
            final(self).phase == (if stop {
                Phase::Over
            } else {
                Phase::History
            }),
    {
        self.phase = if stop {
            Phase::Over
        } else {
            Phase::History
        };
    }

    /// Takes in the reply of the model, and settles the step.
    pub fn replied(
        &mut self,
        message: AssistantMessage,
        structured: Option<String>,
        outcome: StepOutcome,
        wants_schema: bool,
    ) -> (r: Settled)
        requires
            old(self).phase == Phase::Reply,
        ensures
            is_settled(r, message, structured, outcome, wants_schema),
            final(self).step == old(self).step,
            final(self).phase == (if r.next == Next::Stop {
                Phase::Over
            } else {
                Phase::History
            }),
    {
        let r = settle(message, structured, outcome, wants_schema);
        self.phase = match r.next {
            Next::Stop => Phase::Over,
            _ => Phase::History,
        };
        r
    }
}

// ───────────────────────────── the reply that is stored first ─────────────────────────────

/// The reply as it is stored before the model is called.
pub fn new_reply(
    id: String,
    session_id: &str,
    now: u64,
    user: &UserMessage,
    agent: &Agent,
    model: &Model,
    cwd: &str,
    root: &str,
) -> (r: AssistantMessage)
    ensures
        r.id == id,
        r.session_id@ == session_id@,
        r.created == now,
        r.completed is None,
        r.error is None,
        r.parent_id@ == user.id@,
        r.model_id@ == model.id@,
        r.provider_id@ == model.provider_id@,
        r.mode@ == agent.name@,
        r.agent@ == agent.name@,
        r.cwd@ == cwd@,
        r.root@ == root@,
        r.summary is None,
        r.tokens.effective_total == 0,
        r.structured is None,
        opt_text(r.variant) == opt_text(user.model.variant),
        r.finish is None,
{
    AssistantMessage {
        id,
        session_id: session_id.to_owned(),
        created: now,
        completed: None,
        error: None,
        parent_id: user.id.clone(),
        model_id: model.id.clone(),
        provider_id: model.provider_id.clone(),
        mode: agent.name.clone(),
        agent: agent.name.clone(),
        cwd: cwd.to_owned(),
        root: root.to_owned(),
        summary: None,
        tokens: Tokens { effective_total: 0 },
        structured: None,
        variant: copy_opt(&user.model.variant),
        finish: None,
    }
}

/// The rules of a step: the agent's, and behind them the session's.
pub fn step_rules(agent: &Agent, session: &SessionInfo) -> (r: Ruleset)
    ensures
        rules(r@) == rules(agent.permission@) + (match session.permission {
            Some(extra) => rules(extra@),
            None => Seq::empty(),
        }),
{
    match &session.permission {
        Some(extra) => merged(&agent.permission, extra),
        None => {
            let r = crate::permission::copy_rules(&agent.permission);
            assert(rules(agent.permission@) + Seq::<crate::permission::RuleView>::empty()
                =~= rules(agent.permission@));
            r
        },
    }
}

pub open spec fn names_agent(parts: Seq<Part>) -> bool {
    exists|j: int| 0 <= j < parts.len() && (#[trigger] parts[j]).kind is Agent
}

/// Whether the user named an agent in the last prompt: the check whether that
/// agent may be called is then skipped.
pub fn bypass_agent_check(msgs: &Vec<MessageWithParts>) -> (b: bool)
    ensures
        b == (last_user(msgs@) matches Some(i) && names_agent(msgs@[i].parts@)),
{
    let i = match find_last_user(msgs) {
        Some(i) => i,
        None => {
            return false;
        },
    };
    let parts = &msgs[i].parts;
    let mut j: usize = 0;
    while j < parts.len()
        invariant
            j <= parts@.len(),
            i < msgs@.len(),
            last_user(msgs@) == Some(i as int),
            parts@ == msgs@[i as int].parts@,
            forall|k: int| 0 <= k < j ==> !((#[trigger] parts@[k]).kind is Agent),
        decreases parts@.len() - j,
    {
        if let PartKind::Agent { .. } = &parts[j].kind {
            assert(parts@[j as int].kind is Agent);
            return true;
        }
        j += 1;
    }
    false
}

// ───────────────────────────── tools ─────────────────────────────

/// A tool as the model is told of it. The schema is JSON text.
pub struct ToolDef {
    pub name: String,
    pub description: String,
    pub input_schema: String,
}

/// An MCP server with the names of its tools.
pub struct McpServer {
    pub name: String,
    pub tools: Vec<String>,
    /// whether what the server says of itself relates to the request
    pub related: bool,
}

/// Whether a tool was called anywhere in the history.
pub open spec fn was_called(msgs: Seq<MessageWithParts>, tool: Seq<char>) -> bool {
    exists|i: int, j: int|
        0 <= i < msgs.len() && 0 <= j < msgs[i].parts@.len() && is_call_of(
            #[trigger] msgs[i].parts@[j],
            tool,
        )
}

pub open spec fn is_call_of(p: Part, tool: Seq<char>) -> bool {
    p.kind matches PartKind::Tool { tool: t, .. } && t@ == tool
}

/// Whether a server's tools are sent: the request names it, it is always sent,
/// one of its tools was called before, or it relates to the request. `words` are
/// the words of the request.
pub open spec fn is_relevant(
    s: McpServer,
    words: Seq<Seq<char>>,
    user_text: Seq<char>,
    always: Seq<Seq<char>>,
    msgs: Seq<MessageWithParts>,
) -> bool {
    ||| words.contains(lowercase(s.name@))
    ||| contains(lowercase(user_text), lowercase(s.name@))
    ||| always.contains(s.name@)
    ||| exists|k: int| 0 <= k < s.tools@.len() && was_called(msgs, (#[trigger] s.tools@[k])@)
    ||| s.related
}

/// The tools of the servers that do not matter to the request.
pub open spec fn dropped_tools(
    index: Seq<McpServer>,
    words: Seq<Seq<char>>,
    user_text: Seq<char>,
    always: Seq<Seq<char>>,
    msgs: Seq<MessageWithParts>,
) -> Seq<Seq<char>>
    decreases index.len(),
{
    if index.len() == 0 {
        Seq::empty()
    } else {
        let before = dropped_tools(index.drop_last(), words, user_text, always, msgs);
        if is_relevant(index.last(), words, user_text, always, msgs) {
            before
        } else {
            before + texts(index.last().tools@)
        }
    }
}

/// How a server that is left out is told of.
pub open spec fn skipped_line(s: McpServer) -> Seq<char> {
    s.name@ + " ("@ + decimal(s.tools@.len()) + " tools)"@
}

pub open spec fn skipped_servers(
    index: Seq<McpServer>,
    words: Seq<Seq<char>>,
    user_text: Seq<char>,
    always: Seq<Seq<char>>,
    msgs: Seq<MessageWithParts>,
) -> Seq<Seq<char>>
    decreases index.len(),
{
    if index.len() == 0 {
        Seq::empty()
    } else {
        let before = skipped_servers(index.drop_last(), words, user_text, always, msgs);
        if is_relevant(index.last(), words, user_text, always, msgs) {
            before
        } else {
            before.push(skipped_line(index.last()))
        }
    }
}

fn called_before(msgs: &Vec<MessageWithParts>, tool: &str) -> (b: bool)
    ensures
        b == was_called(msgs@, tool@),
{
    let mut i: usize = 0;
    while i < msgs.len()
        invariant
            i <= msgs@.len(),
            forall|a: int, c: int|
                0 <= a < i && 0 <= c < msgs@[a].parts@.len() ==> !is_call_of(
                    #[trigger] msgs@[a].parts@[c],
                    tool@,
                ),
        decreases msgs@.len() - i,
    {
        let parts = &msgs[i].parts;
        let mut j: usize = 0;
        while j < parts.len()
            invariant
                j <= parts@.len(),
                i < msgs@.len(),
                parts@ == msgs@[i as int].parts@,
                forall|c: int| 0 <= c < j ==> !is_call_of(#[trigger] parts@[c], tool@),
            decreases parts@.len() - j,
        {
            if let PartKind::Tool { tool: t, .. } = &parts[j].kind {
                if same(t.as_str(), tool) {
                    assert(is_call_of(msgs@[i as int].parts@[j as int], tool@));
                    return true;
                }
            }
            j += 1;
        }
        i += 1;
    }
    false
}

fn server_matters(
    s: &McpServer,
    words: &Vec<String>,
    user_text: &str,
    always: &Vec<String>,
    msgs: &Vec<MessageWithParts>,
) -> (b: bool)
    ensures
        b == is_relevant(*s, texts(words@), user_text@, texts(always@), msgs@),
{
    let name = s.name.as_str().to_lowercase();
    if has_text(words, name.as_str()) || has_part(
        user_text.to_lowercase().as_str(),
        name.as_str(),
    ) || has_text(always, s.name.as_str()) || s.related {
        return true;
    }
    let mut k: usize = 0;
    while k < s.tools.len()
        invariant
            k <= s.tools@.len(),
            forall|x: int| 0 <= x < k ==> !was_called(msgs@, (#[trigger] s.tools@[x])@),
        decreases s.tools@.len() - k,
    {
        if called_before(msgs, s.tools[k].as_str()) {
            return true;
        }
        k += 1;
    }
    false
}

fn add_texts(out: &mut Vec<String>, more: &Vec<String>)
    ensures
        texts(final(out)@) == texts(old(out)@) + texts(more@),
{
    let ghost start = texts(out@);
    let mut i: usize = 0;
    assert(start + texts(more@).take(0) =~= start);
    while i < more.len()
        invariant
            i <= more@.len(),
            texts(out@) == start + texts(more@).take(i as int),
        decreases more@.len() - i,
    {
        let ghost was = texts(out@);
        out.push(more[i].clone());
        assert(texts(out@) =~= was.push(more@[i as int]@));
        i += 1;
        assert(texts(out@) =~= start + texts(more@).take(i as int));
    }
    assert(texts(more@).take(i as int) =~= texts(more@));
}

/// A tool is left out exactly where a server that has it does not matter to the
/// request.
pub proof fn only_irrelevant_tools_are_dropped(
    index: Seq<McpServer>,
    words: Seq<Seq<char>>,
    user_text: Seq<char>,
    always: Seq<Seq<char>>,
    msgs: Seq<MessageWithParts>,
    tool: Seq<char>,
)
    ensures
        dropped_tools(index, words, user_text, always, msgs).contains(tool) <==> exists|i: int|
            0 <= i < index.len() && !is_relevant(
                #[trigger] index[i],
                words,
                user_text,
                always,
                msgs,
            ) && texts(index[i].tools@).contains(tool),
    decreases index.len(),
{
    if index.len() > 0 {
        let d = index.drop_last();
        let k = index.len() - 1;
        let a = dropped_tools(d, words, user_text, always, msgs);
        only_irrelevant_tools_are_dropped(d, words, user_text, always, msgs, tool);
        assert(forall|i: int| 0 <= i < k ==> #[trigger] index[i] == d[i]);
        if a.contains(tool) {
            let i = choose|i: int|
                0 <= i < d.len() && !is_relevant(
                    #[trigger] d[i],
                    words,
                    user_text,
                    always,
                    msgs,
                ) && texts(d[i].tools@).contains(tool);
            assert(index[i] == d[i]);
        }
        if !is_relevant(index[k], words, user_text, always, msgs) {
            let b = texts(index[k].tools@);
            let all = a + b;
            if a.contains(tool) {
                let i = choose|i: int| 0 <= i < a.len() && a[i] == tool;
                assert(all[i] == tool);
            }
            if b.contains(tool) {
                let i = choose|i: int| 0 <= i < b.len() && b[i] == tool;
                assert(all[a.len() + i] == tool);
            }
            if all.contains(tool) && !a.contains(tool) {
                let i = choose|i: int| 0 <= i < all.len() && all[i] == tool;
                assert(b[i - a.len()] == tool);
            }
        }
    }
}

/// Which tools to leave out, and what to say of it, if any are.
pub struct McpFilter {
    pub dropped: Vec<String>,
    pub note: Option<String>,
}

/// Send an MCP server's tools only when the prompt (or the session's history)
/// relates to it; the rest are named in one line.
pub fn filter_mcp(
    config: &Config,
    index: &Vec<McpServer>,
    words: &Vec<String>,
    user_text: &str,
    msgs: &Vec<MessageWithParts>,
) -> (r: McpFilter)
    ensures
        ({
            let always = match config.smart_mcp_always {
                Some(a) => texts(a@),
                None => Seq::empty(),
            };
            let gone = if config.smart_mcp == Some(false) {
                Seq::empty()
            } else {
                dropped_tools(index@, texts(words@), user_text@, always, msgs@)
            };
            &&& texts(r.dropped@) == gone
            &&& match r.note {
                Some(note) => gone.len() > 0 && note@
                    == "MCP servers not loaded for this request (name one to use it): "@ + join(
                    skipped_servers(index@, texts(words@), user_text@, always, msgs@),
                    ", "@,
                ),
                None => gone.len() == 0,
            }
        }),
{
    let mut dropped: Vec<String> = Vec::new();
    assert(texts(dropped@) =~= Seq::empty());
    let smart = match config.smart_mcp {
        Some(b) => b,
        None => true,
    };
    if !smart {
        return McpFilter { dropped, note: None };
    }
    let empty: Vec<String> = Vec::new();
    assert(texts(empty@) =~= Seq::empty());
    let always = match &config.smart_mcp_always {
        Some(a) => a,
        None => &empty,
    };
    let mut skipped: Vec<String> = Vec::new();
    assert(texts(skipped@) =~= Seq::empty());
    let ghost w = texts(words@);
    let ghost al = texts(always@);
    let mut i: usize = 0;
    while i < index.len()
        invariant
            i <= index@.len(),
            w == texts(words@),
            al == texts(always@),
            texts(dropped@) == dropped_tools(index@.take(i as int), w, user_text@, al, msgs@),
            texts(skipped@) == skipped_servers(index@.take(i as int), w, user_text@, al, msgs@),
        decreases index@.len() - i,
    {
        let s = &index[i];
        assert(index@.take(i + 1).drop_last() =~= index@.take(i as int));
        assert(index@.take(i + 1).last() == *s);
        if !server_matters(s, words, user_text, always, msgs) {
            add_texts(&mut dropped, &s.tools);
            let mut line = s.name.clone();
            line.append(" (");
            line.append(decimal_of(s.tools.len() as u64).as_str());
            line.append(" tools)");
            let ghost was = texts(skipped@);
            skipped.push(line);
            assert(texts(skipped@) =~= was.push(skipped_line(*s)));
        }
        i += 1;
    }
    assert(index@.take(i as int) =~= index@);
    assert(texts(dropped@).len() == dropped@.len());
    let note = if dropped.len() > 0 {
        let mut n = "MCP servers not loaded for this request (name one to use it): ".to_owned();
        n.append(joined(&skipped, ", ").as_str());
        Some(n)
    } else {
        None
    };
    McpFilter { dropped, note }
}

/// The tools that are left after those in `dropped` are taken out.
pub open spec fn kept_tools(tools: Seq<ToolDef>, dropped: Seq<Seq<char>>) -> Seq<ToolDef> {
    tools.filter(|t: ToolDef| !dropped.contains(t.name@))
}

pub open spec fn is_structured_tool(t: ToolDef, schema: Seq<char>) -> bool {
    &&& t.name@ == "StructuredOutput"@
    &&& t.description@ == "Call this tool exactly once with the final structured result."@
    &&& t.input_schema@ == schema
}

/// The tools of a step: those that were resolved without the dropped ones, and
/// the one that takes a structured reply where a schema asks for it.
pub fn step_tools(tools: Vec<ToolDef>, dropped: &Vec<String>, schema: Option<String>) -> (r: Vec<ToolDef>)
    ensures
        match schema {
            Some(s) => r@.len() > 0 && r@.drop_last() == kept_tools(tools@, texts(dropped@))
                && is_structured_tool(r@.last(), s@),
            None => r@ == kept_tools(tools@, texts(dropped@)),
        },
{
    let ghost all = tools@;
    let ghost d = texts(dropped@);
    let ghost pred = |t: ToolDef| !d.contains(t.name@);
    let mut rest = tools;
    let mut back: Vec<ToolDef> = Vec::new();
    // taken from the end, so the kept ones come out in reverse
    proof {
        assert(all.take(all.len() as int) =~= all);
    }
    while rest.len() > 0
        invariant
            d == texts(dropped@),
            pred == (|t: ToolDef| !d.contains(t.name@)),
            all.filter(pred) == rest@.filter(pred) + back@.reverse(),
        decreases rest@.len(),
    {
        let ghost before = rest@;
        let ghost was = back@;
        if let Some(t) = rest.pop() {
            proof {
                reveal(Seq::filter);
                assert(before.drop_last() =~= rest@);
                assert(before.last() == t);
            }
            if !has_text(dropped, t.name.as_str()) {
                back.push(t);
                assert(before.filter(pred) + was.reverse() =~= rest@.filter(pred) + back@.reverse());
            }
        }
    }
    proof {
        reveal(Seq::filter);
        assert(rest@.filter(pred) =~= Seq::empty());
        assert(all.filter(pred) =~= back@.reverse());
    }
    let mut out: Vec<ToolDef> = Vec::new();
    let ghost kept = back@;
    assert(out@ =~= kept.reverse().take(0));
    while back.len() > 0
        invariant
            back@.len() + out@.len() == kept.len(),
            back@ == kept.take(back@.len() as int),
            out@ == kept.reverse().take(out@.len() as int),
        decreases back@.len(),
    {
        let ghost was = out@;
        if let Some(t) = back.pop() {
            out.push(t);
            assert(back@ =~= kept.take(back@.len() as int));
            assert(out@ =~= kept.reverse().take(out@.len() as int));
        }
    }
    assert(out@ =~= kept.reverse());
    if let Some(s) = schema {
        let ghost was = out@;
        out.push(
            ToolDef {
                name: "StructuredOutput".to_owned(),
                description: "Call this tool exactly once with the final structured result.".to_owned(),
                input_schema: s,
            },
        );
        assert(out@.drop_last() =~= was);
    }
    out
}

// ───────────────────────────── the system prompt ─────────────────────────────

/// What the system prompt is made of besides the base prompt.
pub struct SystemParts {
    pub environment: String,
    pub project_map: Option<String>,
    pub instructions: Vec<String>,
    pub mcp_instructions: Option<String>,
    pub mcp_note: Option<String>,
    pub skills: Option<String>,
    /// what the prompt adds
    pub extra: Option<String>,
    /// how to reply with structured output, where a schema asks for it
    pub structured: Option<String>,
}

pub open spec fn one_or_none(t: Option<String>) -> Seq<Seq<char>> {
    match t {
        Some(t) => seq![t@],
        None => Seq::empty(),
    }
}

pub open spec fn system_blocks(p: SystemParts) -> Seq<Seq<char>> {
    seq![p.environment@] + one_or_none(p.project_map) + texts(p.instructions@) + one_or_none(
        p.mcp_instructions,
    ) + one_or_none(p.mcp_note) + one_or_none(p.skills) + one_or_none(p.extra) + one_or_none(
        p.structured,
    )
}

fn add_if(out: &mut Vec<String>, t: &Option<String>)
    ensures
        texts(final(out)@) == texts(old(out)@) + one_or_none(*t),
{
    if let Some(t) = t {
        let ghost was = texts(out@);
        out.push(t.clone());
        assert(texts(out@) =~= was + seq![t@]);
    } else {
        assert(texts(out@) + Seq::<Seq<char>>::empty() =~= texts(out@));
    }
}

/// The second block of the system prompt.
pub fn system_text(p: &SystemParts) -> (s: String)
    ensures
        s@ == join(system_blocks(*p), "\n\n"@),
{
    let mut out: Vec<String> = Vec::new();
    out.push(p.environment.clone());
    assert(texts(out@) =~= seq![p.environment@]);
    add_if(&mut out, &p.project_map);
    add_texts(&mut out, &p.instructions);
    add_if(&mut out, &p.mcp_instructions);
    add_if(&mut out, &p.mcp_note);
    add_if(&mut out, &p.skills);
    add_if(&mut out, &p.extra);
    add_if(&mut out, &p.structured);
    joined(&out, "\n\n")
}

/// How long the project map in the prompt may be, in characters. There is none
/// where it is switched off.
pub fn project_map_chars(config: &Config) -> (r: Option<usize>)
    ensures
        r == (if config.project_map == Some(false) {
            None
        } else {
            match config.project_map_chars {
                Some(n) => Some(n),
                None => Some(1500),
            }
        }),
{
    let wanted = match config.project_map {
        Some(b) => b,
        None => true,
    };
    if !wanted {
        return None;
    }
    match config.project_map_chars {
        Some(n) => Some(n),
        None => Some(1500),
    }
}

/// The schema that the prompt asks the reply to follow.
pub fn json_schema(user: &UserMessage) -> (r: Option<String>)
    ensures
        match r {
            Some(s) => user.format matches Some(OutputFormat::JsonSchema { schema }) && s == schema,
            None => !(user.format matches Some(OutputFormat::JsonSchema { .. })),
        },
{
    match &user.format {
        Some(OutputFormat::JsonSchema { schema }) => Some(schema.clone()),
        _ => None,
    }
}

/// What a step asks of the model, besides the history and the tools.
pub struct StepRequest {
    /// the blocks of the system prompt
    pub system: Vec<String>,
    /// whether the model has to call a tool
    pub tool_required: bool,
    /// whether the history ends with the note that no step is left
    pub closing: bool,
    /// whether tool results may hold media
    pub media_in_tool_results: bool,
    pub variant: Option<String>,
}

/// The request of a step. The agent's own prompt goes before the model's base
/// prompt, and a schema asks for a tool call.
pub fn step_request(
    user: &UserMessage,
    agent: &Agent,
    model: &Model,
    last_step: bool,
    base: String,
    parts: &SystemParts,
) -> (r: StepRequest)
    ensures
        texts(r.system@) == seq![
            match agent.prompt {
                Some(p) => p@,
                None => base@,
            },
            join(system_blocks(*parts), "\n\n"@),
        ],
        r.tool_required == (user.format matches Some(OutputFormat::JsonSchema { .. })),
        r.closing == last_step,
        r.media_in_tool_results == (model.npm@ == "@ai-sdk/openai"@),
        opt_text(r.variant) == opt_text(user.model.variant),
{
    let first = match &agent.prompt {
        Some(p) => p.clone(),
        None => base,
    };
    let mut system: Vec<String> = Vec::new();
    system.push(first);
    system.push(system_text(parts));
    assert(texts(system@) =~= seq![
        match agent.prompt {
            Some(p) => p@,
            None => base@,
        },
        join(system_blocks(*parts), "\n\n"@),
    ]);
    StepRequest {
        system,
        tool_required: json_schema(user).is_some(),
        closing: last_step,
        media_in_tool_results: same(model.npm.as_str(), "@ai-sdk/openai"),
        variant: copy_opt(&user.model.variant),
    }
}

// ───────────────────────────── after the model replied ─────────────────────────────

/// How the processing of a step ended.
#[derive(Debug, Clone, Copy, PartialEq, Eq, Structural)]
pub enum StepOutcome {
    Stop,
    Compact,
    Continue,
}

/// How the loop goes on after a step.
#[derive(Debug, Clone, Copy, PartialEq, Eq, Structural)]
pub enum Next {
    Stop,
    Continue,
    CreateCompaction { overflow: bool },
}

/// What a step comes to.
pub struct Settled {
    pub message: AssistantMessage,
    /// whether the message has to be stored again
    pub store: bool,
    /// whether those who watch are told of the message's error
    pub publish: bool,
    pub next: Next,
}

pub open spec fn is_blocked(m: AssistantMessage) -> bool {
    m.error is None && (m.finish matches Some(f) && f@ == "content-filter"@)
}

/// What a step comes to: structured output ends the loop; a reply that the
/// provider blocked, or that owes structured output, gets an error and ends it;
/// otherwise the outcome of the step decides.
pub open spec fn is_settled(
    r: Settled,
    message: AssistantMessage,
    structured: Option<String>,
    outcome: StepOutcome,
    wants_schema: bool,
) -> bool {
    let owes = wants_schema && came_to_end(message.finish) && message.error is None;
    let rest = AssistantMessage {
        error: r.message.error,
        structured: r.message.structured,
        finish: r.message.finish,
        ..message
    };
    &&& r.message == rest
    &&& match structured {
        Some(s) => {
            &&& r.message.structured == Some(s)
            &&& r.message.error == message.error
            &&& match message.finish {
                Some(f) => r.message.finish == Some(f),
                None => r.message.finish matches Some(f) && f@ == "stop"@,
            }
            &&& r.store && !r.publish && r.next == Next::Stop
        },
        None => {
            &&& r.message.structured == message.structured
            &&& r.message.finish == message.finish
            &&& if is_blocked(message) {
                &&& r.message.error matches Some(MessageError::ContentFilter { message: why })
                    && why@ == "The response was blocked by the provider's content filter"@
                &&& r.store && r.publish && r.next == Next::Stop
            } else if owes {
                &&& r.message.error matches Some(
                    MessageError::StructuredOutput { message: why, retries },
                ) && why@ == "Model did not produce structured output"@ && retries == 0
                &&& r.store && !r.publish && r.next == Next::Stop
            } else {
                &&& r.message.error == message.error
                &&& !r.store && !r.publish
                &&& r.next == (match outcome {
                    StepOutcome::Stop => Next::Stop,
                    StepOutcome::Compact => Next::CreateCompaction {
                        overflow: message.finish is None,
                    },
                    StepOutcome::Continue => Next::Continue,
                })
            }
        },
    }
}

/// Settle a step.
pub fn settle(
    message: AssistantMessage,
    structured: Option<String>,
    outcome: StepOutcome,
    wants_schema: bool,
) -> (r: Settled)
    ensures
        is_settled(r, message, structured, outcome, wants_schema),
{
    let mut message = message;
    if let Some(s) = structured {
        message.structured = Some(s);
        if message.finish.is_none() {
            message.finish = Some("stop".to_owned());
        }
        return Settled { message, store: true, publish: false, next: Next::Stop };
    }
    let finished = is_finished(&message.finish);
    if finished && message.error.is_none() {
        let blocked = match &message.finish {
            Some(f) => same(f.as_str(), "content-filter"),
            None => false,
        };
        if blocked {
            message.error = Some(
                MessageError::ContentFilter {
                    message: "The response was blocked by the provider's content filter".to_owned(),
                },
            );
            return Settled { message, store: true, publish: true, next: Next::Stop };
        }
        if wants_schema {
            message.error = Some(
                MessageError::StructuredOutput {
                    message: "Model did not produce structured output".to_owned(),
                    retries: 0,
                },
            );
            return Settled { message, store: true, publish: false, next: Next::Stop };
        }
    }
    let next = match outcome {
        StepOutcome::Stop => Next::Stop,
        StepOutcome::Compact => Next::CreateCompaction { overflow: message.finish.is_none() },
        StepOutcome::Continue => Next::Continue,
    };
    proof {
        reveal_strlit("content-filter");
        reveal_strlit("tool-calls");
        reveal_strlit("unknown");
        assert("content-filter"@.len() != "tool-calls"@.len());
        assert("content-filter"@.len() != "unknown"@.len());
    }
    Settled { message, store: false, publish: false, next }
}

} // verus!
